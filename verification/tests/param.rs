use come::clef::Symbol;
use come::param::{AsParam, Decided, Param, ParsedParam};

#[test]
fn unwrap_parsed_params() {
    assert_eq!(ParsedParam::Immediate(-5).unwrap_immediate(), -5);
    assert_eq!(ParsedParam::Register(26).unwrap_register(), 26);
    assert_eq!(ParsedParam::Csr(0xc00).unwrap_csr(), 0xc00);
}

#[test]
fn unwrap_params() {
    assert_eq!(Param::Decided(Decided::Immediate(4)).unwrap_immediate(), 4);
    assert_eq!(
        Param::Resolved("f".to_string(), Decided::Immediate(-8)).unwrap_immediate(),
        -8
    );
    assert_eq!(Param::Unresolved("f".to_string()).unwrap_immediate(), 0);
    assert_eq!(Param::Decided(Decided::Register(2)).unwrap_register(), 2);
    assert_eq!(Param::Decided(Decided::Csr(0x300)).unwrap_csr(), 0x300);
    assert_eq!(Param::Unresolved("main".to_string()).unwrap_symbol(), "main");
    assert_eq!(
        Param::Resolved("main".to_string(), Decided::Immediate(0)).unwrap_symbol(),
        "main"
    );
}

#[test]
fn fill_symbol_gives_distance() {
    let symbol = Symbol {
        name: "loop".to_string(),
        offset_bytes: 4,
    };
    let mut param = Param::Unresolved("loop".to_string());
    param.fill_symbol(&symbol, 16);
    assert_eq!(param, Param::Resolved("loop".to_string(), Decided::Immediate(-12)));
    let far = Symbol {
        name: "loop".to_string(),
        offset_bytes: 0x40,
    };
    param.fill_symbol(&far, 0);
    assert_eq!(param, Param::Resolved("loop".to_string(), Decided::Immediate(0x40)));
}

#[test]
fn i32_as_param() {
    assert_eq!(7i32.as_param(), Param::Decided(Decided::Immediate(7)));
}

#[test]
fn params_are_shown() {
    assert_eq!(ParsedParam::Symbol("loop".to_string()).to_string(), "loop");
    assert_eq!(ParsedParam::Register(5).to_string(), "x5");
    assert_eq!(ParsedParam::Csr(0xc00).to_string(), "0x0c00");
    assert_eq!(ParsedParam::Immediate(-12).to_string(), "-12");
    assert_eq!(Decided::Csr(0x12345u32 as u16).to_string(), "0x2345");
    assert_eq!(Decided::Immediate(i32::MIN).to_string(), "-2147483648");
    assert_eq!(Param::Unresolved("f".to_string()).to_string(), "f");
    assert_eq!(Param::Resolved("f".to_string(), Decided::Immediate(8)).to_string(), "f <8>");
    assert_eq!(Param::Decided(Decided::Register(0)).to_string(), "x0");
}
