use come::clef::{Architecture, LinkableOrLoadable, Os, PendingSymbol, SectionMeta, Symbol};

#[test]
fn symbol_is_shown_with_eight_hex_digits() {
    let symbol = Symbol { name: "main".to_string(), offset_bytes: 0x10 };
    assert_eq!(symbol.to_string(), "main: 0x00000010");
    let symbol = Symbol { name: "far".to_string(), offset_bytes: 0xdeadbeef };
    assert_eq!(symbol.to_string(), "far: 0xdeadbeef");
}

#[test]
fn pending_symbol_is_shown_four_offsets_to_a_line() {
    let pending = PendingSymbol {
        name: "f".to_string(),
        pending_instructions_offset_bytes: vec![0, 4, 8, 12, 16],
    };
    assert_eq!(
        pending.to_string(),
        "  f:\n    0x00000000, 0x00000004, 0x00000008, 0x0000000c\n    0x00000010\n"
    );
    let empty = PendingSymbol { name: "g".to_string(), pending_instructions_offset_bytes: vec![] };
    assert_eq!(empty.to_string(), "  g:\n\n");
}

#[test]
fn pending_symbol_knows_its_instructions() {
    let pending = PendingSymbol {
        name: "f".to_string(),
        pending_instructions_offset_bytes: vec![8, 24],
    };
    assert!(pending.used_by_instruction_at_offset(24));
    assert!(pending.used_by_instruction_at_offset(8));
    assert!(!pending.used_by_instruction_at_offset(16));
}

#[test]
fn symbol_offsets_by_name() {
    let meta = SectionMeta {
        name: ".text".to_string(),
        linkable: true,
        loadable: None,
        symbols: vec![
            Symbol { name: "main".to_string(), offset_bytes: 0 },
            Symbol { name: "f".to_string(), offset_bytes: 4 },
            Symbol { name: "main".to_string(), offset_bytes: 12 },
        ],
        pending_symbols: vec![],
    };
    let offsets = meta.symbol_offsets();
    assert_eq!(offsets.len(), 2);
    assert_eq!(offsets.get("main"), Some(&12));
    assert_eq!(offsets.get("f"), Some(&4));
    assert_eq!(offsets.get("g"), None);
}

#[test]
fn names_of_targets_and_placements() {
    assert_eq!(Architecture::RiscV.to_string(), "riscv");
    assert_eq!(Architecture::Arm.to_string(), "arm");
    assert_eq!(Architecture::X86.to_string(), "x86");
    assert_eq!(Os::BareMetal.to_string(), "bare metal");
    assert_eq!(LinkableOrLoadable::Linkable.to_string(), "linkable");
    assert_eq!(
        LinkableOrLoadable::Loadable(0x8000_0000).to_string(),
        "should be loaded into address 0x80000000"
    );
}

#[test]
fn new_clef_has_no_section() {
    let clef = come::clef::Clef::new(come::clef::Architecture::RiscV, come::clef::Os::BareMetal);
    assert_eq!(clef.architecture, come::clef::Architecture::RiscV);
    assert_eq!(clef.os, come::clef::Os::BareMetal);
    assert!(clef.sections.is_empty());
}
