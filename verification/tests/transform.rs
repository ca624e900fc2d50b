use come::param::ParsedParam;
use come::transform::{BitAt, BitsAt, BranchHigh, BranchLow, Csr, IsParamTransformer, JalForm, ParamTransformer, Register};

#[test]
fn bit_at_argument_to_bits() {
    let transformer = BitAt::new(0);
    let param = ParsedParam::Immediate(0b1010);
    assert_eq!(transformer.argument_to_bits(0, &param), vec![false]);
    let transformer = BitAt::new(1);
    assert_eq!(transformer.argument_to_bits(0, &param), vec![true]);
    let transformer = BitAt::new(7);
    assert_eq!(transformer.argument_to_bits(0, &param), vec![false]);
}

#[test]
fn bit_at_update_argument() {
    let transformer = BitAt::new(0);
    let mut param = ParsedParam::Immediate(0);
    transformer.update_argument(&[true], &mut param);
    assert_eq!(param, ParsedParam::Immediate(1));

    let transformer = BitAt::new(1);
    let mut param = ParsedParam::Immediate(0);
    transformer.update_argument(&[false], &mut param);
    assert_eq!(param, ParsedParam::Immediate(0));

    let transformer = BitAt::new(30);
    let mut param = ParsedParam::Immediate(0);
    transformer.update_argument(&[true], &mut param);
    assert_eq!(param, ParsedParam::Immediate(0x40000000));

    let transformer = BitAt::new(31);
    let mut param = ParsedParam::Immediate(0);
    transformer.update_argument(&[true], &mut param);
    assert_eq!(param, ParsedParam::Immediate(-0x8000_0000));
}

#[test]
fn bits_at_argument_to_bits() {
    let transformer = BitsAt::new(0, 2);
    let param = ParsedParam::Immediate(0b1010);
    assert_eq!(transformer.argument_to_bits(0, &param), vec![false, true]);
    let transformer = BitsAt::new(1, 3);
    assert_eq!(transformer.argument_to_bits(0, &param), vec![true, false]);
    let transformer = BitsAt::new(3, 8);
    assert_eq!(
        transformer.argument_to_bits(0, &param),
        vec![true, false, false, false, false]
    );
}

#[test]
fn bits_at_update_argument() {
    let transformer = BitsAt::new(0, 3);
    let mut param = ParsedParam::Immediate(0);
    transformer.update_argument(&[true, false, true], &mut param);
    assert_eq!(param, ParsedParam::Immediate(0b101));

    let transformer = BitsAt::new(1, 3);
    let mut param = ParsedParam::Immediate(0);
    transformer.update_argument(&[false, true], &mut param);
    assert_eq!(param, ParsedParam::Immediate(0b100));

    let transformer = BitsAt::new(24, 32);
    let mut param = ParsedParam::Immediate(0);
    transformer.update_argument(
        &[true, false, true, false, false, false, false, false],
        &mut param,
    );
    assert_eq!(
        param,
        ParsedParam::Immediate(0b0000_0101_0000_0000_0000_0000_0000_0000)
    );
}

#[test]
fn csr_test_argument_to_bits() {
    let transformer = Csr::new();
    let bits = transformer.argument_to_bits(0, &ParsedParam::Csr(0x7c0));
    assert_eq!(
        bits,
        vec![false, false, false, false, false, false, true, true, true, true, true, false]
    );
}

#[test]
fn csr_test_update_argument() {
    let transformer = Csr::new();
    let mut param = ParsedParam::Csr(0);
    transformer.update_argument(
        &[
            false, false, false, false, false, false, true, true, true, true, true, false,
        ],
        &mut param,
    );
    assert_eq!(param, ParsedParam::Csr(0x7c0));
}

#[test]
fn jal_form_test_argument_to_bits() {
    let transformer = JalForm::new();
    let bits = transformer.argument_to_bits(0, &ParsedParam::Immediate(-4));
    assert_eq!(
        bits,
        vec![
            true, true, true, true, true, true, true, true, true, false, true, true, true,
            true, true, true, true, true, true, true
        ]
    );
    let bits = transformer.argument_to_bits(0, &ParsedParam::Immediate(4));
    assert_eq!(
        bits,
        vec![
            false, false, false, false, false, false, false, false, false, false, true, false,
            false, false, false, false, false, false, false, false
        ]
    );
    let bits = transformer.argument_to_bits(0, &ParsedParam::Immediate(0x998));
    assert_eq!(
        bits,
        vec![
            false, false, false, false, false, false, false, false, true, false, false, true,
            true, false, false, true, true, false, false, false
        ]
    );
}

#[test]
fn jal_form_test_update_argument() {
    let transformer = JalForm::new();
    let mut param = ParsedParam::Immediate(0);
    transformer.update_argument(
        &[
            false, false, false, false, false, false, false, false, true, false, false, true,
            true, false, false, true, true, false, false, false,
        ],
        &mut param,
    );
    assert_eq!(param, ParsedParam::Immediate(0b0000_0000_1001_1001_1000));
}

#[test]
fn register_test_argument_to_bits() {
    let transformer = Register::new();
    let bits = transformer.argument_to_bits(0, &ParsedParam::Register(0x1f));
    assert_eq!(bits, vec![true, true, true, true, true]);
}

#[test]
fn register_test_update_argument() {
    let transformer = Register::new();
    let mut param = ParsedParam::Register(0);
    transformer.update_argument(&[true, true, true, true, true], &mut param);
    assert_eq!(param, ParsedParam::Register(0x1f));
}

#[test]
fn branch_high_test_argument_to_bits() {
    let transformer = BranchHigh::new();
    let bits = transformer.argument_to_bits(0, &ParsedParam::Immediate(-4));
    assert_eq!(bits, vec![true, true, true, true, true, true, true]);
    let bits = transformer.argument_to_bits(0, &ParsedParam::Immediate(4));
    assert_eq!(bits, vec![false, false, false, false, false, false, false]);
    let bits = transformer.argument_to_bits(0, &ParsedParam::Immediate(0x998));
    assert_eq!(bits, vec![false, false, true, true, false, false, false]);
}

#[test]
fn branch_high_test_update_argument() {
    let transformer = BranchHigh::new();
    let mut param = ParsedParam::Immediate(0);
    transformer.update_argument(&[false, false, true, true, false, false, false], &mut param);
    assert_eq!(param, ParsedParam::Immediate(0b0001_1000_0000));
}

#[test]
fn branch_low_test_argument_to_bits() {
    let transformer = BranchLow::new();
    let bits = transformer.argument_to_bits(0, &ParsedParam::Immediate(-4));
    assert_eq!(bits, vec![true, false, true, true, true]);
    let bits = transformer.argument_to_bits(0, &ParsedParam::Immediate(4));
    assert_eq!(bits, vec![false, false, true, false, false]);
    let bits = transformer.argument_to_bits(0, &ParsedParam::Immediate(0x998));
    assert_eq!(bits, vec![true, false, false, true, true]);
}

#[test]
fn branch_low_test_update_argument() {
    let transformer = BranchLow::new();
    let mut param = ParsedParam::Immediate(0);
    transformer.update_argument(&[true, false, true, true, true], &mut param);
    assert_eq!(param, ParsedParam::Immediate(0b1000_0001_1100));
}

#[test]
fn branch_offset_is_relative_to_address() {
    let transformer = BranchLow::new();
    let bits = transformer.argument_to_bits(0x10, &ParsedParam::Immediate(0x18));
    assert_eq!(bits, vec![false, false, false, true, false]);
}

#[test]
fn update_leaves_other_kinds_alone() {
    let mut param = ParsedParam::Symbol("main".to_string());
    JalForm::new().update_argument(&[true; 20], &mut param);
    assert_eq!(param, ParsedParam::Symbol("main".to_string()));
    let mut param = ParsedParam::Immediate(3);
    Register::new().update_argument(&[true; 5], &mut param);
    assert_eq!(param, ParsedParam::Immediate(3));
}

#[test]
fn jal_round_trip_keeps_bits_one_to_twenty() {
    let transformer = JalForm::new();
    let param = ParsedParam::Immediate(-2048);
    let bits = transformer.argument_to_bits(0, &param);
    let mut decoded = transformer.default_argument();
    transformer.update_argument(&bits, &mut decoded);
    assert_eq!(decoded, ParsedParam::Immediate(0x1ff800));
}

#[test]
fn transformer_bit_counts() {
    let transformers = vec![
        ParamTransformer::BitAt(BitAt::new(3)),
        ParamTransformer::BitsAt(BitsAt::new(2, 9)),
        ParamTransformer::Register(Register::new()),
        ParamTransformer::Csr(Csr::new()),
        ParamTransformer::JalForm(JalForm::new()),
        ParamTransformer::BranchHigh(BranchHigh::new()),
        ParamTransformer::BranchLow(BranchLow::new()),
    ];
    let counts: Vec<usize> = transformers.iter().map(|it| it.bit_count()).collect();
    assert_eq!(counts, vec![1, 7, 5, 12, 20, 7, 5]);
    assert_eq!(
        ParamTransformer::BitsAt(BitsAt::new(0, 4)).argument_to_bits(0, &ParsedParam::Immediate(5)),
        vec![true, false, true, false]
    );
    assert_eq!(
        ParamTransformer::Csr(Csr::new()).default_argument(),
        ParsedParam::Csr(0)
    );
}

#[test]
fn bit_at_test_parse() {
    let result = BitAt::parse("bit_at(0)").unwrap().1;
    assert_eq!(result, BitAt(0));
    let result = BitAt::parse("bit_at(1)").unwrap().1;
    assert_eq!(result, BitAt(1));
    assert!(BitAt::parse("bits_at(0, 7)").is_none());
}

#[test]
fn bits_at_test_parse() {
    assert_eq!(BitsAt::parse("bits_at(0, 12)").unwrap().1, BitsAt::new(0, 12));
    assert!(BitsAt::parse("bit_at(0)").is_none());
}

#[test]
fn transformers_parse_by_name() {
    assert_eq!(Csr::parse("csr").map(|it| it.0), Some(3));
    assert!(Csr::parse("jal_form").is_none());
    assert_eq!(JalForm::parse("jal_form rest").map(|it| it.0), Some(8));
    assert_eq!(BitsAt::parse("bits_at(3 ,  5)"), Some((15, BitsAt::new(3, 5))));
    assert!(BitAt::parse("bit_at(256)").is_none());
    assert_eq!(
        ParamTransformer::parse("branch_low"),
        Some((10, ParamTransformer::BranchLow(BranchLow)))
    );
}

#[test]
fn param_to_instruction_part() {
    let transformer = BitsAt::new(0, 2);
    let param = ParsedParam::Immediate(0b1010);
    assert_eq!(transformer.param_to_instruction_part(0, &param), vec![false, true]);
    let transformer = BitsAt::new(1, 3);
    assert_eq!(transformer.param_to_instruction_part(0, &param), vec![true, false]);
    let transformer = BitsAt::new(3, 8);
    assert_eq!(
        transformer.param_to_instruction_part(0, &param),
        vec![true, false, false, false, false]
    );
}

#[test]
fn update_param() {
    let transformer = BitsAt::new(0, 3);
    let mut param = ParsedParam::Immediate(0);
    transformer.update_param(&[true, false, true], &mut param);
    assert_eq!(param, ParsedParam::Immediate(0b101));

    let transformer = BitsAt::new(1, 3);
    let mut param = ParsedParam::Immediate(0);
    transformer.update_param(&[false, true], &mut param);
    assert_eq!(param, ParsedParam::Immediate(0b100));

    let transformer = BitsAt::new(24, 32);
    let mut param = ParsedParam::Immediate(0);
    transformer.update_param(&[true, false, true, false, false, false, false, false], &mut param);
    assert_eq!(param, ParsedParam::Immediate(0b0000_0101_0000_0000_0000_0000_0000_0000));
}

#[test]
fn every_transformer_answers_through_the_common_operations() {
    let register = Register::new();
    assert_eq!(register.param_to_instruction_part(0, &ParsedParam::Register(0b10110)), vec![false, true, true, false, true]);
    assert_eq!(register.default_param(), ParsedParam::Register(0));
    assert_eq!(IsParamTransformer::bit_count(&register), 5);
    assert_eq!(IsParamTransformer::bit_count(&JalForm::new()), 20);
    assert_eq!(Csr::new().default_param(), ParsedParam::Csr(0));
    let mut param = ParsedParam::Immediate(0);
    ParamTransformer::BitAt(BitAt::new(4)).update_param(&[true], &mut param);
    assert_eq!(param, ParsedParam::Immediate(16));
}
