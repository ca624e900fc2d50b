use come::param::ParsedParam;
use come::template::{InstructionTemplate, TemplatePart};
use come::template_text::parse;
use come::transform::{BitsAt, JalForm, ParamTransformer, Register};

#[test]
fn instruction_template_test_parse() {
    let code = "{{ params[0] | bits_at(0,5) }}100";
    assert_eq!(
        parse(code),
        Some((
            code.len(),
            InstructionTemplate {
                parts: vec![
                    TemplatePart::BitPattern(come::clef::Bits::from_bools(vec![false, false, true])),
                    TemplatePart::ParamTransformer(0, ParamTransformer::BitsAt(BitsAt::new(0, 5))),
                ]
            }
        ))
    );
}

#[test]
fn instruction_template_test_render() {
    let template = InstructionTemplate {
        parts: vec![
            TemplatePart::BitPattern(come::clef::Bits::from_bools(vec![false, false, true])),
            TemplatePart::ParamTransformer(0, ParamTransformer::BitsAt(BitsAt::new(0, 5))),
        ],
    };
    assert_eq!(
        template.render(&[ParsedParam::Immediate(0b11101)], 0).to_bools(),
        vec![false, false, true, true, false, true, true, true]
    );

    let template = InstructionTemplate {
        parts: vec![
            TemplatePart::BitPattern(come::clef::Bits::from_bools(vec![true, false, true, true, false])),
            TemplatePart::ParamTransformer(1, ParamTransformer::BitsAt(BitsAt::new(5, 8))),
            TemplatePart::BitPattern(come::clef::Bits::from_bools(vec![false, false, true])),
            TemplatePart::ParamTransformer(0, ParamTransformer::Register(Register)),
        ],
    };
    assert_eq!(
        template.render(
            &[
                ParsedParam::Register(0b11101),
                ParsedParam::Immediate(0b0010_0000)
            ],
            0
        ).to_bools(),
        vec![
            true, false, true, true, false, true, false, false, false, false, true, true,
            false, true, true, true
        ]
    );
}

fn addi_like() -> InstructionTemplate {
    parse("{{ params[1] | bits_at(0, 12) }}{{params[0]|register}}000{{ params[0] | register }}0010011")
        .unwrap()
        .1
}

#[test]
fn parse_reads_every_part() {
    let template = addi_like();
    assert_eq!(template.parts.len(), 5);
    assert_eq!(template.parts[0], TemplatePart::BitPattern(come::clef::Bits::from_bools(vec![true, true, false, false, true, false, false])));
    assert_eq!(template.parts[4], TemplatePart::ParamTransformer(1, ParamTransformer::BitsAt(BitsAt::new(0, 12))));
    assert_eq!(template.param_bit_count(1), 12);
    assert_eq!(template.param_bit_count(0), 0);
}

#[test]
fn parse_stops_at_unknown_text() {
    assert_eq!(parse("x101"), None);
    let (read, template) = parse("01{{ params[0] | jal_form }} tail").unwrap();
    assert_eq!(read, 28);
    assert_eq!(template.parts[0], TemplatePart::ParamTransformer(0, ParamTransformer::JalForm(JalForm)));
    assert_eq!(parse("{{ params[0] | bits_at(0,300) }}"), None);
}

#[test]
fn parse_binary_reads_back_rendered_params() {
    let template = addi_like();
    let params = vec![ParsedParam::Register(5), ParsedParam::Immediate(-3)];
    let bits = template.render(&params, 0).to_bools();
    assert_eq!(bits.len(), 32);
    assert_eq!(template.parse_binary(&bits), Some((32, params)));
}

#[test]
fn parse_binary_rejects_other_patterns() {
    let template = addi_like();
    let mut bits = template.render(&[ParsedParam::Register(1), ParsedParam::Immediate(7)], 0).to_bools();
    bits[0] = false;
    assert_eq!(template.parse_binary(&bits), None);
    assert_eq!(template.parse_binary(&bits[0..3]), None);
}

#[test]
fn rendered_instruction_reads_back() {
    let template = InstructionTemplate {
        parts: vec![
            TemplatePart::BitPattern(come::clef::Bits::from_bools(vec![true, false, true, true, false])),
            TemplatePart::ParamTransformer(1, ParamTransformer::BitsAt(BitsAt::new(5, 8))),
            TemplatePart::BitPattern(come::clef::Bits::from_bools(vec![false, false, true])),
            TemplatePart::ParamTransformer(0, ParamTransformer::Register(Register)),
        ],
    };
    let params = [ParsedParam::Register(0b11101), ParsedParam::Immediate(0b0110_0000)];
    let bits = template.render(&params, 0).to_bools();
    let (read, decoded) = template.parse_binary(&bits).unwrap();
    assert_eq!(read, bits.len());
    assert_eq!(decoded, vec![ParsedParam::Register(0b11101), ParsedParam::Immediate(0b0110_0000)]);
}
