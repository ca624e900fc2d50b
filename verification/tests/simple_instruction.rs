use come::clef::{PendingSymbol, Symbol};
use come::param::{Decided, Param};
use come::simple_instruction::{Part, SimpleInstruction, Template};
use come::transform::{BitsAt, JalForm, ParamTransformer, Register};

#[test]
fn template_test_parse() {
    let code = "{{ params[0] | bits_at(0,5) }}100";
    assert_eq!(
        Template::parse(code, "test"),
        Some((
            code.len(),
            Template {
                name: "test".to_string(),
                parts: vec![
                    Part::BitPattern(come::clef::Bits::from_bools(vec![false, false, true])),
                    Part::ParamTransformer(0, ParamTransformer::BitsAt(BitsAt::new(0, 5))),
                ]
            }
        ))
    );
}

#[test]
fn template_test_render() {
    let template = Template {
        name: "test".to_string(),
        parts: vec![
            Part::BitPattern(come::clef::Bits::from_bools(vec![false, false, true])),
            Part::ParamTransformer(0, ParamTransformer::BitsAt(BitsAt::new(0, 5))),
        ],
    };
    assert_eq!(
        template.render(&[Param::Decided(Decided::Immediate(0b11101))], 0).to_bools(),
        vec![false, false, true, true, false, true, true, true]
    );

    let template = Template {
        parts: vec![
            Part::BitPattern(come::clef::Bits::from_bools(vec![true, false, true, true, false])),
            Part::ParamTransformer(1, ParamTransformer::BitsAt(BitsAt::new(5, 8))),
            Part::BitPattern(come::clef::Bits::from_bools(vec![false, false, true])),
            Part::ParamTransformer(0, ParamTransformer::Register(Register)),
        ],
        name: "test".to_string(),
    };
    assert_eq!(
        template.render(
            &[
                Param::Decided(Decided::Register(0b11101)),
                Param::Decided(Decided::Immediate(0b0010_0000))
            ],
            0
        ).to_bools(),
        vec![
            true, false, true, true, false, true, false, false, false, false, true, true,
            false, true, true, true
        ]
    );
}

fn jal() -> Template {
    Template::parse("{{ params[1] | jal_form }}{{ params[0] | register }}1101111", "jal")
        .unwrap()
        .1
}

fn jal_to(target: Param) -> SimpleInstruction {
    SimpleInstruction {
        template: jal(),
        params: vec![Param::Decided(Decided::Register(1)), target],
        offset_bytes: None,
    }
}

#[test]
fn template_counts_bits_by_parameter_width() {
    let template = jal();
    assert_eq!(template.parts[2], Part::ParamTransformer(1, ParamTransformer::JalForm(JalForm)));
    assert_eq!(template.param_bit_count(1), 20);
    assert_eq!(template.param_bit_count(0), 0);
    assert_eq!(template.bit_count(), 27);
    let addi = Template::parse("{{ params[1] | bits_at(0, 12) }}{{params[0]|register}}000{{ params[0] | register }}0010011", "addi")
        .unwrap()
        .1;
    assert_eq!(addi.bit_count(), 22);
}

#[test]
fn unresolved_symbol_renders_as_zero() {
    let mut waiting = jal_to(Param::Unresolved("main".to_string()));
    waiting.set_offset_bytes(8);
    let zero = jal_to(Param::Decided(Decided::Immediate(0)));
    let mut placed_zero = zero.clone();
    placed_zero.set_offset_bytes(8);
    assert_eq!(waiting.render().to_bools(), placed_zero.render().to_bools());
    assert_eq!(waiting.render().to_bools().len(), 32);
}

#[test]
fn pending_symbol_names_first_unresolved_parameter() {
    let mut instruction = SimpleInstruction {
        template: jal(),
        params: vec![
            Param::Decided(Decided::Register(1)),
            Param::Unresolved("first".to_string()),
            Param::Unresolved("second".to_string()),
        ],
        offset_bytes: None,
    };
    let pending = instruction.pending_symbol().unwrap();
    assert_eq!(pending.name, "first");
    assert!(pending.pending_instructions_offset_bytes.is_empty());
    instruction.set_offset_bytes(0x10);
    assert_eq!(instruction.offset_bytes(), 0x10);
    let pending = instruction.pending_symbol().unwrap();
    assert_eq!(pending.pending_instructions_offset_bytes, vec![0x10]);
    assert!(jal_to(Param::Decided(Decided::Immediate(4))).pending_symbol().is_none());
}

#[test]
fn decide_symbol_resolves_matching_parameters() {
    let mut instruction = SimpleInstruction {
        template: jal(),
        params: vec![
            Param::Unresolved("other".to_string()),
            Param::Unresolved("main".to_string()),
            Param::Decided(Decided::Immediate(3)),
        ],
        offset_bytes: Some(0x20),
    };
    instruction.decide_symbol(&Symbol { name: "main".to_string(), offset_bytes: 0x8 });
    assert_eq!(
        instruction.params,
        vec![
            Param::Unresolved("other".to_string()),
            Param::Resolved("main".to_string(), Decided::Immediate(-0x18)),
            Param::Decided(Decided::Immediate(3)),
        ]
    );
    assert_eq!(instruction.offset_bytes, Some(0x20));
}

#[test]
fn instruction_is_shown_with_its_parameters() {
    let instruction = SimpleInstruction {
        template: jal(),
        params: vec![
            Param::Decided(Decided::Register(1)),
            Param::Resolved("main".to_string(), Decided::Immediate(-24)),
        ],
        offset_bytes: Some(0),
    };
    assert_eq!(instruction.to_string(), "jal x1, main <-24>");
    assert_eq!(jal_to(Param::Unresolved("f".to_string())).to_string(), "jal x1, f");
}

#[test]
fn named_template_reads_back_rendered_params() {
    let template = jal();
    let params = [Param::Decided(Decided::Register(1)), Param::Decided(Decided::Immediate(-8))];
    let bits = template.render(&params, 0).to_bools();
    assert_eq!(
        template.parse_binary(&bits, 64, &[]),
        Some(((32, 64 + 27), params.to_vec()))
    );
}

#[test]
fn parse_binary_takes_waiting_symbol() {
    let template = jal();
    let bits = template.render(&[Param::Decided(Decided::Register(1)), Param::Decided(Decided::Immediate(16))], 0).to_bools();
    let pending = [
        PendingSymbol { name: "other".to_string(), pending_instructions_offset_bytes: vec![0] },
        PendingSymbol { name: "main".to_string(), pending_instructions_offset_bytes: vec![8, 4] },
    ];
    assert_eq!(
        template.parse_binary(&bits, 32, &pending),
        Some((
            (7, 32 + 27),
            vec![Param::Unresolved("main".to_string()), Param::Unresolved("main".to_string())]
        ))
    );
}

#[test]
fn parse_binary_rejects_other_opcodes() {
    let template = jal();
    let mut bits = template.render(&[Param::Decided(Decided::Register(3)), Param::Decided(Decided::Immediate(4))], 0).to_bools();
    bits[2] = !bits[2];
    assert_eq!(template.parse_binary(&bits, 0, &[]), None);
    assert_eq!(template.parse_binary(&bits[0..3], 0, &[]), None);
}

#[test]
fn jal_template_reads_back_what_it_renders() {
    let template = Template {
        name: "jal".to_string(),
        parts: vec![
            Part::BitPattern(come::clef::Bits::from_bools(vec![true, true, true, true, false, true, true])),
            Part::ParamTransformer(0, ParamTransformer::Register(Register)),
            Part::ParamTransformer(1, ParamTransformer::JalForm(JalForm)),
        ],
    };
    for (register, offset) in [(0u8, -12i32), (1, 16), (31, 0x7fffe), (5, -0x80000)] {
        let params = vec![Param::Decided(Decided::Register(register)), Param::Decided(Decided::Immediate(offset))];
        let bits = template.render(&params, 8).to_bools();
        assert_eq!(bits.len(), 32);
        let (read, read_params) = template.parse_binary(&bits, 64, &[]).unwrap();
        assert_eq!(read.0, 32);
        assert_eq!(read_params, params);
    }
}
