use come::object::{parse_single_section, SectionLine};
use come::param::{Decided, Param};
use come::simple_instruction::{Part, SimpleInstruction, Template};

fn word(name: &str, params: Vec<Param>) -> SectionLine {
    SectionLine::Instruction(SimpleInstruction {
        template: Template { name: name.to_string(), parts: vec![Part::BitPattern(come::clef::Bits::from_bools(vec![true; 32]))] },
        params,
        offset_bytes: None,
    })
}

fn unresolved(name: &str) -> Param {
    Param::Unresolved(name.to_string())
}

#[test]
fn section_places_resolves_and_exports() {
    let lines = vec![
        SectionLine::Global("main".to_string()),
        SectionLine::Tag("main".to_string()),
        word("a", vec![unresolved("f")]),
        word("b", vec![Param::Decided(Decided::Immediate(1))]),
        SectionLine::Tag("f".to_string()),
        word("c", vec![unresolved("g"), unresolved("f")]),
        word("d", vec![unresolved("g")]),
    ];
    let (instructions, symbols, pending) = parse_single_section(lines);
    let offsets: Vec<Option<u32>> = instructions.iter().map(|it| it.offset_bytes).collect();
    assert_eq!(offsets, vec![Some(0), Some(4), Some(8), Some(12)]);
    assert_eq!(instructions[0].params, vec![Param::Resolved("f".to_string(), Decided::Immediate(8))]);
    assert_eq!(instructions[1].params, vec![Param::Decided(Decided::Immediate(1))]);
    assert_eq!(instructions[2].params, vec![unresolved("g"), unresolved("f")]);
    assert_eq!(instructions[3].params, vec![unresolved("g")]);
    assert_eq!(symbols.len(), 1);
    assert_eq!(symbols[0].name, "main");
    assert_eq!(symbols[0].offset_bytes, 0);
    assert_eq!(pending.len(), 1);
    assert_eq!(pending[0].name, "g");
    assert_eq!(pending[0].pending_instructions_offset_bytes, vec![8, 12]);
}

#[test]
fn later_tag_of_a_name_counts_and_backward_references_resolve() {
    let lines = vec![
        SectionLine::Tag("loop".to_string()),
        word("a", vec![]),
        SectionLine::Tag("loop".to_string()),
        word("b", vec![unresolved("loop")]),
        SectionLine::Global("loop".to_string()),
    ];
    let (instructions, symbols, pending) = parse_single_section(lines);
    assert_eq!(instructions[1].params, vec![Param::Resolved("loop".to_string(), Decided::Immediate(0))]);
    assert_eq!(symbols[0].offset_bytes, 4);
    assert!(pending.is_empty());
}

use come::object::emit_section;
use come::section::SectionName;
use come::transform::{JalForm, ParamTransformer};

fn jump(params: Vec<Param>) -> SectionLine {
    let mut pattern = vec![true, true, true, true, false, true, true];
    pattern.extend(vec![false; 5]);
    SectionLine::Instruction(SimpleInstruction {
        template: Template {
            name: "j".to_string(),
            parts: vec![Part::BitPattern(come::clef::Bits::from_bools(pattern)), Part::ParamTransformer(0, ParamTransformer::JalForm(JalForm))],
        },
        params,
        offset_bytes: None,
    })
}

#[test]
fn section_emits_settled_instructions_in_order() {
    let lines = vec![
        SectionLine::Global("start".to_string()),
        SectionLine::Tag("start".to_string()),
        jump(vec![unresolved("end")]),
        jump(vec![unresolved("elsewhere")]),
        SectionLine::Tag("end".to_string()),
        jump(vec![unresolved("start")]),
    ];
    let section = emit_section(SectionName::Text, lines);
    assert_eq!(section.meta.name, ".text");
    assert!(section.meta.linkable);
    assert_eq!(section.meta.loadable, None);
    assert_eq!(section.meta.symbols.len(), 1);
    assert_eq!(section.meta.symbols[0].offset_bytes, 0);
    assert_eq!(section.meta.pending_symbols.len(), 1);
    assert_eq!(section.meta.pending_symbols[0].name, "elsewhere");
    assert_eq!(section.meta.pending_symbols[0].pending_instructions_offset_bytes, vec![4]);
    let template = match jump(vec![]) {
        SectionLine::Instruction(ins) => ins.template,
        _ => unreachable!(),
    };
    let mut expected = template.render(&[Param::Decided(Decided::Immediate(8))], 0).to_bools();
    expected.extend(template.render(&[Param::Decided(Decided::Immediate(0))], 4).to_bools());
    expected.extend(template.render(&[Param::Decided(Decided::Immediate(-8))], 8).to_bools());
    assert_eq!(section.content.to_bools(), expected);
}
