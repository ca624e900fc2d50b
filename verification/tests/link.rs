use come::clef::{Architecture, Bits, Clef, Os, PendingSymbol, Section, SectionMeta, Symbol};
use come::param::{Decided, Param};
use come::simple_instruction::{Part, Template};
use come::transform::{JalForm, ParamTransformer};

fn jump_template() -> Template {
    let mut pattern = vec![true, true, true, true, false, true, true];
    pattern.extend(vec![false; 5]);
    Template {
        name: "j".to_string(),
        parts: vec![Part::BitPattern(come::clef::Bits::from_bools(pattern)), Part::ParamTransformer(0, ParamTransformer::JalForm(JalForm))],
    }
}

fn templates() -> Vec<Template> {
    vec![Template { name: "other".to_string(), parts: vec![Part::BitPattern(come::clef::Bits::from_bools(vec![false; 32]))] }, jump_template()]
}

fn jump(offset: i32, at: u64) -> Vec<bool> {
    jump_template().render(&[Param::Decided(Decided::Immediate(offset))], at).to_bools()
}

fn section(name: &str, symbols: Vec<(&str, u32)>, pending: Vec<(&str, Vec<u32>)>, content: Vec<bool>) -> Section {
    Section {
        meta: SectionMeta {
            name: name.to_string(),
            linkable: true,
            loadable: None,
            symbols: symbols.into_iter().map(|(n, o)| Symbol { name: n.to_string(), offset_bytes: o }).collect(),
            pending_symbols: pending
                .into_iter()
                .map(|(n, o)| PendingSymbol { name: n.to_string(), pending_instructions_offset_bytes: o })
                .collect(),
        },
        content: Bits::from_bools(content),
    }
}

fn first_text() -> Section {
    section("text", vec![("f", 0)], vec![("g", vec![0])], jump(0, 0))
}

fn second_text() -> Section {
    let mut content = vec![false; 32];
    content.extend(jump(0, 4));
    section("text", vec![("g", 0)], vec![("f", vec![4])], content)
}

fn check_joined(joined: &Section) {
    assert_eq!(joined.meta.name, "text");
    let symbols: Vec<(String, u32)> = joined.meta.symbols.iter().map(|s| (s.name.clone(), s.offset_bytes)).collect();
    assert_eq!(symbols, vec![("f".to_string(), 0), ("g".to_string(), 4)]);
    assert!(joined.meta.pending_symbols.is_empty());
    assert_eq!(joined.content.len(), 96);
    assert_eq!(joined.content.to_bools()[0..32].to_vec(), jump(4, 0));
    assert_eq!(joined.content.to_bools()[32..64].to_vec(), vec![false; 32]);
    assert_eq!(joined.content.to_bools()[64..96].to_vec(), jump(-8, 8));
}

#[test]
fn sections_join_and_resolve_each_other() {
    let joined = first_text().merge(second_text(), Architecture::RiscV, &templates());
    check_joined(&joined);
}

#[test]
fn loadable_section_goes_first() {
    let mut loadable = second_text();
    loadable.meta.loadable = Some(0);
    let joined = first_text().merge(loadable, Architecture::RiscV, &templates());
    assert_eq!(joined.meta.loadable, Some(0));
    let symbols: Vec<(String, u32)> = joined.meta.symbols.iter().map(|s| (s.name.clone(), s.offset_bytes)).collect();
    assert_eq!(symbols, vec![("g".to_string(), 0), ("f".to_string(), 8)]);
    assert!(joined.meta.pending_symbols.is_empty());
}

#[test]
fn clef_merge_joins_sections_of_the_same_name() {
    let mut clef1 = Clef::new(Architecture::RiscV, Os::BareMetal);
    let mut clef2 = Clef::new(Architecture::RiscV, Os::BareMetal);
    clef1.sections.push(first_text());
    clef2.sections.push(second_text());
    let clef = clef1.merge(clef2, &templates());
    assert_eq!(clef.sections.len(), 1);
    check_joined(&clef.sections[0]);
}

#[test]
fn clef_merge_keeps_only_the_section_merged_in() {
    let mut clef1 = Clef::new(Architecture::RiscV, Os::BareMetal);
    let mut clef2 = Clef::new(Architecture::RiscV, Os::BareMetal);
    clef1.sections.push(first_text());
    clef2.sections.push(section("data", vec![], vec![], vec![false; 32]));
    let clef = clef1.merge(clef2, &templates());
    assert_eq!(clef.sections.len(), 1);
    assert_eq!(clef.sections[0].meta.name, "data");
}

fn parsed(name: &str, text: &str) -> Template {
    Template::parse(text, name).unwrap().1
}

fn riscv_templates() -> Vec<Template> {
    vec![
        parsed("jal", "{{ params[1] | jal_form }}{{ params[0] | register }}1101111"),
        parsed("addi", "{{ params[2] | bits_at(0, 12) }}{{ params[1] | register }}000{{ params[0] | register }}0010011"),
    ]
}

fn bits_of(words: &[u32]) -> Vec<bool> {
    words.iter().flat_map(|w| (0..32).map(move |i| (w >> i) & 1 == 1)).collect()
}

fn words_of(bits: &[bool]) -> Vec<u32> {
    bits.chunks(32)
        .map(|c| c.iter().enumerate().fold(0u32, |acc, (i, b)| if *b { acc | (1 << i) } else { acc }))
        .collect()
}

fn full_section(name: &str, loadable: Option<u32>, symbols: Vec<(&str, u32)>, pending: Vec<(&str, Vec<u32>)>,
    words: &[u32]) -> Section {
    let mut s = section(name, symbols, pending, bits_of(words));
    s.meta.loadable = loadable;
    s
}

#[test]
fn test_merge() {
    let mut clef1 = Clef::new(Architecture::RiscV, Os::BareMetal);
    let mut clef2 = Clef::new(Architecture::RiscV, Os::BareMetal);
    let section1 = full_section("text", Some(0), vec![("main", 0), ("f", 4)], vec![("test1", vec![0])],
        &[0x0000006f, 0x00208093]);
    let section2 = full_section("text", None, vec![("dumb", 0), ("test1", 8)], vec![("f", vec![8])],
        &[0x00208093, 0x00310113, 0xff9ff06f]);
    clef1.sections.push(section1);
    clef2.sections.push(section2);
    let clef = clef1.merge(clef2, &riscv_templates());
    // jal x0, 16; addi x1, x1, 2; addi x1, x1, 2; addi x2, x2, 3; jal x0, -12
    let expected = vec![0x0100006fu32, 0x00208093, 0x00208093, 0x00310113, 0xff5ff06f];
    assert_eq!(words_of(&clef.sections[0].content.to_bools()), expected);
    let instructions = come::decode::parse_whole_binary(&clef.sections[0].content.to_bools(),
        &clef.sections[0].meta.pending_symbols, &riscv_templates());
    let names: Vec<String> = instructions.iter().map(|i| i.template.name.clone()).collect();
    assert_eq!(names, vec!["jal", "addi", "addi", "addi", "jal"]);
    assert_eq!(instructions[0].params[1], Param::Decided(Decided::Immediate(16)));
    assert_eq!(instructions[4].params[1], Param::Decided(Decided::Immediate(-12)));
    assert_eq!(clef.sections.len(), 1);
    assert_eq!(clef.sections[0].meta.name, "text");
    assert!(clef.sections[0].meta.pending_symbols.is_empty());
    assert_eq!(clef.sections[0].meta.symbols.len(), 4);
}

#[test]
fn link_merges_in_order_and_loads_the_text_section() {
    let mut clef1 = Clef::new(Architecture::RiscV, Os::BareMetal);
    let mut clef2 = Clef::new(Architecture::RiscV, Os::BareMetal);
    clef1.sections.push(first_text());
    clef1.sections[0].meta.name = ".text".to_string();
    clef2.sections.push(second_text());
    clef2.sections[0].meta.name = ".text".to_string();
    let linked = come::link::link(vec![clef1, clef2], &templates());
    assert_eq!(linked.architecture, Architecture::RiscV);
    assert_eq!(linked.sections.len(), 1);
    assert_eq!(linked.sections[0].meta.name, ".text");
    assert_eq!(linked.sections[0].meta.loadable, Some(0x8000_0000));
    assert!(linked.sections[0].meta.pending_symbols.is_empty());
    assert_eq!(linked.sections[0].content.len(), 96);
    assert_eq!(linked.sections[0].content.to_bools()[0..32].to_vec(), jump(4, 0));
}
