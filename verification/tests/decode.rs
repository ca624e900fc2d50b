use come::decode::{parse_bin, parse_whole_binary, Parsed};
use come::param::{Decided, Param, ParsedParam};
use come::simple_instruction::Template;
use come::template::InstructionTemplate;

fn bits_of(words: &[u32]) -> Vec<bool> {
    words.iter().flat_map(|w| (0..32).map(move |i| (w >> i) & 1 == 1)).collect()
}

fn named(name: &str, text: &str) -> (String, InstructionTemplate) {
    (name.to_string(), come::template_text::parse(text).unwrap().1)
}

fn instruction_templates() -> Vec<(String, InstructionTemplate)> {
    vec![
        named("addi", "{{ params[2] | bits_at(0, 12) }}{{ params[1] | register }}000{{ params[0] | register }}0010011"),
        named("lui", "{{ params[1] | bits_at(0, 20) }}{{ params[0] | register }}0110111"),
    ]
}

#[test]
fn test_parse_bin() {
    let instruction_bits = bits_of(&[0x009980b7u32]);
    let parsed = parse_bin(&instruction_bits, &instruction_templates()).1;
    assert_eq!(
        parsed,
        Parsed { name: "lui".to_string(), params: vec![ParsedParam::Register(1), ParsedParam::Immediate(0x998)] }
    );
}

#[test]
fn parse_bin_takes_the_first_template_that_reads() {
    let bits = bits_of(&[0x00208093u32]);
    let (read, parsed) = parse_bin(&bits, &instruction_templates());
    assert_eq!(read, 32);
    assert_eq!(
        parsed,
        Parsed {
            name: "addi".to_string(),
            params: vec![ParsedParam::Register(1), ParsedParam::Register(1), ParsedParam::Immediate(2)]
        }
    );
}

fn simple(name: &str, text: &str) -> Template {
    Template::parse(text, name).unwrap().1
}

fn templates() -> Vec<Template> {
    vec![
        simple("jal", "{{ params[1] | jal_form }}{{ params[0] | register }}1101111"),
        simple("addi", "{{ params[2] | bits_at(0, 12) }}{{ params[1] | register }}000{{ params[0] | register }}0010011"),
    ]
}

#[test]
fn parse_whole_binary_reads_instruction_after_instruction() {
    let bits = bits_of(&[0x0100006fu32, 0x00208093]);
    let instructions = parse_whole_binary(&bits, &[], &templates());
    assert_eq!(instructions.len(), 2);
    assert_eq!(instructions[0].template.name, "jal");
    assert_eq!(instructions[0].params, vec![Param::Decided(Decided::Register(0)), Param::Decided(Decided::Immediate(16))]);
    assert_eq!(instructions[0].offset_bytes, Some(0));
    assert_eq!(instructions[1].template.name, "addi");
    assert_eq!(
        instructions[1].params,
        vec![
            Param::Decided(Decided::Register(1)),
            Param::Decided(Decided::Register(1)),
            Param::Decided(Decided::Immediate(2))
        ]
    );
}

#[test]
fn parse_whole_binary_of_nothing_is_empty() {
    assert!(parse_whole_binary(&[], &[], &templates()).is_empty());
}
