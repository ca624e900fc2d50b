use come::assembler::emit_clef;
use come::assembly::{Line, UnparsedInstruction};
use come::pseudo::{replace_simple_pseudo, replace_text};
use come::simple_instruction::Template;

fn instruction(name: &str, params: &[&str]) -> Line {
    Line::Instruction(UnparsedInstruction {
        name: name.to_string(),
        params: params.iter().map(|p| p.to_string()).collect(),
    })
}

fn pseudo_table() -> Vec<(String, String)> {
    vec![
        ("mv".to_string(), "addi {{params[0]}}, {{params[1]}}, 0".to_string()),
        ("not".to_string(), "xori {{params[0]}}, {{params[1]}}, -1".to_string()),
    ]
}

fn template(name: &str, text: &str) -> Template {
    let (used, t) = Template::parse(text, name).unwrap();
    assert_eq!(used, text.len());
    t
}

fn templates() -> Vec<Template> {
    vec![
        template(
            "addi",
            "{{ params[2] | bits_at(0, 12) }}{{ params[1] | register }}000{{ params[0] | register }}0010011",
        ),
        template("lui", "{{ params[1] | bits_at(0, 20) }}{{ params[0] | register }}0110111"),
        template(
            "xori",
            "{{ params[2] | bits_at(0, 12) }}{{ params[1] | register }}100{{ params[0] | register }}0010011",
        ),
        template(
            "sw",
            "{{ params[1] | bits_at(5, 12) }}{{ params[0] | register }}{{ params[2] | register }}010{{ params[1] | bits_at(0, 5) }}0100011",
        ),
    ]
}

fn registers() -> Vec<(String, u8)> {
    let abi = [
        "zero", "ra", "sp", "gp", "tp", "t0", "t1", "t2", "s0", "s1", "a0", "a1", "a2", "a3", "a4", "a5", "a6", "a7",
        "s2", "s3", "s4", "s5", "s6", "s7", "s8", "s9", "s10", "s11", "t3", "t4", "t5", "t6",
    ];
    let mut table: Vec<(String, u8)> = abi.iter().enumerate().map(|(i, n)| (n.to_string(), i as u8)).collect();
    for i in 0..32u8 {
        table.push((format!("x{}", i), i));
    }
    table
}

fn word(bits: &[bool]) -> u32 {
    bits.iter().enumerate().fold(0u32, |acc, (i, b)| if *b { acc | (1 << i) } else { acc })
}

#[test]
fn test_replace_simple_pseudo() {
    let lines = vec![Line::Tag("label".to_string()), instruction("mv", &["t0", "t1"])];
    let result = replace_simple_pseudo(&lines, &pseudo_table());
    assert_eq!(result, vec![Line::Tag("label".to_string()), instruction("addi", &["t0", "t1", "0"])]);
}

#[test]
fn later_pseudo_entry_of_a_name_wins() {
    let mut table = pseudo_table();
    table.push(("mv".to_string(), "add {{params[0]}}, zero, {{params[1]}}".to_string()));
    let result = replace_simple_pseudo(&[instruction("mv", &["a0", "a1"])], &table);
    assert_eq!(result, vec![instruction("add", &["a0", "zero", "a1"])]);
}

#[test]
fn replace_text_replaces_every_occurrence() {
    assert_eq!(replace_text("a{x}b{x}", "{x}", "yy"), "ayybyy");
    assert_eq!(replace_text("aaa", "aa", "b"), "ba");
    assert_eq!(replace_text("abc", "", "z"), "abc");
}

#[test]
fn test_emit_clef() {
    let code = r#"
.section .text
.global main
main:
main_entry:
    addi t0, t0, 1
    mv t0, t1
    li t2, 0x998
    not t3, t4
    sw t5, 4(t6)"#;
    let result = emit_clef(code, &templates(), &pseudo_table(), &registers(), &[]).unwrap();
    assert_eq!(result.sections[0].meta.name, ".text");
    assert_eq!(result.sections[0].meta.symbols[0].name, "main");
    assert_eq!(result.sections[0].meta.symbols[0].offset_bytes, 0);
    let content = &result.sections[0].content.to_bools();
    assert_eq!(word(&content[0..32]), 0x128293);
    assert_eq!(word(&content[32..32 * 2]), 0x30293);
    assert_eq!(word(&content[32 * 2..32 * 3]), 0x13b7);
    assert_eq!(word(&content[32 * 3..32 * 4]), 0x99838393);
    assert_eq!(word(&content[32 * 4..32 * 5]), 0xfffece13);
    assert_eq!(word(&content[32 * 5..32 * 6]), 0x1efa223);
}

#[test]
fn emit_clef_refuses_a_program_without_a_leading_section() {
    let code = "addi t0, t0, 1\n.section .text\n";
    assert!(emit_clef(code, &templates(), &pseudo_table(), &registers(), &[]).is_none());
}

#[test]
fn emit_clef_refuses_an_unknown_instruction() {
    let code = ".section .text\n    frobnicate t0\n";
    assert!(emit_clef(code, &templates(), &pseudo_table(), &registers(), &[]).is_none());
}

#[test]
fn emit_clef_refuses_an_unreadable_parameter() {
    let code = ".section .text\n    addi @x, t0, 1\n";
    assert!(emit_clef(code, &templates(), &pseudo_table(), &registers(), &[]).is_none());
}

#[test]
fn emit_clef_of_an_empty_program_has_no_sections() {
    let result = emit_clef("", &templates(), &pseudo_table(), &registers(), &[]).unwrap();
    assert!(result.sections.is_empty());
}
