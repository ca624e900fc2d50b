use come::assembly::{
    instruction_line, parse_directive, preprocess, replace_complex_pseudo, Directive, Line,
    UnparsedInstruction,
};
use come::number_text::parse_integer;
use come::section::{parse_section, SectionName};

fn inst(name: &str, params: &[&str]) -> Line {
    Line::Instruction(UnparsedInstruction {
        name: name.to_string(),
        params: params.iter().map(|it| it.to_string()).collect(),
    })
}

#[test]
fn test_preprocess() {
    let code = r#"
            label:
                addi t0, t1, 1
                li t2, 0x998
                not t3, t4
                lb t5, 4(t6)
        "#;
    let preprocessed = preprocess(code);
    assert_eq!(
        preprocessed,
        vec![
            Line::Tag("label".to_string()),
            Line::Instruction(UnparsedInstruction {
                name: "addi".to_string(),
                params: vec!["t0".to_string(), "t1".to_string(), "1".to_string()]
            }),
            Line::Instruction(UnparsedInstruction {
                name: "li".to_string(),
                params: vec!["t2".to_string(), "0x998".to_string()]
            }),
            Line::Instruction(UnparsedInstruction {
                name: "not".to_string(),
                params: vec!["t3".to_string(), "t4".to_string()]
            }),
            Line::Instruction(UnparsedInstruction {
                name: "lb".to_string(),
                params: vec!["t5".to_string(), "4".to_string(), "t6".to_string()]
            }),
        ]
    );
}

#[test]
fn test_replace_complex_pseudo() {
    let lines = vec![
        Line::Tag("label".to_string()),
        Line::Instruction(UnparsedInstruction {
            name: "addi".to_string(),
            params: vec!["t0".to_string(), "t1".to_string(), "1".to_string()],
        }),
        Line::Instruction(UnparsedInstruction {
            name: "li".to_string(),
            params: vec!["t2".to_string(), "0x998".to_string()],
        }),
        Line::Instruction(UnparsedInstruction {
            name: "not".to_string(),
            params: vec!["t3".to_string(), "t4".to_string()],
        }),
        Line::Instruction(UnparsedInstruction {
            name: "lb".to_string(),
            params: vec!["t5".to_string(), "4".to_string(), "t6".to_string()],
        }),
    ];
    let result = replace_complex_pseudo(&lines);
    assert_eq!(
        result,
        vec![
            Line::Tag("label".to_string()),
            Line::Instruction(UnparsedInstruction {
                name: "addi".to_string(),
                params: vec!["t0".to_string(), "t1".to_string(), "1".to_string()]
            }),
            Line::Instruction(UnparsedInstruction {
                name: "lui".to_string(),
                params: vec!["t2".to_string(), "0x1".to_string()]
            }),
            Line::Instruction(UnparsedInstruction {
                name: "addi".to_string(),
                params: vec!["t2".to_string(), "t2".to_string(), "-1640".to_string()]
            }),
            Line::Instruction(UnparsedInstruction {
                name: "not".to_string(),
                params: vec!["t3".to_string(), "t4".to_string()]
            }),
            Line::Instruction(UnparsedInstruction {
                name: "lb".to_string(),
                params: vec!["t5".to_string(), "4".to_string(), "t6".to_string()]
            }),
        ]
    );
}

#[test]
fn preprocess_reads_directives_and_tags() {
    let code = ".section .text\r\n.global main\n\tmain::\n  .data  \n\n  ret\n";
    assert_eq!(
        preprocess(code),
        vec![
            Line::Directive(Directive::Section(SectionName::Text)),
            Line::Directive(Directive::Global("main".to_string())),
            Line::Tag("main".to_string()),
            Line::Directive(Directive::Section(SectionName::Data)),
            inst("ret", &[""]),
        ]
    );
}

#[test]
fn parse_directive_forms() {
    assert_eq!(parse_directive(".globl  f"), Directive::Global("f".to_string()));
    assert_eq!(parse_directive(".global g"), Directive::Global("g".to_string()));
    assert_eq!(parse_directive(".section .rodata"), Directive::Section(SectionName::Rodata));
    assert_eq!(parse_directive(".bss"), Directive::Section(SectionName::Bss));
}

#[test]
fn instruction_line_splits_at_first_space() {
    assert_eq!(instruction_line("sw t5, 4(t6)"), inst("sw", &["t5", "4", "t6"]));
    assert_eq!(instruction_line("nop"), inst("nop", &[""]));
    assert_eq!(instruction_line("j  label"), inst("j", &["label"]));
}

#[test]
fn section_names_read_back() {
    for n in [SectionName::Text, SectionName::Data, SectionName::Rodata, SectionName::Bss] {
        let text = n.to_string();
        assert_eq!(parse_section(&text), Some((text.chars().count(), n)));
    }
    assert_eq!(SectionName::Rodata.to_string(), ".rodata");
    assert_eq!(parse_section(".textual"), Some((5, SectionName::Text)));
    assert_eq!(parse_section("text"), None);
}

#[test]
fn integers_read_from_text() {
    assert_eq!(parse_integer("0x998"), Some(0x998));
    assert_eq!(parse_integer("-0x1"), Some(-1));
    assert_eq!(parse_integer("42abc"), Some(42));
    assert_eq!(parse_integer("-9223372036854775808"), Some(i64::MIN));
    assert_eq!(parse_integer("9223372036854775808"), None);
    assert_eq!(parse_integer("0xFF"), Some(255));
    assert_eq!(parse_integer("x1"), None);
    assert_eq!(parse_integer("-"), None);
}

#[test]
fn li_expansions() {
    let lines = vec![
        inst("li", &["a0", "0"]),
        inst("li", &["a1", "5"]),
        inst("li", &["a2", "-1"]),
        inst("li", &["a3", "0x1000"]),
        inst("li", &["a4", "0x12345678"]),
        inst("li", &["a5", "2047"]),
        inst("li", &["a6", "2048"]),
    ];
    assert_eq!(
        replace_complex_pseudo(&lines),
        vec![
            inst("mv", &["a0", "zero"]),
            inst("addi", &["a1", "x0", "5"]),
            inst("addi", &["a2", "x0", "-1"]),
            inst("lui", &["a3", "0x1"]),
            inst("lui", &["a4", "0x12345"]),
            inst("addi", &["a4", "a4", "1656"]),
            inst("addi", &["a5", "x0", "2047"]),
            inst("lui", &["a6", "0x1"]),
            inst("addi", &["a6", "a6", "-2048"]),
        ]
    );
}

#[test]
fn non_li_lines_are_kept() {
    let lines = vec![
        Line::Tag("x".to_string()),
        Line::Directive(Directive::Global("x".to_string())),
        inst("add", &["a0", "a1", "a2"]),
    ];
    assert_eq!(replace_complex_pseudo(&lines), lines);
}
