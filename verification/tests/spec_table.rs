use come::simple_instruction::Template;
use come::spec_table::{read_table, read_templates};

#[test]
fn table_entries_are_split_at_the_first_space() {
    let text = "\n  mv addi {{params[0]}}, {{params[1]}}, 0  \n\nnot   xori {{params[0]}}, {{params[1]}}, -1\n";
    assert_eq!(
        read_table(text),
        vec![
            ("mv".to_string(), "addi {{params[0]}}, {{params[1]}}, 0".to_string()),
            ("not".to_string(), "xori {{params[0]}}, {{params[1]}}, -1".to_string()),
        ]
    );
    assert!(read_table("").is_empty());
}

#[test]
fn templates_are_read_by_name() {
    let text = "lui {{ params[1] | bits_at(0, 20) }}{{ params[0] | register }}0110111\n";
    let templates = read_templates(text).unwrap();
    let expected = Template::parse("{{ params[1] | bits_at(0, 20) }}{{ params[0] | register }}0110111", "lui").unwrap().1;
    assert_eq!(templates, vec![expected]);
}

#[test]
fn an_entry_without_a_template_is_refused() {
    assert!(read_templates("lui ???\n").is_none());
}
