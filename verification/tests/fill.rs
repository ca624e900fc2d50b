use come::clef::{PendingSymbol, Symbol};
use come::fill::fill_pending_symbol;
use come::param::{Decided, Param};
use come::simple_instruction::{Part, Template};
use come::transform::{JalForm, ParamTransformer};

fn jump_template() -> Template {
    let mut pattern = vec![true, true, true, true, false, true, true];
    pattern.extend(vec![false; 5]);
    Template {
        name: "j".to_string(),
        parts: vec![Part::BitPattern(come::clef::Bits::from_bools(pattern)), Part::ParamTransformer(0, ParamTransformer::JalForm(JalForm))],
    }
}

fn other_template() -> Template {
    Template { name: "other".to_string(), parts: vec![Part::BitPattern(come::clef::Bits::from_bools(vec![false; 32]))] }
}

fn pending(name: &str, offsets: Vec<u32>) -> PendingSymbol {
    PendingSymbol { name: name.to_string(), pending_instructions_offset_bytes: offsets }
}

#[test]
fn fill_resolves_named_symbols_in_place() {
    let template = jump_template();
    let zero = vec![Param::Decided(Decided::Immediate(0))];
    let mut content = template.render(&zero, 0).to_bools();
    content.extend(template.render(&zero, 4).to_bools());
    content.extend(vec![false; 32]);
    let original = content.clone();
    let symbols = vec![Symbol { name: "f".to_string(), offset_bytes: 12 }];
    let pending_symbols = vec![pending("f", vec![0]), pending("g", vec![4])];
    let templates = vec![other_template(), template.clone()];
    let remaining = fill_pending_symbol(&templates, &symbols, &pending_symbols, &mut content);
    assert_eq!(remaining.len(), 1);
    assert_eq!(remaining[0].name, "g");
    assert_eq!(remaining[0].pending_instructions_offset_bytes, vec![4]);
    let expected_first = template.render(&[Param::Resolved("f".to_string(), Decided::Immediate(12))], 0).to_bools();
    assert_eq!(content[0..32].to_vec(), expected_first);
    assert_ne!(content[0..32].to_vec(), original[0..32].to_vec());
    assert_eq!(content[32..].to_vec(), original[32..].to_vec());
}

#[test]
fn fill_backwards_distance_is_negative() {
    let template = jump_template();
    let zero = vec![Param::Decided(Decided::Immediate(0))];
    let mut content = vec![false; 32];
    content.extend(template.render(&zero, 4).to_bools());
    let symbols = vec![Symbol { name: "start".to_string(), offset_bytes: 0 }];
    let pending_symbols = vec![pending("start", vec![4])];
    let remaining = fill_pending_symbol(&[other_template(), template.clone()], &symbols, &pending_symbols, &mut content);
    assert!(remaining.is_empty());
    let expected = template.render(&[Param::Decided(Decided::Immediate(-4))], 4).to_bools();
    assert_eq!(content[32..64].to_vec(), expected);
}
