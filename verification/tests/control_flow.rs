use std::str::FromStr;

use come::control_flow::element::ControlFlowElement;
use come::control_flow::selector::{CFSelector, CFSelectorSegment};

#[test]
fn test_find_node() {
    let current_result = (0..5)
        .map(|it| ControlFlowElement::BasicBlock { id: it })
        .collect::<Vec<_>>();

    let content = ControlFlowElement::Block {
        content: current_result,
    };
    let selector = content.find_node(0);
    assert_eq!(selector.unwrap(), CFSelector::from_str("0").unwrap());
    let selector = content.find_node(1);
    assert_eq!(selector.unwrap(), CFSelector::from_str("1").unwrap());
    let content = ControlFlowElement::Block {
        content: vec![
            ControlFlowElement::BasicBlock { id: 0 },
            ControlFlowElement::If {
                condition: Box::new(ControlFlowElement::BasicBlock { id: 1 }),
                on_success: Vec::new(),
                on_failure: Vec::new(),
            },
            ControlFlowElement::BasicBlock { id: 2 },
        ],
    };
    let selector = content.find_node(1);
    assert_eq!(
        selector.unwrap(),
        CFSelector::from_str("1/if_condition").unwrap()
    );

    let content = ControlFlowElement::Block {
        content: vec![
            ControlFlowElement::BasicBlock { id: 0 },
            ControlFlowElement::If {
                condition: Box::new(ControlFlowElement::BasicBlock { id: 1 }),
                on_success: vec![ControlFlowElement::BasicBlock { id: 2 }],
                on_failure: Vec::new(),
            },
            ControlFlowElement::BasicBlock { id: 3 },
        ],
    };
    let selector = content.find_node(1);
    assert_eq!(
        selector.unwrap(),
        CFSelector::from_str("1/if_condition").unwrap()
    );
    let selector = content.find_node(2);
    assert_eq!(
        selector.unwrap(),
        CFSelector::from_str("1/success->0").unwrap()
    );
    let selector = content.find_node(3);
    assert_eq!(selector.unwrap(), CFSelector::from_str("2").unwrap());
}

fn sample() -> ControlFlowElement {
    ControlFlowElement::Block {
        content: vec![
            ControlFlowElement::BasicBlock { id: 0 },
            ControlFlowElement::If {
                condition: Box::new(ControlFlowElement::BasicBlock { id: 1 }),
                on_success: vec![ControlFlowElement::BasicBlock { id: 2 }],
                on_failure: vec![ControlFlowElement::BasicBlock { id: 3 }],
            },
            ControlFlowElement::Loop {
                content: vec![ControlFlowElement::BasicBlock { id: 4 }],
            },
        ],
    }
}

#[test]
fn find_node_of_missing_block_is_none() {
    assert_eq!(sample().find_node(9), None);
    assert_eq!(
        sample().find_node(3).unwrap(),
        CFSelector::from_str("1/failure->0").unwrap()
    );
    assert_eq!(
        sample().find_node(4).unwrap(),
        CFSelector::from_str("2/0").unwrap()
    );
}

#[test]
fn found_path_leads_to_the_block() {
    let content = sample();
    for id in 0..5 {
        let selector = content.find_node(id).unwrap();
        assert_eq!(content.index(&selector), &ControlFlowElement::BasicBlock { id });
    }
}

#[test]
fn first_basic_block() {
    let content = sample();
    assert_eq!(content.first_basic_block_id(), 0);
    assert_eq!(
        content.first_basic_block_selector(),
        CFSelector::from_str("0").unwrap()
    );
    let if_element = content.get(&CFSelector::from_str("1").unwrap()).unwrap();
    assert_eq!(if_element.first_basic_block_id(), 1);
    assert_eq!(
        if_element.first_basic_block_selector(),
        CFSelector::from_str("if_condition").unwrap()
    );
}

#[test]
fn get_out_of_range_is_none() {
    let content = sample();
    assert_eq!(content.get(&CFSelector::from_str("5").unwrap()), None);
    assert_eq!(content.get(&CFSelector::from_str("1/success->1").unwrap()), None);
}

#[test]
fn replace_then_index_gives_new_element() {
    let mut content = sample();
    let selector = CFSelector::from_str("1/success->0").unwrap();
    content.replace(&selector, ControlFlowElement::new_node(7));
    assert_eq!(content.index(&selector), &ControlFlowElement::BasicBlock { id: 7 });
    assert_eq!(content.find_node(2), None);
}

#[test]
fn remove_takes_element_out_of_its_list() {
    let mut content = sample();
    let removed = content.remove(&CFSelector::from_str("0").unwrap());
    assert_eq!(removed, ControlFlowElement::BasicBlock { id: 0 });
    assert_eq!(
        content.find_node(1).unwrap(),
        CFSelector::from_str("0/if_condition").unwrap()
    );
    let removed = content.remove(&CFSelector::from_str("0/failure->0").unwrap());
    assert_eq!(removed, ControlFlowElement::BasicBlock { id: 3 });
    assert_eq!(content.find_node(3), None);
}

#[test]
fn next_element_sibling_moves_one_on() {
    let content = sample();
    assert_eq!(
        content.next_element_sibling(&CFSelector::from_str("0").unwrap()),
        Some(CFSelector::from_str("1").unwrap())
    );
    assert_eq!(
        content.next_element_sibling(&CFSelector::from_str("2").unwrap()),
        None
    );
    assert_eq!(
        content.next_element_sibling(&CFSelector::from_str("1/if_condition").unwrap()),
        None
    );
    assert_eq!(
        content.next_element_sibling(&CFSelector::from_str("1/success->0").unwrap()),
        None
    );
}

#[test]
fn unwrap_node_and_block_content() {
    assert_eq!(ControlFlowElement::new_node(3).unwrap_node(), 3);
    let block = ControlFlowElement::new_block(vec![ControlFlowElement::new_node(1)]);
    assert_eq!(block.block_content().unwrap().len(), 1);
    assert!(sample().get(&CFSelector::from_str("2").unwrap()).unwrap().block_content().is_none());
    let mut looped = ControlFlowElement::Loop { content: vec![] };
    looped.unwrap_content_mut().push(ControlFlowElement::new_node(5));
    assert_eq!(looped.find_node(5).unwrap(), CFSelector::from_str("0").unwrap());
}

#[test]
fn clone_is_equal() {
    let content = sample();
    assert_eq!(content.clone(), content);
}

#[test]
fn selector_segment_parse_and_print() {
    assert_eq!(
        CFSelectorSegment::from_str("success->12").unwrap(),
        CFSelectorSegment::IndexInSuccess(12)
    );
    assert_eq!(CFSelectorSegment::IfCondition.to_string(), "if_condition");
    let selector = CFSelector::from_str("1/failure->2/if_condition").unwrap();
    assert_eq!(selector.to_string(), "1/failure->2/if_condition");
    assert!(CFSelector::from_str("1/x").is_err());
}

#[test]
fn selector_slash_form_names_the_branch_index() {
    let mut expected = CFSelector::from_segment(CFSelectorSegment::ContentAtIndex(1));
    expected.push_back(CFSelectorSegment::IndexInSuccess(0));
    assert_eq!(CFSelector::from_str("1/success/0").unwrap(), expected);
    assert_eq!(CFSelector::from_str("1/success->0").unwrap(), expected);
    let mut failure = CFSelector::from_segment(CFSelectorSegment::ContentAtIndex(1));
    failure.push_back(CFSelectorSegment::IndexInFailure(2));
    assert_eq!(CFSelector::from_str("1/failure/2").unwrap(), failure);
    assert!(CFSelector::from_str("1/success").is_err());
    assert!(CFSelector::from_str("1/success/x").is_err());
}

#[test]
fn parent_through_if_conditions() {
    let zero = CFSelector::from_str("0").unwrap();
    assert!(zero.is_parent_of(&CFSelector::from_str("0/1").unwrap()));
    assert!(zero.is_parent_of(&CFSelector::from_str("0/if_condition/0").unwrap()));
    assert!(!zero.is_parent_of(&CFSelector::from_str("0/success->1/0").unwrap()));
    assert!(!zero.is_parent_of(&CFSelector::from_str("1/0").unwrap()));
}

#[test]
fn is_after_answers_opposite_ways() {
    let a = CFSelector::from_str("0/2").unwrap();
    let b = CFSelector::from_str("0/1/3").unwrap();
    assert_eq!(a.is_after(&b), Some(false));
    assert_eq!(b.is_after(&a), Some(true));
    assert_eq!(a.is_after(&a), None);
    assert_eq!(CFSelector::from_str("0").unwrap().is_after(&a), None);
}

#[test]
fn first_selector_reaches_first_block() {
    let content = ControlFlowElement::new_block(vec![
        ControlFlowElement::If {
            condition: Box::new(ControlFlowElement::new_node(4)),
            on_success: vec![ControlFlowElement::new_node(5)],
            on_failure: Vec::new(),
        },
        ControlFlowElement::new_node(6),
    ]);
    let selector = content.first_basic_block_selector();
    assert_eq!(selector.to_string(), "0/if_condition");
    assert_eq!(content.get(&selector), Some(&ControlFlowElement::new_node(4)));
    assert_eq!(content.first_basic_block_id(), 4);
}
