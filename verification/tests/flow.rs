use come::flow_loops::{fold_all_loops, fold_loop, Loop, LoopContent};
use come::flow::{ControlFlow, ControlFlowContent};

fn sample() -> ControlFlow {
    ControlFlow {
        content: vec![
            ControlFlowContent::Node(0),
            ControlFlowContent::Loop(Box::new(ControlFlow {
                content: vec![ControlFlowContent::Node(1), ControlFlowContent::BrIf(4)],
            })),
            ControlFlowContent::If(
                Box::new(ControlFlow {
                    content: vec![ControlFlowContent::Node(2)],
                }),
                Some(ControlFlow {
                    content: vec![ControlFlowContent::Node(3)],
                }),
            ),
        ],
    }
}

#[test]
fn node_count_skips_br_if() {
    assert_eq!(sample().node_count(), 4);
    assert_eq!(ControlFlowContent::BrIf(2).node_count(), 0);
}

#[test]
fn contains_looks_everywhere() {
    let flow = sample();
    for node in 0..5 {
        assert!(flow.contains(node));
    }
    assert!(!flow.contains(5));
}

#[test]
fn first_node_descends() {
    let flow = sample();
    assert_eq!(flow.first_node(), 0);
    assert_eq!(flow.content[1].first_node(), 1);
    assert_eq!(flow.content[2].first_node(), 2);
}

#[test]
fn control_flow_is_shown_nested() {
    let flow = ControlFlow {
        content: vec![
            ControlFlowContent::Node(0),
            ControlFlowContent::Block(Box::new(ControlFlow {
                content: vec![ControlFlowContent::Node(1), ControlFlowContent::BrIf(3)],
            })),
            ControlFlowContent::If(
                Box::new(ControlFlow { content: vec![ControlFlowContent::Node(2)] }),
                Some(ControlFlow { content: vec![ControlFlowContent::Node(4)] }),
            ),
            ControlFlowContent::Loop(Box::new(ControlFlow { content: vec![ControlFlowContent::Node(5)] })),
            ControlFlowContent::If(Box::new(ControlFlow { content: vec![] }), None),
        ],
    };
    assert_eq!(
        flow.debug_text(),
        "0 Block { 1 BrIf 3} If { 2 } Else { 4 } Loop { 5 } If { } "
    );
    assert_eq!(ControlFlowContent::BrIf(7).debug_text(), "BrIf 7");
}

fn nodes(ids: &[usize]) -> Vec<ControlFlowContent> {
    ids.iter().map(|id| ControlFlowContent::Node(*id)).collect()
}

fn looped(content: Vec<ControlFlowContent>) -> ControlFlowContent {
    ControlFlowContent::Loop(Box::new(ControlFlow { content }))
}

fn inner_loop() -> Loop {
    Loop { entries: vec![2], content: vec![LoopContent::Node(2)], node_count: 1 }
}

#[test]
fn loop_folds_its_nodes_and_inner_loops() {
    let outer = Loop {
        entries: vec![1],
        content: vec![LoopContent::Node(1), LoopContent::SubLoop(Box::new(inner_loop())), LoopContent::Node(3)],
        node_count: 3,
    };
    let mut current = nodes(&[0, 1, 2, 3, 4]);
    fold_loop(&mut current, &outer);
    assert_eq!(
        current,
        vec![
            ControlFlowContent::Node(0),
            looped(vec![ControlFlowContent::Node(1), looped(nodes(&[2])), ControlFlowContent::Node(3)]),
            ControlFlowContent::Node(4),
        ]
    );
}

#[test]
fn all_loops_of_a_function_fold_in_order() {
    let root = Loop {
        entries: vec![0],
        content: vec![
            LoopContent::Node(0),
            LoopContent::SubLoop(Box::new(inner_loop())),
            LoopContent::SubLoop(Box::new(Loop { entries: vec![3], content: vec![LoopContent::Node(3), LoopContent::Node(4)], node_count: 2 })),
        ],
        node_count: 5,
    };
    let mut current = nodes(&[0, 1, 2, 3, 4, 5]);
    fold_all_loops(&root, &mut current);
    assert_eq!(
        current,
        vec![
            ControlFlowContent::Node(0),
            ControlFlowContent::Node(1),
            looped(nodes(&[2])),
            looped(nodes(&[3, 4])),
            ControlFlowContent::Node(5),
        ]
    );
    assert_eq!(ControlFlow { content: current }.node_count(), 6);
}

#[test]
fn node_count_is_the_sum_over_items() {
    let whole = sample();
    let total: usize = whole.content.iter().map(|item| item.node_count()).sum();
    assert_eq!(whole.node_count(), total);
    let mut first = sample();
    let rest = first.content.split_off(1);
    let second = ControlFlow { content: rest };
    assert_eq!(first.node_count() + second.node_count(), sample().node_count());
}
