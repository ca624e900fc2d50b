use come::flow::{ControlFlow, ControlFlowContent};
use come::flow_nest::{nest_branch, NestFacts};

#[test]
fn items_with_nothing_to_nest_stay_in_place() {
    // 0 -> 1 -> 2 in a line, 1 -> 1 looping: no node has a single outside predecessor ending
    // with a branch.
    let facts = NestFacts {
        outside_predecessors: vec![vec![], vec![0], vec![1]],
        ends_with_branch: vec![false, true, false],
    };
    let mut current = vec![
        ControlFlowContent::Node(0),
        ControlFlowContent::Loop(Box::new(ControlFlow { content: vec![ControlFlowContent::Node(1)] })),
        ControlFlowContent::BrIf(0),
    ];
    nest_branch(&mut current, &facts);
    assert_eq!(
        current,
        vec![
            ControlFlowContent::Node(0),
            ControlFlowContent::Loop(Box::new(ControlFlow { content: vec![ControlFlowContent::Node(1)] })),
            ControlFlowContent::BrIf(0),
        ]
    );
}
