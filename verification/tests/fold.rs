use std::str::FromStr;

use come::control_flow::element::ControlFlowElement;
use come::control_flow::selector::CFSelector;
use come::fold::{fold, fold_if_else_once, fold_loop, FoldFacts, Scc};

fn trivial(block: usize) -> Scc {
    Scc {
        blocks: vec![block],
        trivial: true,
        sub_sccs: None,
    }
}

fn table(n: usize, entries: &[(usize, usize)]) -> Vec<Vec<bool>> {
    let mut result = vec![vec![false; n]; n];
    for &(a, b) in entries {
        result[a][b] = true;
    }
    result
}

/// The function
/// `0 -> 1 -> 2 -> 3`, `3 ? 4 : 1`, `4 ? 1 : 5`, `5` returns.
fn fold_all_facts() -> (Scc, FoldFacts) {
    let n = 6;
    let facts = FoldFacts {
        predecessors: vec![vec![], vec![0, 3, 4], vec![1], vec![2], vec![3], vec![4]],
        ends_with_branch: vec![false, false, false, true, true, false],
        branch_direction: table(n, &[(3, 4), (4, 1)]),
        dominated_by: {
            let mut dominated = Vec::new();
            for a in 0..n {
                let mut row = vec![false; n];
                for b in 0..=a {
                    row[b] = b == 0 || (b >= 1 && a >= 1 && b <= a);
                }
                dominated.push(row);
            }
            dominated
        },
        same_branch_side: vec![vec![vec![false; n]; n]; n],
    };
    let loop_scc = Scc {
        blocks: vec![1, 2, 3, 4],
        trivial: false,
        sub_sccs: Some(vec![trivial(1), trivial(2), trivial(3), trivial(4)]),
    };
    let root = Scc {
        blocks: (0..n).collect(),
        trivial: false,
        sub_sccs: Some(vec![trivial(0), loop_scc, trivial(5)]),
    };
    (root, facts)
}

#[test]
fn test_fold_all() {
    let (root, facts) = fold_all_facts();
    let result = fold(&root, &facts);
    println!("{:?}", result);
}

#[test]
fn fold_all_makes_a_loop_with_an_if() {
    let (root, facts) = fold_all_facts();
    let result = fold(&root, &facts);
    let content = ControlFlowElement::Block { content: result };
    assert_eq!(
        content.index(&CFSelector::from_str("0").unwrap()),
        &ControlFlowElement::BasicBlock { id: 0 }
    );
    assert!(matches!(
        content.index(&CFSelector::from_str("1").unwrap()),
        ControlFlowElement::Loop { .. }
    ));
    assert_eq!(
        content.find_node(3).unwrap(),
        CFSelector::from_str("1/2/if_condition").unwrap()
    );
    assert_eq!(
        content.find_node(4).unwrap(),
        CFSelector::from_str("1/2/success->0").unwrap()
    );
    assert_eq!(
        content.find_node(5).unwrap(),
        CFSelector::from_str("2").unwrap()
    );
}

#[test]
fn fold_loop_wraps_component() {
    let (root, _) = fold_all_facts();
    let mut current_result: Vec<ControlFlowElement> =
        (0..6).map(ControlFlowElement::new_node).collect();
    fold_loop(&root, &mut current_result);
    assert_eq!(current_result.len(), 3);
    assert_eq!(
        current_result[1],
        ControlFlowElement::Loop {
            content: (1..5).map(ControlFlowElement::new_node).collect()
        }
    );
}

/// `0 -> 1`, `1 ? 2 : 3`, `2 -> 4`, `3 -> 4`, `4` returns.
fn diamond_facts() -> FoldFacts {
    let n = 5;
    FoldFacts {
        predecessors: vec![vec![], vec![0], vec![1], vec![1], vec![2, 3]],
        ends_with_branch: vec![false, true, false, false, false],
        branch_direction: table(n, &[(1, 2)]),
        dominated_by: table(
            n,
            &[(0, 0), (1, 0), (1, 1), (2, 0), (2, 1), (2, 2), (3, 0), (3, 1), (3, 3), (4, 0), (4, 1), (4, 4)],
        ),
        same_branch_side: vec![vec![vec![false; n]; n]; n],
    }
}

#[test]
fn fold_if_else_once_folds_both_branches() {
    let facts = diamond_facts();
    let mut content = ControlFlowElement::new_block((0..5).map(ControlFlowElement::new_node).collect());
    assert!(fold_if_else_once(&mut content, &facts));
    assert!(matches!(
        content.index(&CFSelector::from_str("1").unwrap()),
        ControlFlowElement::If { .. }
    ));
    assert_eq!(
        content.index(&CFSelector::from_str("1/success->0").unwrap()),
        &ControlFlowElement::BasicBlock { id: 2 }
    );
    assert_eq!(content.get(&CFSelector::from_str("1/failure->0").unwrap()), None);
    assert!(fold_if_else_once(&mut content, &facts));
    assert_eq!(
        content.index(&CFSelector::from_str("1/failure->0").unwrap()),
        &ControlFlowElement::BasicBlock { id: 3 }
    );
    assert_eq!(
        content.index(&CFSelector::from_str("2").unwrap()),
        &ControlFlowElement::BasicBlock { id: 4 }
    );
    assert!(!fold_if_else_once(&mut content, &facts));
}

#[test]
fn fold_if_else_once_moves_dominated_siblings() {
    let n = 5;
    let mut facts = diamond_facts();
    facts.predecessors = vec![vec![], vec![0], vec![1], vec![2], vec![1, 3]];
    facts.dominated_by = table(
        n,
        &[(0, 0), (1, 0), (1, 1), (2, 0), (2, 1), (2, 2), (3, 0), (3, 1), (3, 2), (3, 3), (4, 0), (4, 1), (4, 4)],
    );
    facts.same_branch_side[1][2][3] = true;
    let mut content = ControlFlowElement::new_block((0..5).map(ControlFlowElement::new_node).collect());
    assert!(fold_if_else_once(&mut content, &facts));
    assert_eq!(
        content.index(&CFSelector::from_str("1/success->1").unwrap()),
        &ControlFlowElement::BasicBlock { id: 3 }
    );
    assert_eq!(
        content.index(&CFSelector::from_str("2").unwrap()),
        &ControlFlowElement::BasicBlock { id: 4 }
    );
}

#[test]
fn scc_contains() {
    let scc = Scc {
        blocks: vec![3, 5],
        trivial: false,
        sub_sccs: None,
    };
    assert!(scc.contains(5));
    assert!(!scc.contains(4));
}

/// The analysis of a function with `n` blocks: its edges, each with whether it is taken when
/// the branch that ends its source succeeds, the dominators of each block, and for each block
/// that ends with a branch, the blocks on its success side and on its failure side.
fn facts_of(
    n: usize,
    edges: &[(usize, usize, bool)],
    dominators: &[&[usize]],
    sides: &[(usize, &[usize], &[usize])],
) -> FoldFacts {
    let mut predecessors = vec![Vec::new(); n];
    let mut ends_with_branch = vec![false; n];
    let mut branch_direction = vec![vec![false; n]; n];
    for &(from, to, on_success) in edges {
        predecessors[to].push(from);
        branch_direction[from][to] = on_success;
    }
    for &(c, _, _) in sides {
        ends_with_branch[c] = true;
    }
    let mut dominated_by = vec![vec![false; n]; n];
    for a in 0..n {
        for &b in dominators[a] {
            dominated_by[a][b] = true;
        }
    }
    let mut same_branch_side = vec![vec![vec![false; n]; n]; n];
    for &(c, success, failure) in sides {
        for side in [success, failure] {
            for &a in side {
                for &b in side {
                    same_branch_side[c][a][b] = true;
                }
            }
        }
    }
    FoldFacts { predecessors, ends_with_branch, branch_direction, dominated_by, same_branch_side }
}

fn nodes(n: usize) -> ControlFlowElement {
    ControlFlowElement::new_block((0..n).map(ControlFlowElement::new_node).collect())
}

fn at(content: &ControlFlowElement, selector: &str) -> ControlFlowElement {
    content.index(&CFSelector::from_str(selector).unwrap()).clone()
}

#[test]
fn test_fold_if_else_once() {
    // 0 -> 1, 1 ? 2 : 3, 2 -> 4, 3 -> 4, 4 returns
    let facts = facts_of(
        5,
        &[(0, 1, false), (1, 2, true), (1, 3, false), (2, 4, false), (3, 4, false)],
        &[&[0], &[0, 1], &[0, 1, 2], &[0, 1, 3], &[0, 1, 4]],
        &[(1, &[2], &[3])],
    );
    let mut content = nodes(5);
    fold_if_else_once(&mut content, &facts);
    assert!(matches!(at(&content, "1"), ControlFlowElement::If { .. }));
    assert!(matches!(at(&content, "1/success/0"), ControlFlowElement::BasicBlock { id: 2 }));
    assert_eq!(content.get(&CFSelector::from_str("1/failure/0").unwrap()), None);
    fold_if_else_once(&mut content, &facts);
    assert_eq!(at(&content, "1/failure/0"), ControlFlowElement::BasicBlock { id: 3 });
    assert_eq!(at(&content, "2"), ControlFlowElement::BasicBlock { id: 4 });

    // 0 -> 1, 1 ? 2 : 4, 2 -> 3, 4 -> 5, 3 -> 6, 5 -> 6, 6 -> 7, 7 returns
    let facts = facts_of(
        8,
        &[(0, 1, false), (1, 2, true), (1, 4, false), (2, 3, false), (4, 5, false), (3, 6, false), (5, 6, false), (6, 7, false)],
        &[&[0], &[0, 1], &[0, 1, 2], &[0, 1, 2, 3], &[0, 1, 4], &[0, 1, 4, 5], &[0, 1, 6], &[0, 1, 6, 7]],
        &[(1, &[2, 3], &[4, 5])],
    );
    let mut content = nodes(8);
    fold_if_else_once(&mut content, &facts);
    assert!(matches!(at(&content, "1"), ControlFlowElement::If { .. }));
    assert!(matches!(at(&content, "1/success/0"), ControlFlowElement::BasicBlock { id: 2 }));
    assert!(matches!(at(&content, "1/success/1"), ControlFlowElement::BasicBlock { id: 3 }));
    assert_eq!(content.get(&CFSelector::from_str("1/failure/0").unwrap()), None);
    fold_if_else_once(&mut content, &facts);
    assert!(matches!(at(&content, "1/failure/0"), ControlFlowElement::BasicBlock { id: 4 }));
    assert!(matches!(at(&content, "1/failure/1"), ControlFlowElement::BasicBlock { id: 5 }));

    // 0 ? 1 : 5, 1 -> 2, 2 -> 3, 3 ? 4 : 7, 4 -> 2, 5 -> 6, 6 -> 7, 7 returns
    let facts = facts_of(
        8,
        &[(0, 1, true), (0, 5, false), (1, 2, false), (2, 3, false), (3, 4, true), (3, 7, false), (4, 2, false), (5, 6, false), (6, 7, false)],
        &[&[0], &[0, 1], &[0, 1, 2], &[0, 1, 2, 3], &[0, 1, 2, 3, 4], &[0, 5], &[0, 5, 6], &[0, 7]],
        &[(0, &[1, 2, 3, 4], &[5, 6]), (3, &[4], &[7])],
    );
    let mut content = ControlFlowElement::new_block(vec![
        ControlFlowElement::new_node(0),
        ControlFlowElement::new_node(1),
        ControlFlowElement::Loop {
            content: vec![
                ControlFlowElement::new_node(2),
                ControlFlowElement::new_node(4),
                ControlFlowElement::new_node(3),
            ],
        },
        ControlFlowElement::new_node(5),
        ControlFlowElement::new_node(6),
        ControlFlowElement::new_node(7),
    ]);
    fold_if_else_once(&mut content, &facts);
    fold_if_else_once(&mut content, &facts);
    fold_if_else_once(&mut content, &facts);
    assert!(matches!(at(&content, "0"), ControlFlowElement::If { .. }));
    assert!(matches!(at(&content, "0/if_condition"), ControlFlowElement::BasicBlock { id: 0 }));
    assert!(matches!(at(&content, "0/success/0"), ControlFlowElement::BasicBlock { id: 1 }));
    assert!(matches!(at(&content, "0/success/1"), ControlFlowElement::Loop { .. }));
    assert!(matches!(at(&content, "0/success/1/0"), ControlFlowElement::BasicBlock { id: 2 }));
    assert!(matches!(at(&content, "0/success/1/1"), ControlFlowElement::If { .. }));
    assert!(matches!(at(&content, "0/success/1/1/if_condition"), ControlFlowElement::BasicBlock { id: 3 }));
    assert!(matches!(at(&content, "0/success/1/1/success/0"), ControlFlowElement::BasicBlock { id: 4 }));
}

fn component(blocks: Vec<usize>, sub_sccs: Vec<Scc>) -> Scc {
    Scc { blocks, trivial: false, sub_sccs: Some(sub_sccs) }
}

/// The components of the function of `bb0` to `bb16`, its blocks numbered by their names:
/// `bb2` to `bb7` form a loop around the loop of `bb3` to `bb6`, and `bb12` to `bb14` form a
/// loop.
fn nested_loops() -> Scc {
    let inner = component(vec![3, 4, 5, 6], (3..=6).map(trivial).collect());
    let outer = component(vec![2, 3, 4, 5, 6, 7], vec![trivial(2), inner, trivial(7)]);
    let second = component(vec![12, 13, 14], (12..=14).map(trivial).collect());
    let mut top = vec![trivial(0), trivial(1), outer];
    top.extend((8..=11).map(trivial));
    top.push(second);
    top.push(trivial(15));
    top.push(trivial(16));
    component((0..17).collect(), top)
}

#[test]
fn test_loop() {
    let scc = nested_loops();
    let mut current_result: Vec<ControlFlowElement> = (0..17).map(ControlFlowElement::new_node).collect();
    fold_loop(&scc, &mut current_result);
    println!("{:?}", current_result);
}

#[test]
fn loops_nest_by_component() {
    let scc = nested_loops();
    let mut current_result: Vec<ControlFlowElement> = (0..17).map(ControlFlowElement::new_node).collect();
    fold_loop(&scc, &mut current_result);
    let content = ControlFlowElement::new_block(current_result);
    assert_eq!(content.find_node(2).unwrap(), CFSelector::from_str("2/0").unwrap());
    assert_eq!(content.find_node(4).unwrap(), CFSelector::from_str("2/1/1").unwrap());
    assert_eq!(content.find_node(7).unwrap(), CFSelector::from_str("2/2").unwrap());
    assert_eq!(content.find_node(8).unwrap(), CFSelector::from_str("3").unwrap());
    assert_eq!(content.find_node(13).unwrap(), CFSelector::from_str("7/1").unwrap());
    assert_eq!(content.find_node(16).unwrap(), CFSelector::from_str("9").unwrap());
}
