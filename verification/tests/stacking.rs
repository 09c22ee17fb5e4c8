use genet_livery::document::DocumentTree;
use genet_livery::stacking::{
    stacking_items, stacking_layers, stacking_level, stacking_order, stacking_paint_order,
    StackingNode,
};

#[test]
fn levels_come_from_z_index_or_a_context() {
    assert_eq!(stacking_level(true, Some(-3), false), Some(-3));
    assert_eq!(stacking_level(true, None, true), Some(0));
    assert_eq!(stacking_level(false, Some(5), false), None);
    assert_eq!(stacking_level(false, Some(5), true), Some(0));
    assert_eq!(stacking_level(true, None, false), None);
}

#[test]
fn items_paint_by_level_then_tree_order() {
    assert_eq!(stacking_order(&vec![2, -1, 0, -1, 2, 0]), vec![1, 3, 2, 5, 0, 4]);
    assert_eq!(stacking_order(&vec![]), Vec::<usize>::new());
    assert_eq!(stacking_order(&vec![i32::MAX, i32::MIN]), vec![1, 0]);
}

#[test]
fn negative_levels_paint_below_the_normal_flow() {
    let (below, above) = stacking_layers(&vec![2, -1, 0, -5, 2]);
    assert_eq!(below, vec![3, 1]);
    assert_eq!(above, vec![2, 0, 4]);
    let (below, above) = stacking_layers(&vec![1, 1]);
    assert!(below.is_empty());
    assert_eq!(above, vec![0, 1]);
}

fn stacking_tree() -> (DocumentTree, Vec<StackingNode>) {
    let tree = DocumentTree::from_parents(vec![
        None,
        Some(0),
        Some(1),
        Some(2),
        Some(1),
        Some(4),
        Some(1),
        Some(1),
        Some(7),
        Some(1),
    ])
    .unwrap();
    let nodes = vec![
        StackingNode::LookedThrough,
        StackingNode::LookedThrough,
        StackingNode::Context(2),
        StackingNode::Context(-1),
        StackingNode::Skipped,
        StackingNode::Context(1),
        StackingNode::Context(-1),
        StackingNode::LookedThrough,
        StackingNode::Context(0),
        StackingNode::Context(2),
    ];
    (tree, nodes)
}

#[test]
fn items_stop_at_nested_contexts_and_skipped_subtrees() {
    let (tree, nodes) = stacking_tree();
    assert_eq!(stacking_items(&tree, &nodes, 0), vec![2, 6, 8, 9]);
    assert_eq!(stacking_items(&tree, &nodes, 2), vec![3]);
    assert_eq!(stacking_items(&tree, &nodes, 4), vec![5]);
    assert_eq!(stacking_items(&tree, &nodes, 8), Vec::<usize>::new());
}

#[test]
fn items_paint_around_the_normal_flow() {
    let (tree, nodes) = stacking_tree();
    let (below, above) = stacking_paint_order(&tree, &nodes, 0);
    assert_eq!(below, vec![6]);
    assert_eq!(above, vec![8, 2, 9]);
    let (below, above) = stacking_paint_order(&tree, &nodes, 2);
    assert_eq!(below, vec![3]);
    assert!(above.is_empty());
}
