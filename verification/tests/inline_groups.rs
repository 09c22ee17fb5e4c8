use genet_livery::document::DocumentTree;
use genet_livery::inline_groups::{
    inline_decoration_order, inline_nodes, normal_paint_steps, FlowNode, PaintStep,
};

fn element(inline_level: bool, plain_inline: bool, out_of_flow: bool, display_none: bool) -> FlowNode {
    FlowNode::Element { styled: true, inline_level, plain_inline, out_of_flow, display_none }
}

fn block() -> FlowNode {
    element(false, false, false, false)
}

fn span() -> FlowNode {
    element(true, true, false, false)
}

fn body_tree() -> (DocumentTree, Vec<FlowNode>) {
    let parents = vec![
        None,
        Some(0),
        Some(1),
        Some(1),
        Some(1),
        Some(1),
        Some(1),
        Some(1),
        Some(1),
        Some(1),
        Some(1),
        Some(10),
    ];
    let nodes = vec![
        FlowNode::Other,
        block(),
        FlowNode::Text,
        span(),
        block(),
        FlowNode::Text,
        span(),
        element(true, false, false, false),
        block(),
        FlowNode::Text,
        span(),
        block(),
    ];
    (DocumentTree::from_parents(parents).unwrap(), nodes)
}

#[test]
fn a_block_inside_an_inline_makes_it_block_level() {
    let (tree, nodes) = body_tree();
    assert_eq!(
        inline_nodes(&tree, &nodes),
        vec![false, false, true, true, false, true, true, true, false, true, false, false]
    );
}

#[test]
fn hidden_children_and_comments_inside_an_inline() {
    let tree = DocumentTree::from_parents(vec![None, Some(0), Some(1), Some(1)]).unwrap();
    let mut nodes = vec![FlowNode::Other, span(), FlowNode::Text, element(false, false, false, true)];
    assert_eq!(inline_nodes(&tree, &nodes), vec![false, true, true, false]);
    nodes[3] = FlowNode::Other;
    assert_eq!(inline_nodes(&tree, &nodes), vec![false, false, true, false]);
    nodes[3] = element(true, false, true, false);
    assert_eq!(inline_nodes(&tree, &nodes), vec![false, false, true, false]);
}

#[test]
fn inline_runs_are_grouped_between_blocks() {
    let (tree, nodes) = body_tree();
    let mut stacking_roots = vec![false; 12];
    stacking_roots[6] = true;
    let mut covered = vec![false; 12];
    covered[8] = true;
    assert_eq!(
        normal_paint_steps(&tree, &nodes, &stacking_roots, &covered, 1),
        vec![
            PaintStep::InlineGroup(vec![2, 3]),
            PaintStep::Node(4),
            PaintStep::InlineGroup(vec![5, 7]),
            PaintStep::InlineGroup(vec![9]),
            PaintStep::Node(10),
        ]
    );
    assert_eq!(
        normal_paint_steps(&tree, &nodes, &vec![], &vec![], 10),
        vec![PaintStep::Node(11)]
    );
    assert_eq!(
        normal_paint_steps(&tree, &nodes, &vec![], &vec![], 0),
        vec![PaintStep::Node(1)]
    );
    assert!(normal_paint_steps(&tree, &nodes, &vec![], &vec![], 11).is_empty());
}

#[test]
fn decorations_descend_through_inline_elements_on_the_first_line() {
    let tree = DocumentTree::from_parents(vec![
        None,
        Some(0),
        Some(1),
        Some(2),
        Some(2),
        Some(4),
        Some(2),
        Some(2),
        Some(7),
    ])
    .unwrap();
    let nodes = vec![
        FlowNode::Other,
        block(),
        span(),
        FlowNode::Text,
        span(),
        element(true, false, false, false),
        span(),
        span(),
        span(),
    ];
    let mut stacking_roots = vec![false; 9];
    stacking_roots[6] = true;
    let mut other_line = vec![false; 9];
    other_line[7] = true;
    assert_eq!(
        inline_decoration_order(&tree, &nodes, &stacking_roots, &other_line, 2),
        vec![2, 4, 5]
    );
    assert_eq!(inline_decoration_order(&tree, &nodes, &stacking_roots, &other_line, 5), vec![5]);
    assert!(inline_decoration_order(&tree, &nodes, &stacking_roots, &other_line, 6).is_empty());
    assert!(inline_decoration_order(&tree, &nodes, &stacking_roots, &other_line, 3).is_empty());
}
