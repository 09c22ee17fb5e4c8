use genet_livery::cell_content::{
    cell_has_visible_content, hides_empty_cell, is_blank_text, is_replaced_content_name,
    CellContentNode,
};
use genet_livery::document::DocumentTree;

fn element(hidden: bool, replaced: bool, decorated: bool) -> CellContentNode {
    CellContentNode::Element { styled: true, hidden, replaced, decorated }
}

// 0 document, 1 td, 2 blank text, 3 span, 4 text inside the span.
fn cell_tree() -> DocumentTree {
    DocumentTree::from_parents(vec![None, Some(0), Some(1), Some(1), Some(3)]).unwrap()
}

#[test]
fn white_space_and_empty_wrappers_are_not_content() {
    let tree = cell_tree();
    let nodes = vec![
        CellContentNode::Container,
        element(false, false, true),
        CellContentNode::Text { blank: true },
        element(false, false, false),
        CellContentNode::Text { blank: true },
    ];
    assert!(!cell_has_visible_content(&tree, &nodes, 1));
    assert!(hides_empty_cell(true, true, &tree, &nodes, 1));
    assert!(!hides_empty_cell(false, true, &tree, &nodes, 1));
    assert!(!hides_empty_cell(true, false, &tree, &nodes, 1));
}

#[test]
fn nested_text_is_content_unless_an_ancestor_is_hidden() {
    let tree = cell_tree();
    let mut nodes = vec![
        CellContentNode::Container,
        element(false, false, false),
        CellContentNode::Text { blank: true },
        element(false, false, false),
        CellContentNode::Text { blank: false },
    ];
    assert!(cell_has_visible_content(&tree, &nodes, 1));
    assert!(!hides_empty_cell(true, true, &tree, &nodes, 1));
    nodes[3] = element(true, false, false);
    assert!(!cell_has_visible_content(&tree, &nodes, 1));
    nodes[3] = CellContentNode::Element { styled: false, hidden: false, replaced: false, decorated: false };
    assert!(!cell_has_visible_content(&tree, &nodes, 1));
}

#[test]
fn decoration_counts_below_the_cell_only() {
    let tree = cell_tree();
    let mut nodes = vec![
        CellContentNode::Container,
        element(false, false, true),
        CellContentNode::Text { blank: true },
        element(false, false, true),
        CellContentNode::Text { blank: true },
    ];
    assert!(cell_has_visible_content(&tree, &nodes, 1));
    nodes[3] = element(false, true, false);
    assert!(cell_has_visible_content(&tree, &nodes, 1));
    // A replaced cell is content in itself; a hidden cell never is.
    nodes[3] = element(false, false, false);
    nodes[1] = element(false, true, false);
    assert!(cell_has_visible_content(&tree, &nodes, 1));
    nodes[1] = element(true, true, false);
    assert!(!cell_has_visible_content(&tree, &nodes, 1));
}

#[test]
fn blank_text_and_replaced_names() {
    assert!(is_blank_text(""));
    assert!(is_blank_text(" \t\n\u{a0}\u{3000}"));
    assert!(!is_blank_text("  x "));
    assert!(is_replaced_content_name("img"));
    assert!(is_replaced_content_name("iframe"));
    assert!(!is_replaced_content_name("IMG"));
    assert!(!is_replaced_content_name("span"));
}
