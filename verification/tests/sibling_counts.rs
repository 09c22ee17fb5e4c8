use genet_livery::document::DocumentTree;
use genet_livery::sibling_counts::{child_tree_counts, tree_counts_of, TreeCounts};

fn counted(index: usize, count: usize) -> TreeCounts {
    TreeCounts::Counted { index, count }
}

// 0 document, 1 html, 2 text, 3 div, 4 comment, 5 p, 6 span in the div.
fn page() -> (DocumentTree, Vec<bool>) {
    let tree = DocumentTree::from_parents(vec![None, Some(0), Some(1), Some(1), Some(1), Some(1), Some(3)])
        .unwrap();
    (tree, vec![false, true, false, true, false, true, true])
}

#[test]
fn element_children_count_among_themselves() {
    let (tree, is_element) = page();
    assert_eq!(
        child_tree_counts(&tree, &is_element, 1),
        vec![
            (2, TreeCounts::Deferred),
            (3, counted(1, 2)),
            (4, TreeCounts::Deferred),
            (5, counted(2, 2)),
        ]
    );
    assert_eq!(child_tree_counts(&tree, &is_element, 6), vec![]);
}

#[test]
fn one_node_looks_its_counts_up_from_its_parent() {
    let (tree, is_element) = page();
    assert_eq!(tree_counts_of(&tree, &is_element, 5), counted(2, 2));
    assert_eq!(tree_counts_of(&tree, &is_element, 6), counted(1, 1));
    assert_eq!(tree_counts_of(&tree, &is_element, 1), counted(1, 1));
    assert_eq!(tree_counts_of(&tree, &is_element, 4), TreeCounts::Deferred);
    assert_eq!(tree_counts_of(&tree, &is_element, 0), TreeCounts::Deferred);
    assert_eq!(tree_counts_of(&tree, &is_element, 9), TreeCounts::Deferred);
}
