use genet_livery::document::{
    click_outcome, find_id, links_for_selection, focus_chain, focusable_ancestor, formatting_damage_root,
    insert_damage_root, is_focusable, link_ancestor, link_targets_in_dom_order, link_fragment, record_dom_layout_damage,
    nodes_in_subtree, record_full_layout_damage, text_sources_in_dom_order, BlockAlgorithmCounts, ClickOutcome, DocumentTree, DomMutation,
    LayoutDamageKind, LayoutError,
};

/// 0 document, 1 html, 2 body, 3 div#flex, 4 div, 5 text, 6 div.
fn tree() -> DocumentTree {
    DocumentTree::from_parents(vec![None, Some(0), Some(1), Some(2), Some(3), Some(4), Some(2)])
        .expect("parents precede children")
}

fn formatting() -> Vec<bool> {
    vec![true, false, false, true, false, false, false]
}

#[test]
fn parent_links_must_precede_their_children() {
    assert!(DocumentTree::from_parents(vec![None, Some(0), Some(2)]).is_none());
    assert!(DocumentTree::from_parents(vec![Some(0)]).is_none());
    let tree = tree();
    assert_eq!(tree.node_count(), 7);
    assert_eq!(tree.parent(5), Some(4));
    assert_eq!(tree.parent(0), None);
}

#[test]
fn ancestry_walks_the_parent_chain() {
    let tree = tree();
    assert!(tree.is_dom_ancestor(0, 5));
    assert!(tree.is_dom_ancestor(5, 5));
    assert!(tree.is_dom_ancestor(2, 6));
    assert!(!tree.is_dom_ancestor(3, 6));
    assert!(!tree.is_dom_ancestor(5, 4));
}

#[test]
fn damage_names_the_nearest_formatting_root() {
    let tree = tree();
    let flags = formatting();
    assert_eq!(formatting_damage_root(&tree, Some(&flags), 4), 3);
    assert_eq!(formatting_damage_root(&tree, Some(&flags), 6), 0);
    assert_eq!(formatting_damage_root(&tree, None, 4), 0);
}

#[test]
fn a_covering_root_replaces_the_roots_below_it() {
    let tree = tree();
    let mut roots = vec![3, 6];
    insert_damage_root(&tree, &mut roots, 4);
    assert_eq!(roots, vec![3, 6]);
    insert_damage_root(&tree, &mut roots, 2);
    assert_eq!(roots, vec![2]);
}

#[test]
fn dom_mutations_record_one_root_per_damaged_subtree() {
    let tree = tree();
    let flags = formatting();
    let damage = record_dom_layout_damage(
        &tree,
        Some(&flags),
        &vec![
            DomMutation::Inserted { parent: 4 },
            DomMutation::CharacterDataChanged { node: 5 },
        ],
    );
    assert_eq!(damage.kind, LayoutDamageKind::Dom);
    assert!(!damage.full_document);
    assert_eq!(damage.roots, vec![3]);

    let damage = record_dom_layout_damage(
        &tree,
        Some(&flags),
        &vec![
            DomMutation::Inserted { parent: 4 },
            DomMutation::AttributeChanged { node: 6 },
        ],
    );
    assert_eq!(damage.roots, vec![0]);

    let mut flags = formatting();
    flags[6] = true;
    let damage = record_dom_layout_damage(
        &tree,
        Some(&flags),
        &vec![
            DomMutation::Inserted { parent: 4 },
            DomMutation::Moved { from_parent: 6, to_parent: 4 },
        ],
    );
    assert_eq!(damage.roots, vec![3, 6]);

    let damage = record_dom_layout_damage(&tree, None, &vec![DomMutation::Removed { former_parent: 4 }]);
    assert_eq!(damage.roots, vec![0]);
}

#[test]
fn full_damage_names_the_document() {
    let damage = record_full_layout_damage(LayoutDamageKind::Viewport);
    assert_eq!(damage.kind, LayoutDamageKind::Viewport);
    assert_eq!(damage.roots, vec![0]);
    assert!(damage.full_document);
}

#[test]
fn focusable_elements() {
    assert!(is_focusable(true, "A", true, false));
    assert!(!is_focusable(true, "a", false, false));
    assert!(is_focusable(true, "TEXTAREA", false, false));
    assert!(is_focusable(true, "div", false, true));
    assert!(!is_focusable(true, "div", true, false));
    assert!(!is_focusable(false, "button", false, false));
}

#[test]
fn link_fragments() {
    assert_eq!(link_fragment("#top"), Some("top"));
    assert_eq!(link_fragment("#"), None);
    assert_eq!(link_fragment("top"), None);
}

#[test]
fn click_outcomes() {
    assert_eq!(click_outcome(false, true, Some("#top".to_string()), true), ClickOutcome::Ignored);
    assert_eq!(click_outcome(true, false, Some("#top".to_string()), true), ClickOutcome::Scrolled);
    assert_eq!(
        click_outcome(true, false, Some("#top".to_string()), false),
        ClickOutcome::Navigate("#top".to_string())
    );
    assert_eq!(
        click_outcome(true, true, Some("/page".to_string()), true),
        ClickOutcome::Navigate("/page".to_string())
    );
    assert_eq!(click_outcome(true, true, None, false), ClickOutcome::Focused);
    assert_eq!(click_outcome(true, false, None, false), ClickOutcome::Ignored);
}

#[test]
fn ancestors_for_focus_and_links() {
    let tree = tree();
    let focusable = vec![false, false, false, false, true, false, false];
    assert_eq!(focusable_ancestor(&tree, &focusable, 5), Some(4));
    assert_eq!(focusable_ancestor(&tree, &focusable, 6), None);
    let links = vec![None, None, Some("/home".to_string()), None, None, None, None];
    assert_eq!(link_ancestor(&tree, &links, 5), Some("/home".to_string()));
    assert_eq!(link_ancestor(&tree, &links, 1), None);
    let is_element = vec![false, true, true, true, true, false, true];
    assert_eq!(focus_chain(&tree, &is_element, 5), vec![5, 4, 3, 2, 1]);
    assert_eq!(focus_chain(&tree, &is_element, 0), vec![0]);
}

#[test]
fn ids_are_found_in_document_order() {
    let ids = vec![
        None,
        None,
        Some("main".to_string()),
        Some("flex".to_string()),
        Some("flex".to_string()),
    ];
    assert_eq!(find_id(&ids, "flex"), Some(3));
    assert_eq!(find_id(&ids, "missing"), None);
}

#[test]
fn css_facing_taffy_runs_exclude_sizing_runs() {
    let counts = BlockAlgorithmCounts { buckram: 1, taffy: 5, backend_sizing: 2 };
    assert_eq!(counts.css_facing_taffy(), 3);
    let counts = BlockAlgorithmCounts { buckram: 0, taffy: 1, backend_sizing: 4 };
    assert_eq!(counts.css_facing_taffy(), 0);
}

#[test]
fn layout_errors_keep_their_message() {
    let error = LayoutError::retained_state("retained tree is stale".to_string());
    assert_eq!(error.message(), "retained tree is stale");
}

#[test]
fn subtrees_and_text_sources_in_document_order() {
    let tree = tree();
    assert_eq!(nodes_in_subtree(&tree, 3), vec![3, 4, 5]);
    assert_eq!(nodes_in_subtree(&tree, 2), vec![2, 3, 4, 5, 6]);
    assert_eq!(nodes_in_subtree(&tree, 6), vec![6]);
    assert_eq!(nodes_in_subtree(&tree, 9), Vec::<usize>::new());
    let is_text = vec![false, false, false, false, false, true, false];
    assert_eq!(text_sources_in_dom_order(&tree, &is_text), vec![5]);
    assert_eq!(text_sources_in_dom_order(&tree, &vec![true, false]), vec![0]);
}

#[test]
fn selections_list_each_link_once_in_order() {
    let tree = tree();
    let links = vec![None, None, Some("/home".to_string()), None, Some("/a".to_string()), None, None];
    assert_eq!(
        links_for_selection(&tree, &links, &vec![5, 5, 6, 1]),
        vec!["/a".to_string(), "/home".to_string()]
    );
    assert_eq!(links_for_selection(&tree, &links, &vec![1, 0]), Vec::<String>::new());
}

#[test]
fn link_targets_are_listed_in_document_order() {
    let tree = tree();
    let hrefs = vec![
        None,
        None,
        None,
        Some("#a".to_string()),
        Some("b.html".to_string()),
        None,
        Some("c.html".to_string()),
    ];
    let eligible = vec![true, true, true, true, false, true, true];
    assert_eq!(link_targets_in_dom_order(&tree, &hrefs, &eligible), vec![3, 6]);
    assert_eq!(link_targets_in_dom_order(&tree, &hrefs, &vec![]), Vec::<usize>::new());
}
