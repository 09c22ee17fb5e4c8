use genet_livery::canvas::{canvas_background_source, is_body_name, is_html_name, CanvasNode};
use genet_livery::document::DocumentTree;

fn node(element: bool) -> CanvasNode {
    CanvasNode {
        element,
        html: false,
        body: false,
        styled: element,
        display_none: false,
        visible_box: element,
        has_background: false,
        contained: false,
    }
}

// 0 document, 1 comment, 2 html, 3 head, 4 body.
fn page() -> (DocumentTree, Vec<CanvasNode>) {
    let tree = DocumentTree::from_parents(vec![None, Some(0), Some(0), Some(2), Some(2)]).unwrap();
    let mut html = node(true);
    html.html = true;
    let mut body = node(true);
    body.body = true;
    body.has_background = true;
    (tree, vec![node(false), node(false), html, node(true), body])
}

#[test]
fn the_root_background_wins_when_it_has_one() {
    let (tree, mut nodes) = page();
    nodes[2].has_background = true;
    assert_eq!(canvas_background_source(&tree, &nodes), Some(2));
    nodes[2].display_none = true;
    assert_eq!(canvas_background_source(&tree, &nodes), None);
}

#[test]
fn a_transparent_html_root_takes_the_body_background() {
    let (tree, mut nodes) = page();
    assert_eq!(canvas_background_source(&tree, &nodes), Some(4));
    nodes[4].contained = true;
    assert_eq!(canvas_background_source(&tree, &nodes), None);
    nodes[4].contained = false;
    nodes[2].contained = true;
    assert_eq!(canvas_background_source(&tree, &nodes), None);
    nodes[2].contained = false;
    nodes[4].visible_box = false;
    assert_eq!(canvas_background_source(&tree, &nodes), None);
    nodes[4].visible_box = true;
    nodes[4].has_background = false;
    assert_eq!(canvas_background_source(&tree, &nodes), None);
}

#[test]
fn only_an_html_root_hands_over_and_only_to_a_body() {
    let (tree, mut nodes) = page();
    nodes[2].html = false;
    assert_eq!(canvas_background_source(&tree, &nodes), None);
    let (tree2, mut nodes2) = page();
    nodes2[4].body = false;
    assert_eq!(canvas_background_source(&tree2, &nodes2), None);
    nodes[1] = node(true);
    nodes[2].html = true;
    assert_eq!(canvas_background_source(&tree, &nodes), None);
}

#[test]
fn root_and_body_names_ignore_ascii_case() {
    assert!(is_html_name("HTML"));
    assert!(is_html_name("html"));
    assert!(!is_html_name("htm"));
    assert!(is_body_name("Body"));
    assert!(!is_body_name("bodies"));
}
