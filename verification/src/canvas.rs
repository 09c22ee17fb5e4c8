//! The canvas background source (CSS Backgrounds 3, section 2.11).
//!
//! The canvas takes the background of the document element, when the
//! document has exactly one element child and it is displayed. An `html`
//! root with a transparent, image-free background hands the canvas the
//! background of its first `body` child instead, unless either of them has
//! active containment, the body generates no visible box, or the body has
//! no background either. The element whose background the canvas took
//! paints none of its own.

use vstd::prelude::*;
use crate::document::DocumentTree;
use crate::document::child_list;
use crate::document::child_prefix;
use crate::text::eq_ascii_case_insensitive;
use crate::text::eq_ignore_ascii_case;

verus! {

/// What the canvas background selection reads of one DOM node.
#[derive(Clone, Copy, Debug, PartialEq, Eq, Structural)]
pub struct CanvasNode {
    pub element: bool,
    /// An element named `html` (ASCII case-insensitively).
    pub html: bool,
    /// An element named `body` (ASCII case-insensitively).
    pub body: bool,
    /// It has a computed style.
    pub styled: bool,
    pub display_none: bool,
    /// Not `display: none` or `contents`, and `visibility: visible`.
    pub visible_box: bool,
    /// A background image, or a background color that is not transparent.
    pub has_background: bool,
    /// Some `contain` value is active.
    pub contained: bool,
}

pub open spec fn canvas_node_at(nodes: Seq<CanvasNode>, n: int) -> CanvasNode {
    if 0 <= n < nodes.len() {
        nodes[n]
    } else {
        CanvasNode {
            element: false,
            html: false,
            body: false,
            styled: false,
            display_none: false,
            visible_box: false,
            has_background: false,
            contained: false,
        }
    }
}

pub open spec fn element_filter(nodes: Seq<CanvasNode>) -> spec_fn(usize) -> bool {
    |c: usize| canvas_node_at(nodes, c as int).element
}

pub open spec fn body_filter(nodes: Seq<CanvasNode>) -> spec_fn(usize) -> bool {
    |c: usize| canvas_node_at(nodes, c as int).element && canvas_node_at(nodes, c as int).body
}

/// The element whose background the canvas takes, if any; the document
/// node is node 0.
pub open spec fn canvas_source(tree: DocumentTree, nodes: Seq<CanvasNode>) -> Option<usize> {
    let roots = child_list(tree, 0).filter(element_filter(nodes));
    if roots.len() != 1 {
        None
    } else {
        let root = roots[0];
        let r = canvas_node_at(nodes, root as int);
        if !r.styled || r.display_none {
            None
        } else if r.has_background {
            Some(root)
        } else if !r.html {
            None
        } else {
            let bodies = child_list(tree, root).filter(body_filter(nodes));
            if bodies.len() == 0 {
                None
            } else {
                let body = bodies[0];
                let b = canvas_node_at(nodes, body as int);
                if !b.styled || r.contained || b.contained || !b.visible_box || !b.has_background {
                    None
                } else {
                    Some(body)
                }
            }
        }
    }
}

fn canvas_node(nodes: &Vec<CanvasNode>, n: usize) -> (node: CanvasNode)
    ensures
        node == canvas_node_at(nodes@, n as int),
{
    if n < nodes.len() {
        nodes[n]
    } else {
        CanvasNode {
            element: false,
            html: false,
            body: false,
            styled: false,
            display_none: false,
            visible_box: false,
            has_background: false,
            contained: false,
        }
    }
}

/// The element children of `parent` (only those named `body` when
/// `bodies_only`), in document order.
fn element_children(tree: &DocumentTree, nodes: &Vec<CanvasNode>, parent: usize, bodies_only: bool) -> (children: Vec<usize>)
    ensures
        children@ == child_list(*tree, parent).filter(
            if bodies_only {
                body_filter(nodes@)
            } else {
                element_filter(nodes@)
            },
        ),
{
    let ghost keep = if bodies_only {
        body_filter(nodes@)
    } else {
        element_filter(nodes@)
    };
    let count = tree.node_count();
    let mut children: Vec<usize> = Vec::new();
    let mut c: usize = 0;
    while c < count
        invariant
            count == tree.len(),
            c <= count,
            keep == (if bodies_only {
                body_filter(nodes@)
            } else {
                element_filter(nodes@)
            }),
            children@ == child_prefix(*tree, parent, c as int).filter(keep),
        decreases count - c,
    {
        let ghost before = child_prefix(*tree, parent, c as int);
        let ghost is_child = |x: usize| tree.spec_parents()[x as int] == Some(parent);
        proof {
            let all = Seq::new(c as nat, |i: int| i as usize);
            assert(Seq::new((c + 1) as nat, |i: int| i as usize) =~= all.push(c));
            all.lemma_filter_push(c, is_child);
        }
        if tree.parent(c) == Some(parent) {
            proof {
                before.lemma_filter_push(c, keep);
            }
            let node = canvas_node(nodes, c);
            if node.element && (!bodies_only || node.body) {
                children.push(c);
            }
        }
        c = c + 1;
    }
    children
}

/// The element whose background the canvas takes, if any (`nodes[n]`
/// describes node `n`; the document node is node 0).
pub fn canvas_background_source(tree: &DocumentTree, nodes: &Vec<CanvasNode>) -> (source: Option<usize>)
    ensures
        source == canvas_source(*tree, nodes@),
{
    let roots = element_children(tree, nodes, 0, false);
    if roots.len() != 1 {
        return None;
    }
    let root = roots[0];
    let r = canvas_node(nodes, root);
    if !r.styled || r.display_none {
        return None;
    }
    if r.has_background {
        return Some(root);
    }
    if !r.html {
        return None;
    }
    let bodies = element_children(tree, nodes, root, true);
    if bodies.len() == 0 {
        return None;
    }
    let body = bodies[0];
    let b = canvas_node(nodes, body);
    if !b.styled || r.contained || b.contained || !b.visible_box || !b.has_background {
        None
    } else {
        Some(body)
    }
}

/// An element's local name is `html`, ASCII case-insensitively.
pub fn is_html_name(local_name: &str) -> (html: bool)
    ensures
        html == eq_ascii_case_insensitive(local_name@, seq!['h', 't', 'm', 'l']),
{
    proof {
        reveal_strlit("html");
        assert("html"@ =~= seq!['h', 't', 'm', 'l']);
    }
    eq_ignore_ascii_case(local_name, "html")
}

/// An element's local name is `body`, ASCII case-insensitively.
pub fn is_body_name(local_name: &str) -> (body: bool)
    ensures
        body == eq_ascii_case_insensitive(local_name@, seq!['b', 'o', 'd', 'y']),
{
    proof {
        reveal_strlit("body");
        assert("body"@ =~= seq!['b', 'o', 'd', 'y']);
    }
    eq_ignore_ascii_case(local_name, "body")
}

} // verus!
