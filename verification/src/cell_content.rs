//! Whether a table cell has visible content. In the separated border model a
//! cell with `empty-cells: hide` and no visible content paints neither its
//! background nor its borders.
//!
//! A cell is not judged empty from its rectangle: text, replaced content and
//! visible decoration of a descendant make it non-empty; white space and
//! empty inline wrappers do not. The DOM is seen through a
//! [`DocumentTree`], with one [`CellContentNode`] per node.

use vstd::prelude::*;
use crate::document::DocumentTree;
use crate::text::chars_of;
use crate::text::is_unicode_white_space;
use crate::text::str_equal;

verus! {

/// What one DOM node contributes to the visible content of a cell.
#[derive(Clone, Copy, Debug, PartialEq, Eq, Structural)]
pub enum CellContentNode {
    /// A text node; `blank` when it holds nothing but white space.
    Text { blank: bool },
    /// An element. `styled`: it has a computed style. `hidden`: it is
    /// `display: none` or not `visibility: visible`. `replaced`: replaced or
    /// embedded content (see [`is_replaced_content_name`]). `decorated`: it
    /// paints a background, a box shadow or a border of nonzero width.
    Element { styled: bool, hidden: bool, replaced: bool, decorated: bool },
    /// A document, a document fragment or a comment: only its children count.
    Container,
    /// A doctype or a processing instruction.
    Inert,
}

/// The node facts of node `n`; a node without facts contributes nothing.
pub open spec fn node_at(nodes: Seq<CellContentNode>, n: int) -> CellContentNode {
    if 0 <= n < nodes.len() {
        nodes[n]
    } else {
        CellContentNode::Inert
    }
}

/// The node itself is visible content. The cell's own decoration does not
/// count: `is_root` is set for the cell.
pub open spec fn shows_content(node: CellContentNode, is_root: bool) -> bool {
    match node {
        CellContentNode::Text { blank } => !blank,
        CellContentNode::Element { styled, hidden, replaced, decorated } => styled && !hidden && (
        replaced || (!is_root && decorated)),
        _ => false,
    }
}

/// The node's children are looked at: styled elements that are displayed and
/// visible, and containers.
pub open spec fn passes_through(node: CellContentNode) -> bool {
    match node {
        CellContentNode::Element { styled, hidden, .. } => styled && !hidden,
        CellContentNode::Container => true,
        _ => false,
    }
}

/// Node `n` is `root`, or lies below it with every node from `root` down to
/// its parent passing through.
pub open spec fn reached_from(tree: DocumentTree, nodes: Seq<CellContentNode>, root: int, n: int) -> bool
    decreases n,
{
    if n == root {
        true
    } else if n < root || n >= tree.len() {
        false
    } else {
        match tree.spec_parents()[n] {
            Some(p) => p < n && reached_from(tree, nodes, root, p as int) && passes_through(
                node_at(nodes, p as int),
            ),
            None => false,
        }
    }
}

/// Some node reached from the cell shows content.
pub open spec fn has_visible_content(tree: DocumentTree, nodes: Seq<CellContentNode>, cell: int) -> bool {
    exists|n: int|
        cell <= n < tree.len() && #[trigger] reached_from(tree, nodes, cell, n) && shows_content(
            node_at(nodes, n),
            n == cell,
        )
}

fn shows(node: CellContentNode, is_root: bool) -> (shown: bool)
    ensures
        shown == shows_content(node, is_root),
{
    match node {
        CellContentNode::Text { blank } => !blank,
        CellContentNode::Element { styled, hidden, replaced, decorated } => styled && !hidden && (
        replaced || (!is_root && decorated)),
        _ => false,
    }
}

fn passes(node: CellContentNode) -> (open: bool)
    ensures
        open == passes_through(node),
{
    match node {
        CellContentNode::Element { styled, hidden, .. } => styled && !hidden,
        CellContentNode::Container => true,
        _ => false,
    }
}

fn node_facts(nodes: &Vec<CellContentNode>, n: usize) -> (node: CellContentNode)
    ensures
        node == node_at(nodes@, n as int),
{
    if n < nodes.len() {
        nodes[n]
    } else {
        CellContentNode::Inert
    }
}

/// Whether the cell at `cell` has visible content: text other than white
/// space, replaced content, or a decorated descendant, reached through
/// displayed, visible, styled elements and containers. `nodes[n]` describes
/// node `n` of `tree`.
pub fn cell_has_visible_content(tree: &DocumentTree, nodes: &Vec<CellContentNode>, cell: usize) -> (visible: bool)
    ensures
        visible == has_visible_content(*tree, nodes@, cell as int),
{
    let count = tree.node_count();
    let mut reached: Vec<bool> = Vec::new();
    let mut visible = false;
    let mut n: usize = 0;
    while n < count
        invariant
            count == tree.len(),
            tree.well_formed(),
            n <= count,
            reached@.len() == n,
            forall|j: int| 0 <= j < n ==> #[trigger] reached@[j] == reached_from(*tree, nodes@, cell as int, j),
            visible == exists|j: int|
                cell <= j < n && #[trigger] reached_from(*tree, nodes@, cell as int, j) && shows_content(
                    node_at(nodes@, j),
                    j == cell,
                ),
        decreases count - n,
    {
        let here = if n == cell {
            true
        } else if n < cell {
            false
        } else {
            match tree.parent(n) {
                Some(p) => reached[p] && passes(node_facts(nodes, p)),
                None => false,
            }
        };
        assert(here == reached_from(*tree, nodes@, cell as int, n as int));
        if here && shows(node_facts(nodes, n), n == cell) {
            visible = true;
        }
        reached.push(here);
        n = n + 1;
    }
    visible
}

/// Whether `empty-cells: hide` suppresses the background and borders of
/// this cell: only in the separated border model, and only when the cell has
/// no visible content.
pub fn hides_empty_cell(
    separated: bool,
    empty_cells_hide: bool,
    tree: &DocumentTree,
    nodes: &Vec<CellContentNode>,
    cell: usize,
) -> (hidden: bool)
    ensures
        hidden == (separated && empty_cells_hide && !has_visible_content(*tree, nodes@, cell as int)),
{
    separated && empty_cells_hide && !cell_has_visible_content(tree, nodes, cell)
}

/// Text that is nothing but Unicode white space (what `str::trim` removes
/// entirely).
pub fn is_blank_text(text: &str) -> (blank: bool)
    ensures
        blank == forall|i: int| 0 <= i < text@.len() ==> is_unicode_white_space(#[trigger] text@[i]),
{
    let chars = chars_of(text);
    let mut i: usize = 0;
    while i < chars.len()
        invariant
            chars@ == text@,
            i <= chars@.len(),
            forall|j: int| 0 <= j < i ==> is_unicode_white_space(#[trigger] chars@[j]),
        decreases chars@.len() - i,
    {
        let c = chars[i];
        let white = ('\u{9}' <= c && c <= '\u{d}') || c == ' ' || c == '\u{85}' || c == '\u{a0}'
            || c == '\u{1680}' || ('\u{2000}' <= c && c <= '\u{200a}') || c == '\u{2028}' || c
            == '\u{2029}' || c == '\u{202f}' || c == '\u{205f}' || c == '\u{3000}';
        if !white {
            return false;
        }
        i = i + 1;
    }
    true
}

/// The local names of replaced and embedded content, which is visible in a
/// cell whatever its size.
pub open spec fn replaced_content_name(name: Seq<char>) -> bool {
    name == seq!['a', 'u', 'd', 'i', 'o'] || name == seq!['c', 'a', 'n', 'v', 'a', 's'] || name
        == seq!['e', 'm', 'b', 'e', 'd'] || name == seq!['i', 'f', 'r', 'a', 'm', 'e'] || name
        == seq!['i', 'm', 'g'] || name == seq!['i', 'n', 'p', 'u', 't'] || name == seq![
        'o',
        'b',
        'j',
        'e',
        'c',
        't',
    ] || name == seq!['s', 'v', 'g'] || name == seq!['v', 'i', 'd', 'e', 'o']
}

/// Whether an element's local name is replaced or embedded content: `audio`,
/// `canvas`, `embed`, `iframe`, `img`, `input`, `object`, `svg` or `video`
/// (compared exactly).
pub fn is_replaced_content_name(name: &str) -> (replaced: bool)
    ensures
        replaced == replaced_content_name(name@),
{
    proof {
        reveal_strlit("audio");
        reveal_strlit("canvas");
        reveal_strlit("embed");
        reveal_strlit("iframe");
        reveal_strlit("img");
        reveal_strlit("input");
        reveal_strlit("object");
        reveal_strlit("svg");
        reveal_strlit("video");
        assert("audio"@ =~= seq!['a', 'u', 'd', 'i', 'o']);
        assert("canvas"@ =~= seq!['c', 'a', 'n', 'v', 'a', 's']);
        assert("embed"@ =~= seq!['e', 'm', 'b', 'e', 'd']);
        assert("iframe"@ =~= seq!['i', 'f', 'r', 'a', 'm', 'e']);
        assert("img"@ =~= seq!['i', 'm', 'g']);
        assert("input"@ =~= seq!['i', 'n', 'p', 'u', 't']);
        assert("object"@ =~= seq!['o', 'b', 'j', 'e', 'c', 't']);
        assert("svg"@ =~= seq!['s', 'v', 'g']);
        assert("video"@ =~= seq!['v', 'i', 'd', 'e', 'o']);
    }
    str_equal(name, "audio") || str_equal(name, "canvas") || str_equal(name, "embed") || str_equal(
        name,
        "iframe",
    ) || str_equal(name, "img") || str_equal(name, "input") || str_equal(name, "object")
        || str_equal(name, "svg") || str_equal(name, "video")
}

} // verus!
