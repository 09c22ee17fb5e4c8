//! Which parts of a retained box tree can be reformatted on their own.
//!
//! After a DOM or style change, a formatting root whose subtree holds only
//! static, unfloated block-level boxes can be laid out again in place; any
//! positioned, floated, inline-level element or table-internal box in the
//! subtree sends the change back to a full layout. These predicates, and the
//! box-tree walks they rest on, decide that.

use std::collections::HashMap;
use vstd::prelude::*;
use crate::taffy_style::ContainerType;
use crate::taffy_style::CssDisplay;
use crate::taffy_style::CssFloat;
use crate::taffy_style::CssOverflow;
use crate::tables::CssPosition;
use crate::taffy_style::{BoxId, BoxOrigin, FlowAxes, NodeId, PhysicalSide};
use crate::tables::InternalTableRole;
use crate::document::DocumentTree;
use vstd::std_specs::iter::IteratorSpec;

verus! {

broadcast use vstd::std_specs::hash::group_hash_axioms;

/// The outer display type of a box.
#[derive(Clone, Copy, Debug, PartialEq, Eq, Structural)]
pub enum DisplayOutside {
    Block,
    Inline,
}

/// The inner display type of a box.
#[derive(Clone, Copy, Debug, PartialEq, Eq, Structural)]
pub enum DisplayInside {
    Flow,
    FlowRoot,
    Flex,
    Grid,
    Table,
    Other,
}

/// The kind of formatting context a box establishes.
#[derive(Clone, Copy, Debug, PartialEq, Eq, Structural)]
pub enum FormattingContextKind {
    Block,
    Inline,
    Flex,
    Grid,
    Table,
}

/// The CSS positioning scheme of a box.
#[derive(Clone, Copy, Debug, PartialEq, Eq, Structural)]
pub enum PositioningScheme {
    Static,
    Relative,
    Sticky,
    Absolute,
    Fixed,
}

/// The side a box floats to.
#[derive(Clone, Copy, Debug, PartialEq, Eq, Structural)]
pub enum FloatSide {
    NoFloat,
    Left,
    Right,
}

/// The layout algorithm that formats a box.
#[derive(Clone, Copy, Debug, PartialEq, Eq, Structural)]
pub enum AlgorithmKind {
    Leaf,
    Block,
    Flex,
    Grid,
    Table,
}

/// One generated box: where it came from, its place in the tree and the
/// display facts the retained-layout decisions read.
#[derive(Debug)]
pub struct GeneratedBox {
    pub origin: BoxOrigin,
    pub parent: Option<BoxId>,
    pub children: Vec<BoxId>,
    pub positioning: PositioningScheme,
    pub float: FloatSide,
    pub outside: Option<DisplayOutside>,
    pub inside: Option<DisplayInside>,
    pub internal_table: Option<InternalTableRole>,
    pub formatting_context: Option<FormattingContextKind>,
}

/// The generated boxes of a document, indexed by box id, with each
/// element's principal box. Boxes are numbered in tree order: a parent comes
/// before its children.
pub struct GeneratedBoxTree {
    boxes: Vec<GeneratedBox>,
    principal: HashMap<NodeId, BoxId>,
}

/// Parents come before their children and every link names a box.
pub open spec fn tree_ordered(boxes: Seq<GeneratedBox>) -> bool {
    &&& forall|b: int| 0 <= b < boxes.len() ==> ((#[trigger] boxes[b]).parent matches Some(p) ==> p < b)
    &&& forall|b: int, k: int|
        0 <= b < boxes.len() && 0 <= k < boxes[b].children@.len() ==> b < #[trigger] boxes[b].children@[k]
            < boxes.len()
}

impl GeneratedBoxTree {
    #[verifier::type_invariant]
    closed spec fn well_formed(&self) -> bool {
        &&& tree_ordered(self.boxes@)
        &&& forall|node: NodeId| #[trigger]
            self.principal@.contains_key(node) ==> self.principal@[node] < self.boxes@.len()
    }

    /// The boxes, by id.
    pub closed spec fn spec_boxes(&self) -> Seq<GeneratedBox> {
        self.boxes@
    }

    /// Each element's principal box.
    pub closed spec fn spec_principal(&self) -> Map<NodeId, BoxId> {
        self.principal@
    }

    /// A tree from its boxes and principal boxes; `None` when a parent does
    /// not precede its child, a child does not follow its parent, or a link
    /// names no box.
    pub fn from_parts(boxes: Vec<GeneratedBox>, principal: HashMap<NodeId, BoxId>) -> (tree: Option<Self>)
        ensures
            tree is Some <==> tree_ordered(boxes@) && forall|node: NodeId| #[trigger]
                principal@.contains_key(node) ==> principal@[node] < boxes@.len(),
            tree matches Some(t) ==> t.spec_boxes() == boxes@ && t.spec_principal() == principal@,
    {
        let n = boxes.len();
        let mut b: usize = 0;
        while b < n
            invariant
                n == boxes@.len(),
                b <= n,
                forall|i: int| 0 <= i < b ==> ((#[trigger] boxes@[i]).parent matches Some(p) ==> p < i),
                forall|i: int, k: int|
                    0 <= i < b && 0 <= k < boxes@[i].children@.len() ==> i
                        < #[trigger] boxes@[i].children@[k] < n,
            decreases n - b,
        {
            if let Some(p) = boxes[b].parent {
                if p >= b as u64 {
                    return None;
                }
            }
            let mut k: usize = 0;
            while k < boxes[b].children.len()
                invariant
                    n == boxes@.len(),
                    b < n,
                    k <= boxes@[b as int].children@.len(),
                    forall|j: int| 0 <= j < k ==> b < #[trigger] boxes@[b as int].children@[j] < n,
                decreases boxes@[b as int].children@.len() - k,
            {
                let c = boxes[b].children[k];
                if c <= b as u64 || c >= n as u64 {
                    proof {
                        assert(!(b < boxes@[b as int].children@[k as int] < n));
                    }
                    return None;
                }
                k = k + 1;
            }
            b = b + 1;
        }
        let ghost all = vstd::std_specs::hash::spec_hash_map_iter(&principal).remaining();
        let ghost mut count: int = 0;
        for entry in it: principal.iter()
            invariant
                it.seq() == all,
                count == it.index(),
                n == boxes@.len(),
                tree_ordered(boxes@),
                forall|j: int| 0 <= j < count ==> *(#[trigger] all[j]).1 < n,
        {
            if *entry.1 >= n as u64 {
                proof {
                    assert(entry == all[count]);
                    assert(principal@.contains_key(*entry.0));
                    assert(principal@[*entry.0] == *entry.1);
                }
                return None;
            }
            proof {
                assert(entry == all[count]);
                count = count + 1;
            }
        }
        proof {
            assert forall|node: NodeId| #[trigger] principal@.contains_key(node) implies principal@[node]
                < n by {
                assert(all.contains((&node, &principal@[node])));
                let j = choose|j: int| 0 <= j < all.len() && all[j] == (&node, &principal@[node]);
                assert(*all[j].1 < n);
            }
        }
        Some(GeneratedBoxTree { boxes, principal })
    }

    /// The number of boxes.
    pub fn len(&self) -> (n: usize)
        ensures
            n == self.spec_boxes().len(),
            tree_ordered(self.spec_boxes()),
    {
        proof {
            use_type_invariant(self);
        }
        self.boxes.len()
    }

    /// The box with an id.
    pub fn get(&self, box_id: BoxId) -> (generated: &GeneratedBox)
        requires
            box_id < self.spec_boxes().len(),
        ensures
            *generated == self.spec_boxes()[box_id as int],
    {
        let count = self.boxes.len();
        assert(box_id < count);
        &self.boxes[box_id as usize]
    }

    /// The principal box of an element.
    pub fn principal_box(&self, node: NodeId) -> (principal: Option<BoxId>)
        ensures
            match principal {
                Some(b) => self.spec_principal().contains_key(node) && b == self.spec_principal()[node]
                    && b < self.spec_boxes().len(),
                None => !self.spec_principal().contains_key(node),
            },
    {
        proof {
            use_type_invariant(self);
        }
        match self.principal.get(&node) {
            Some(b) => Some(*b),
            None => None,
        }
    }
}

// ----- walking the tree -------------------------------------------------

/// `root` is `b` or one of its ancestors.
pub open spec fn box_under(boxes: Seq<GeneratedBox>, b: BoxId, root: BoxId) -> bool
    decreases b,
{
    if b == root {
        true
    } else if b < boxes.len() {
        match boxes[b as int].parent {
            Some(p) => p < b && box_under(boxes, p, root),
            None => false,
        }
    } else {
        false
    }
}

/// Whether `root` is `box_id` or one of its ancestors.
pub fn box_is_descendant_of(boxes: &GeneratedBoxTree, box_id: BoxId, root: BoxId) -> (under: bool)
    requires
        box_id < boxes.spec_boxes().len(),
    ensures
        under == box_under(boxes.spec_boxes(), box_id, root),
{
    proof {
        use_type_invariant(boxes);
    }
    let mut current = box_id;
    loop
        invariant
            current < boxes.spec_boxes().len(),
            tree_ordered(boxes.spec_boxes()),
            box_under(boxes.spec_boxes(), box_id, root) == box_under(boxes.spec_boxes(), current, root),
        decreases current,
    {
        if current == root {
            return true;
        }
        match boxes.get(current).parent {
            Some(p) => {
                current = p;
            },
            None => return false,
        }
    }
}

// ----- retained formatting roots ----------------------------------------

/// A box that a retained root may hold: an element, text or anonymous box
/// in static position, not floated, and not an inline-level element.
pub open spec fn box_in_normal_flow(generated: GeneratedBox) -> bool {
    &&& (generated.origin is Element || generated.origin is Text || generated.origin is Anonymous)
    &&& generated.positioning == PositioningScheme::Static
    &&& generated.float == FloatSide::NoFloat
    &&& !(generated.outside == Some(DisplayOutside::Inline) && !(generated.origin is Text))
}

/// What a box must be to sit in a retained subtree: in normal flow, and
/// either no table part at all, or, for a table root, no nested table
/// wrapper below the root.
pub open spec fn box_retainable(generated: GeneratedBox, is_root: bool, table: bool) -> bool {
    &&& box_in_normal_flow(generated)
    &&& if table {
        is_root || generated.internal_table != Some(InternalTableRole::Wrapper)
    } else {
        generated.internal_table is None
    }
}

/// Every box of the subtree at `b` is retainable.
pub open spec fn subtree_retainable(boxes: Seq<GeneratedBox>, b: int, root: int, table: bool) -> bool
    decreases boxes.len() - b, boxes[b].children@.len() + 1,
{
    &&& 0 <= b < boxes.len()
    &&& box_retainable(boxes[b], b == root, table)
    &&& children_retainable(boxes, b, 0, root, table)
}

/// Every subtree of the children of `b` from the `k`-th on is retainable.
pub open spec fn children_retainable(boxes: Seq<GeneratedBox>, b: int, k: int, root: int, table: bool) -> bool
    decreases boxes.len() - b, boxes[b].children@.len() - k,
{
    if 0 <= b < boxes.len() && 0 <= k < boxes[b].children@.len() {
        let c = boxes[b].children@[k] as int;
        &&& b < c < boxes.len() && subtree_retainable(boxes, c, root, table)
        &&& children_retainable(boxes, b, k + 1, root, table)
    } else {
        true
    }
}

fn in_normal_flow(generated: &GeneratedBox) -> (ok: bool)
    ensures
        ok == box_in_normal_flow(*generated),
{
    let origin_ok = match generated.origin {
        BoxOrigin::Element(_) | BoxOrigin::Text(_) | BoxOrigin::Anonymous(_) => true,
        BoxOrigin::Pseudo(_) => false,
    };
    let is_text = match generated.origin {
        BoxOrigin::Text(_) => true,
        _ => false,
    };
    let inline_element = match generated.outside {
        Some(DisplayOutside::Inline) => !is_text,
        _ => false,
    };
    origin_ok && generated.positioning == PositioningScheme::Static && generated.float
        == FloatSide::NoFloat && !inline_element
}

fn visit_retainable(boxes: &GeneratedBoxTree, b: BoxId, root: BoxId, table: bool) -> (ok: bool)
    requires
        b < boxes.spec_boxes().len(),
    ensures
        ok == subtree_retainable(boxes.spec_boxes(), b as int, root as int, table),
    decreases boxes.spec_boxes().len() - b,
{
    proof {
        use_type_invariant(boxes);
    }
    let generated = boxes.get(b);
    let here = in_normal_flow(generated) && if table {
        b == root || generated.internal_table != Some(InternalTableRole::Wrapper)
    } else {
        generated.internal_table.is_none()
    };
    if !here {
        return false;
    }
    let ghost all = boxes.spec_boxes();
    let mut k: usize = 0;
    while k < generated.children.len()
        invariant
            all == boxes.spec_boxes(),
            tree_ordered(all),
            b < all.len(),
            *generated == all[b as int],
            k <= all[b as int].children@.len(),
            children_retainable(all, b as int, 0, root as int, table) == children_retainable(
                all,
                b as int,
                k as int,
                root as int,
                table,
            ),
        decreases all[b as int].children@.len() - k,
    {
        let c = generated.children[k];
        assert(b < all[b as int].children@[k as int] < all.len());
        if !visit_retainable(boxes, c, root, table) {
            return false;
        }
        k = k + 1;
    }
    true
}

/// Whether a formatting root's whole subtree can be reformatted on its own:
/// every box in it is an element, text or anonymous box, statically
/// positioned, not floated, not an inline-level element, and no table part.
pub fn supports_retained_root_formatting(boxes: &GeneratedBoxTree, root: BoxId) -> (ok: bool)
    requires
        root < boxes.spec_boxes().len(),
    ensures
        ok == subtree_retainable(boxes.spec_boxes(), root as int, root as int, false),
{
    visit_retainable(boxes, root, root, false)
}

/// Whether a table wrapper's whole subtree can be reformatted on its own:
/// the root is a table wrapper, and every box in its subtree is an element,
/// text or anonymous box, statically positioned, not floated, not an
/// inline-level element, and not a nested table wrapper.
pub fn supports_retained_table_root_formatting(boxes: &GeneratedBoxTree, root: BoxId) -> (ok: bool)
    requires
        root < boxes.spec_boxes().len(),
    ensures
        ok == (boxes.spec_boxes()[root as int].internal_table == Some(InternalTableRole::Wrapper)
            && subtree_retainable(boxes.spec_boxes(), root as int, root as int, true)),
{
    boxes.get(root).internal_table == Some(InternalTableRole::Wrapper) && visit_retainable(
        boxes,
        root,
        root,
        true,
    )
}

/// The box a change at an element reformats: the table wrapper around an
/// element's table grid, or the element's principal box when it establishes
/// a block, flex or grid formatting context.
pub open spec fn retained_root_of(boxes: Seq<GeneratedBox>, principal: Map<NodeId, BoxId>, node: NodeId) -> Option<BoxId> {
    if principal.contains_key(node) {
        let p = principal[node];
        if boxes[p as int].internal_table == Some(InternalTableRole::Grid) {
            match boxes[p as int].parent {
                Some(wrapper) => if boxes[wrapper as int].internal_table == Some(
                    InternalTableRole::Wrapper,
                ) {
                    Some(wrapper)
                } else {
                    None
                },
                None => None,
            }
        } else if boxes[p as int].formatting_context == Some(FormattingContextKind::Block)
            || boxes[p as int].formatting_context == Some(FormattingContextKind::Flex)
            || boxes[p as int].formatting_context == Some(FormattingContextKind::Grid) {
            Some(p)
        } else {
            None
        }
    } else {
        None
    }
}

pub fn retained_root_box(boxes: &GeneratedBoxTree, node: NodeId) -> (root: Option<BoxId>)
    ensures
        root == retained_root_of(boxes.spec_boxes(), boxes.spec_principal(), node),
{
    proof {
        use_type_invariant(boxes);
    }
    let principal = match boxes.principal_box(node) {
        Some(p) => p,
        None => return None,
    };
    let generated = boxes.get(principal);
    if generated.internal_table == Some(InternalTableRole::Grid) {
        let wrapper = match generated.parent {
            Some(w) => w,
            None => return None,
        };
        if boxes.get(wrapper).internal_table == Some(InternalTableRole::Wrapper) {
            Some(wrapper)
        } else {
            None
        }
    } else {
        match generated.formatting_context {
            Some(FormattingContextKind::Block)
            | Some(FormattingContextKind::Flex)
            | Some(FormattingContextKind::Grid) => Some(principal),
            _ => None,
        }
    }
}

/// The element owning the nearest table grid at or above box `b`.
pub open spec fn grid_owner_above(boxes: Seq<GeneratedBox>, b: BoxId) -> Option<NodeId>
    decreases b,
{
    if b < boxes.len() {
        if boxes[b as int].internal_table == Some(InternalTableRole::Grid) && boxes[b as int].origin is Element {
            Some(boxes[b as int].origin->Element_0)
        } else {
            match boxes[b as int].parent {
                Some(p) => if p < b {
                    grid_owner_above(boxes, p)
                } else {
                    None
                },
                None => None,
            }
        }
    } else {
        None
    }
}

/// The first owner found from the sources, in order.
pub open spec fn first_grid_owner(boxes: Seq<GeneratedBox>, sources: Seq<BoxId>) -> Option<NodeId>
    decreases sources.len(),
{
    if sources.len() == 0 {
        None
    } else {
        match grid_owner_above(boxes, sources[0]) {
            Some(owner) => Some(owner),
            None => first_grid_owner(boxes, sources.drop_first()),
        }
    }
}

/// The element whose table grid owns a table part: a row, group or cell
/// change is spliced with the whole table. `sources` are the boxes the
/// changed node generated, in order.
pub fn retained_table_owner(boxes: &GeneratedBoxTree, sources: &Vec<BoxId>) -> (owner: Option<NodeId>)
    requires
        forall|i: int| 0 <= i < sources@.len() ==> #[trigger] sources@[i] < boxes.spec_boxes().len(),
    ensures
        owner == first_grid_owner(boxes.spec_boxes(), sources@),
{
    let ghost all = boxes.spec_boxes();
    let mut i: usize = 0;
    proof {
        assert(sources@.skip(0) =~= sources@);
    }
    while i < sources.len()
        invariant
            all == boxes.spec_boxes(),
            i <= sources@.len(),
            forall|j: int| 0 <= j < sources@.len() ==> #[trigger] sources@[j] < all.len(),
            first_grid_owner(all, sources@) == first_grid_owner(all, sources@.skip(i as int)),
        decreases sources@.len() - i,
    {
        proof {
            assert(sources@.skip(i as int).drop_first() =~= sources@.skip(i + 1));
            assert(sources@.skip(i as int)[0] == sources@[i as int]);
        }
        if let Some(owner) = grid_owner(boxes, sources[i]) {
            return Some(owner);
        }
        i = i + 1;
    }
    None
}

/// The element owning the nearest table grid at or above a box.
fn grid_owner(boxes: &GeneratedBoxTree, box_id: BoxId) -> (owner: Option<NodeId>)
    requires
        box_id < boxes.spec_boxes().len(),
    ensures
        owner == grid_owner_above(boxes.spec_boxes(), box_id),
{
    proof {
        use_type_invariant(boxes);
    }
    let ghost all = boxes.spec_boxes();
    let mut current = box_id;
    loop
        invariant
            all == boxes.spec_boxes(),
            tree_ordered(all),
            current < all.len(),
            grid_owner_above(all, box_id) == grid_owner_above(all, current),
        decreases current,
    {
        let generated = boxes.get(current);
        if generated.internal_table == Some(InternalTableRole::Grid) {
            if let BoxOrigin::Element(owner) = generated.origin {
                return Some(owner);
            }
        }
        match generated.parent {
            Some(p) => {
                current = p;
            },
            None => return None,
        }
    }
}

/// The node a box is laid out for: a text box's text node, or the element
/// whose principal box it is.
pub open spec fn origin_node_of(boxes: Seq<GeneratedBox>, principal: Map<NodeId, BoxId>, b: BoxId) -> Option<NodeId> {
    match boxes[b as int].origin {
        BoxOrigin::Element(node) => if principal.contains_key(node) && principal[node] == b {
            Some(node)
        } else {
            None
        },
        BoxOrigin::Text(node) => Some(node),
        _ => None,
    }
}

pub fn legacy_origin_node(boxes: &GeneratedBoxTree, box_id: BoxId) -> (node: Option<NodeId>)
    requires
        box_id < boxes.spec_boxes().len(),
    ensures
        node == origin_node_of(boxes.spec_boxes(), boxes.spec_principal(), box_id),
{
    match boxes.get(box_id).origin {
        BoxOrigin::Element(node) => if boxes.principal_box(node) == Some(box_id) {
            Some(node)
        } else {
            None
        },
        BoxOrigin::Text(node) => Some(node),
        BoxOrigin::Pseudo(_) | BoxOrigin::Anonymous(_) => None,
    }
}

/// The grid box a table wrapper splits its computed values with: its first
/// child that is a table grid.
pub fn wrapped_table_grid(boxes: &GeneratedBoxTree, wrapper: BoxId) -> (grid: Option<BoxId>)
    requires
        wrapper < boxes.spec_boxes().len(),
    ensures
        match grid {
            Some(g) => exists|k: int|
                0 <= k < boxes.spec_boxes()[wrapper as int].children@.len()
                    && boxes.spec_boxes()[wrapper as int].children@[k] == g
                    && boxes.spec_boxes()[g as int].internal_table == Some(InternalTableRole::Grid)
                    && forall|j: int|
                    0 <= j < k ==> boxes.spec_boxes()[boxes.spec_boxes()[wrapper as int].children@[j] as int].internal_table
                        != Some(InternalTableRole::Grid),
            None => forall|j: int|
                0 <= j < boxes.spec_boxes()[wrapper as int].children@.len() ==> boxes.spec_boxes()[boxes.spec_boxes()[wrapper as int].children@[j] as int].internal_table
                    != Some(InternalTableRole::Grid),
        },
{
    proof {
        use_type_invariant(boxes);
    }
    let ghost all = boxes.spec_boxes();
    let children = &boxes.get(wrapper).children;
    let mut k: usize = 0;
    while k < children.len()
        invariant
            all == boxes.spec_boxes(),
            tree_ordered(all),
            wrapper < all.len(),
            children@ == all[wrapper as int].children@,
            k <= children@.len(),
            forall|j: int| 0 <= j < k ==> all[children@[j] as int].internal_table != Some(InternalTableRole::Grid),
        decreases children@.len() - k,
    {
        let child = children[k];
        assert(child < all.len());
        if boxes.get(child).internal_table == Some(InternalTableRole::Grid) {
            return Some(child);
        }
        k = k + 1;
    }
    None
}

/// The algorithm that formats a box: leaves are leaves, a table grid is a
/// table, and otherwise the box's formatting context picks flex, grid or
/// block.
pub open spec fn algorithm_kind_of(generated: GeneratedBox, leaf: bool) -> AlgorithmKind {
    if leaf {
        AlgorithmKind::Leaf
    } else if generated.internal_table == Some(InternalTableRole::Grid) {
        AlgorithmKind::Table
    } else if generated.formatting_context == Some(FormattingContextKind::Flex) {
        AlgorithmKind::Flex
    } else if generated.formatting_context == Some(FormattingContextKind::Grid) {
        AlgorithmKind::Grid
    } else {
        AlgorithmKind::Block
    }
}

pub fn algorithm_kind(generated: &GeneratedBox, leaf: bool) -> (kind: AlgorithmKind)
    ensures
        kind == algorithm_kind_of(*generated, leaf),
{
    if leaf {
        return AlgorithmKind::Leaf;
    }
    match (generated.formatting_context, generated.internal_table) {
        (_, Some(InternalTableRole::Grid)) => AlgorithmKind::Table,
        (Some(FormattingContextKind::Flex), _) => AlgorithmKind::Flex,
        (Some(FormattingContextKind::Grid), _) => AlgorithmKind::Grid,
        _ => AlgorithmKind::Block,
    }
}

// ----- block formatting lanes -------------------------------------------

/// The positioning of a block as its block formatter sees it.
#[derive(Clone, Copy, Debug, PartialEq, Eq, Structural)]
pub enum BlockPosition {
    Static,
    Relative,
    Sticky,
    Absolute,
    Fixed,
}

/// The block-formatting facts of one box.
#[derive(Clone, Copy, Debug)]
pub struct BlockStyle {
    pub establishes_bfc: bool,
    pub position: BlockPosition,
    pub float: FloatSide,
    pub replaced: bool,
    pub shrink_to_fit: bool,
    /// The box's own writing mode and direction.
    pub flow: FlowAxes,
    /// Those of its containing block.
    pub containing_flow: FlowAxes,
}

/// Two flows with the same inline and block starts.
pub open spec fn same_flow(a: FlowAxes, b: FlowAxes) -> bool {
    a.spec_inline_start() == b.spec_inline_start() && a.spec_block_start() == b.spec_block_start()
}

/// A flow whose inline axis is horizontal.
pub open spec fn horizontal_flow(flow: FlowAxes) -> bool {
    flow.spec_inline_start() == PhysicalSide::Left || flow.spec_inline_start() == PhysicalSide::Right
}

fn flows_match(a: FlowAxes, b: FlowAxes) -> (same: bool)
    ensures
        same == same_flow(a, b),
{
    a.inline_start() == b.inline_start() && a.block_start() == b.block_start()
}

/// Whether an in-flow block can share its parent's float state: a block
/// formatted as a block-level, non-table box that establishes no block
/// formatting context, is static or relative, not floated, not replaced,
/// and writes in its containing block's flow or at least, like it,
/// horizontally.
pub open spec fn nested_float_state_supported(generated: GeneratedBox, style: BlockStyle, kind: AlgorithmKind) -> bool {
    kind == AlgorithmKind::Block && generated.outside == Some(DisplayOutside::Block)
        && generated.internal_table is None && !style.establishes_bfc && (style.position
        == BlockPosition::Static || style.position == BlockPosition::Relative) && style.float
        == FloatSide::NoFloat && !style.replaced && (same_flow(style.flow, style.containing_flow)
        || horizontal_flow(style.flow) && horizontal_flow(style.containing_flow))
}

pub fn supports_nested_float_state(generated: &GeneratedBox, style: &BlockStyle, kind: AlgorithmKind) -> (ok: bool)
    ensures
        ok == nested_float_state_supported(*generated, *style, kind),
{
    kind == AlgorithmKind::Block && generated.outside == Some(DisplayOutside::Block)
        && generated.internal_table.is_none() && !style.establishes_bfc && (style.position
        == BlockPosition::Static || style.position == BlockPosition::Relative) && style.float
        == FloatSide::NoFloat && !style.replaced && (flows_match(style.flow, style.containing_flow)
        || style.flow.is_horizontal() && style.containing_flow.is_horizontal())
}

/// Inner display types whose content a block-level lane can format.
pub open spec fn flow_like_inside(inside: Option<DisplayInside>) -> bool {
    inside == Some(DisplayInside::Flow) || inside == Some(DisplayInside::FlowRoot) || inside == Some(
        DisplayInside::Flex,
    ) || inside == Some(DisplayInside::Grid)
}

/// Whether a box that establishes a block formatting context can be placed
/// beside floats: a leaf, block, flex or grid box, block-level (or an
/// inline-level shrink-to-fit box), with flow, flow-root, flex or grid (or
/// no) inner display, no table part, static, not floated, not replaced, in
/// horizontal flows.
pub open spec fn float_avoidance_supported(generated: GeneratedBox, style: BlockStyle, kind: AlgorithmKind) -> bool {
    (kind == AlgorithmKind::Leaf || kind == AlgorithmKind::Block || kind == AlgorithmKind::Flex || kind
        == AlgorithmKind::Grid) && (generated.outside == Some(DisplayOutside::Block) || (generated.outside
        == Some(DisplayOutside::Inline) && style.shrink_to_fit)) && (flow_like_inside(generated.inside)
        || generated.inside is None) && generated.internal_table is None && style.establishes_bfc
        && style.position == BlockPosition::Static && style.float == FloatSide::NoFloat && !style.replaced
        && horizontal_flow(style.flow) && horizontal_flow(style.containing_flow)
}

pub fn supports_float_avoidance(generated: &GeneratedBox, style: &BlockStyle, kind: AlgorithmKind) -> (ok: bool)
    ensures
        ok == float_avoidance_supported(*generated, *style, kind),
{
    let kind_ok = match kind {
        AlgorithmKind::Leaf | AlgorithmKind::Block | AlgorithmKind::Flex | AlgorithmKind::Grid => true,
        AlgorithmKind::Table => false,
    };
    let inside_ok = match generated.inside {
        Some(DisplayInside::Flow)
        | Some(DisplayInside::FlowRoot)
        | Some(DisplayInside::Flex)
        | Some(DisplayInside::Grid)
        | None => true,
        _ => false,
    };
    kind_ok && (generated.outside == Some(DisplayOutside::Block) || (generated.outside == Some(
        DisplayOutside::Inline,
    ) && style.shrink_to_fit)) && inside_ok && generated.internal_table.is_none()
        && style.establishes_bfc && style.position == BlockPosition::Static && style.float
        == FloatSide::NoFloat && !style.replaced && style.flow.is_horizontal()
        && style.containing_flow.is_horizontal()
}

/// Whether a box's parent is a flex container.
pub open spec fn flex_item(boxes: Seq<GeneratedBox>, generated: GeneratedBox) -> bool {
    match generated.parent {
        Some(p) => boxes[p as int].inside == Some(DisplayInside::Flex),
        None => false,
    }
}

pub open spec fn intrinsic_shrink_supported(
    boxes: Seq<GeneratedBox>,
    box_id: BoxId,
    style: BlockStyle,
    kind: AlgorithmKind,
    baseline_aligned: bool,
    algorithm_supports: bool,
) -> bool {
    let generated = boxes[box_id as int];
    let float_root = generated.outside == Some(DisplayOutside::Block) && style.float != FloatSide::NoFloat;
    let atomic_inline_root = generated.outside == Some(DisplayOutside::Inline) && style.float
        == FloatSide::NoFloat;
    &&& (kind == AlgorithmKind::Block || kind == AlgorithmKind::Leaf || kind == AlgorithmKind::Flex || kind
        == AlgorithmKind::Grid)
    &&& flow_like_inside(generated.inside)
    &&& generated.internal_table is None
    &&& style.position == BlockPosition::Static
    &&& style.shrink_to_fit
    &&& baseline_aligned
    &&& horizontal_flow(style.flow)
    &&& horizontal_flow(style.containing_flow)
    &&& (float_root || (atomic_inline_root && !flex_item(boxes, generated)))
    &&& algorithm_supports
}

/// Whether a float or an atomic inline (not a flex item) can be sized
/// shrink-to-fit by measuring its intrinsic widths: a block, leaf, flex or
/// grid box with flow, flow-root, flex or grid inner display, no table
/// part, static, baseline-aligned, in horizontal flows, whose algorithm
/// node can measure itself (`algorithm_supports`).
pub fn supports_intrinsic_shrink_to_fit(
    boxes: &GeneratedBoxTree,
    box_id: BoxId,
    style: &BlockStyle,
    kind: AlgorithmKind,
    baseline_aligned: bool,
    algorithm_supports: bool,
) -> (ok: bool)
    requires
        box_id < boxes.spec_boxes().len(),
    ensures
        ok == intrinsic_shrink_supported(
            boxes.spec_boxes(),
            box_id,
            *style,
            kind,
            baseline_aligned,
            algorithm_supports,
        ),
{
    proof {
        use_type_invariant(boxes);
    }
    let generated = boxes.get(box_id);
    let float_root = generated.outside == Some(DisplayOutside::Block) && style.float
        != FloatSide::NoFloat;
    let atomic_inline_root = generated.outside == Some(DisplayOutside::Inline) && style.float
        == FloatSide::NoFloat;
    let direct_flex_item = match generated.parent {
        Some(p) => {
            assert(p < box_id);
            boxes.get(p).inside == Some(DisplayInside::Flex)
        },
        None => false,
    };
    let kind_ok = match kind {
        AlgorithmKind::Leaf | AlgorithmKind::Block | AlgorithmKind::Flex | AlgorithmKind::Grid => true,
        AlgorithmKind::Table => false,
    };
    let inside_ok = match generated.inside {
        Some(DisplayInside::Flow)
        | Some(DisplayInside::FlowRoot)
        | Some(DisplayInside::Flex)
        | Some(DisplayInside::Grid) => true,
        _ => false,
    };
    kind_ok && inside_ok && generated.internal_table.is_none() && style.position
        == BlockPosition::Static && style.shrink_to_fit && baseline_aligned
        && style.flow.is_horizontal() && style.containing_flow.is_horizontal() && (float_root || (
    atomic_inline_root && !direct_flex_item)) && algorithm_supports
}

// ----- inline runs and positioned roots ---------------------------------

/// An in-flow inline-level box: inline outside, not floated, and static,
/// relative or sticky.
pub open spec fn inline_box(generated: GeneratedBox) -> bool {
    &&& generated.outside == Some(DisplayOutside::Inline)
    &&& generated.float == FloatSide::NoFloat
    &&& (generated.positioning == PositioningScheme::Static || generated.positioning
        == PositioningScheme::Relative || generated.positioning == PositioningScheme::Sticky)
}

pub fn box_is_inline(boxes: &GeneratedBoxTree, box_id: BoxId) -> (inline: bool)
    requires
        box_id < boxes.spec_boxes().len(),
    ensures
        inline == inline_box(boxes.spec_boxes()[box_id as int]),
{
    let generated = boxes.get(box_id);
    generated.outside == Some(DisplayOutside::Inline) && generated.float == FloatSide::NoFloat
        && match generated.positioning {
        PositioningScheme::Static | PositioningScheme::Relative | PositioningScheme::Sticky => true,
        _ => false,
    }
}

/// The number of maximal runs of consecutive inline boxes among children.
pub open spec fn inline_runs(boxes: Seq<GeneratedBox>, children: Seq<BoxId>) -> nat
    decreases children.len(),
{
    if children.len() == 0 {
        0
    } else {
        let rest = inline_runs(boxes, children.drop_last());
        let starts_run = inline_box(boxes[children.last() as int]) && (children.len() == 1
            || !inline_box(boxes[children[children.len() - 2] as int]));
        if starts_run {
            rest + 1
        } else {
            rest
        }
    }
}

/// The box whose intrinsic inline size stands for its flow children: the
/// parent itself, when the children hold exactly one run of inline boxes.
pub fn intrinsic_owner_for_flow_children(boxes: &GeneratedBoxTree, parent: BoxId, children: &Vec<BoxId>) -> (owner: Option<BoxId>)
    requires
        forall|i: int| 0 <= i < children@.len() ==> #[trigger] children@[i] < boxes.spec_boxes().len(),
    ensures
        owner == (if inline_runs(boxes.spec_boxes(), children@) == 1 {
            Some(parent)
        } else {
            None
        }),
{
    let ghost all = boxes.spec_boxes();
    let mut groups: usize = 0;
    let mut inside_group = false;
    let mut i: usize = 0;
    while i < children.len()
        invariant
            all == boxes.spec_boxes(),
            i <= children@.len(),
            forall|j: int| 0 <= j < children@.len() ==> #[trigger] children@[j] < all.len(),
            groups == inline_runs(all, children@.take(i as int)),
            groups <= i,
            inside_group == (i > 0 && inline_box(all[children@[i - 1] as int])),
        decreases children@.len() - i,
    {
        proof {
            let prefix = children@.take(i + 1);
            assert(prefix.drop_last() =~= children@.take(i as int));
            assert(prefix.last() == children@[i as int]);
            if i > 0 {
                assert(prefix[prefix.len() - 2] == children@[i - 1]);
            }
        }
        if box_is_inline(boxes, children[i]) {
            if !inside_group {
                groups = groups + 1;
                inside_group = true;
            }
        } else {
            inside_group = false;
        }
        i = i + 1;
    }
    proof {
        assert(children@.take(children@.len() as int) =~= children@);
    }
    if groups == 1 {
        Some(parent)
    } else {
        None
    }
}

/// An absolutely positioned or fixed box.
pub open spec fn out_of_flow(generated: GeneratedBox) -> bool {
    generated.positioning == PositioningScheme::Absolute || generated.positioning
        == PositioningScheme::Fixed
}

/// The outermost absolute or fixed descendants of box `b`, in tree order.
pub open spec fn positioned_below(boxes: Seq<GeneratedBox>, b: int) -> Seq<BoxId>
    decreases boxes.len() - b, boxes[b].children@.len() + 1,
{
    positioned_from(boxes, b, 0)
}

/// Those of them under the children of `b` from the `k`-th on.
pub open spec fn positioned_from(boxes: Seq<GeneratedBox>, b: int, k: int) -> Seq<BoxId>
    decreases boxes.len() - b, boxes[b].children@.len() - k,
{
    if 0 <= b < boxes.len() && 0 <= k < boxes[b].children@.len() {
        let c = boxes[b].children@[k];
        let here = if b < c < boxes.len() {
            if out_of_flow(boxes[c as int]) {
                seq![c]
            } else {
                positioned_below(boxes, c as int)
            }
        } else {
            Seq::empty()
        };
        here + positioned_from(boxes, b, k + 1)
    } else {
        Seq::empty()
    }
}

/// The outermost absolute or fixed descendants of the roots of an inline
/// run, root by root, in tree order; they are built apart from the run.
pub open spec fn positioned_in_roots(boxes: Seq<GeneratedBox>, roots: Seq<BoxId>) -> Seq<BoxId>
    decreases roots.len(),
{
    if roots.len() == 0 {
        Seq::empty()
    } else {
        positioned_in_roots(boxes, roots.drop_last()) + positioned_below(boxes, roots.last() as int)
    }
}

fn collect_positioned(boxes: &GeneratedBoxTree, box_id: BoxId, positioned: &mut Vec<BoxId>)
    requires
        box_id < boxes.spec_boxes().len(),
    ensures
        final(positioned)@ == old(positioned)@ + positioned_below(boxes.spec_boxes(), box_id as int),
    decreases boxes.spec_boxes().len() - box_id,
{
    proof {
        use_type_invariant(boxes);
    }
    let ghost all = boxes.spec_boxes();
    let ghost start = positioned@;
    let children = &boxes.get(box_id).children;
    let mut k: usize = 0;
    while k < children.len()
        invariant
            all == boxes.spec_boxes(),
            tree_ordered(all),
            box_id < all.len(),
            children@ == all[box_id as int].children@,
            k <= children@.len(),
            start + positioned_below(all, box_id as int) == positioned@ + positioned_from(
                all,
                box_id as int,
                k as int,
            ),
        decreases children@.len() - k,
    {
        let child = children[k];
        assert(box_id < child < all.len());
        let ghost before = positioned@;
        let generated = boxes.get(child);
        if generated.positioning == PositioningScheme::Absolute || generated.positioning
            == PositioningScheme::Fixed {
            positioned.push(child);
            proof {
                assert(before + positioned_from(all, box_id as int, k as int) =~= positioned@
                    + positioned_from(all, box_id as int, k + 1));
            }
        } else {
            collect_positioned(boxes, child, positioned);
            proof {
                assert(before + positioned_from(all, box_id as int, k as int) =~= positioned@
                    + positioned_from(all, box_id as int, k + 1));
            }
        }
        k = k + 1;
    }
    proof {
        assert(positioned@ + positioned_from(all, box_id as int, k as int) =~= positioned@);
    }
}

/// The outermost absolute and fixed descendants of an inline run's roots.
pub fn positioned_roots_in_inline_group(boxes: &GeneratedBoxTree, roots: &Vec<BoxId>) -> (positioned: Vec<BoxId>)
    requires
        forall|i: int| 0 <= i < roots@.len() ==> #[trigger] roots@[i] < boxes.spec_boxes().len(),
    ensures
        positioned@ == positioned_in_roots(boxes.spec_boxes(), roots@),
{
    let mut positioned: Vec<BoxId> = Vec::new();
    let mut i: usize = 0;
    while i < roots.len()
        invariant
            i <= roots@.len(),
            forall|j: int| 0 <= j < roots@.len() ==> #[trigger] roots@[j] < boxes.spec_boxes().len(),
            positioned@ == positioned_in_roots(boxes.spec_boxes(), roots@.take(i as int)),
        decreases roots@.len() - i,
    {
        proof {
            assert(roots@.take(i + 1).drop_last() =~= roots@.take(i as int));
        }
        collect_positioned(boxes, roots[i], &mut positioned);
        i = i + 1;
    }
    proof {
        assert(roots@.take(roots@.len() as int) =~= roots@);
    }
    positioned
}

/// Whether the nearest ancestor that is not anonymous establishes a flex
/// or grid formatting context, in which `auto` sizes may stretch.
pub open spec fn stretched_above(boxes: Seq<GeneratedBox>, b: BoxId) -> bool
    decreases b,
{
    if b < boxes.len() {
        match boxes[b as int].parent {
            Some(p) => if p < b {
                if boxes[p as int].origin is Anonymous {
                    stretched_above(boxes, p)
                } else {
                    boxes[p as int].formatting_context == Some(FormattingContextKind::Flex)
                        || boxes[p as int].formatting_context == Some(FormattingContextKind::Grid)
                }
            } else {
                false
            },
            None => false,
        }
    } else {
        false
    }
}

pub fn stretched_by_ancestor_context(boxes: &GeneratedBoxTree, box_id: BoxId) -> (stretched: bool)
    requires
        box_id < boxes.spec_boxes().len(),
    ensures
        stretched == stretched_above(boxes.spec_boxes(), box_id),
{
    proof {
        use_type_invariant(boxes);
    }
    let ghost all = boxes.spec_boxes();
    let mut current = box_id;
    loop
        invariant
            all == boxes.spec_boxes(),
            tree_ordered(all),
            current < all.len(),
            stretched_above(all, box_id) == stretched_above(all, current),
        decreases current,
    {
        match boxes.get(current).parent {
            Some(p) => {
                let parent = boxes.get(p);
                match parent.origin {
                    BoxOrigin::Anonymous(_) => {
                        current = p;
                    },
                    _ => {
                        return match parent.formatting_context {
                            Some(FormattingContextKind::Flex) | Some(FormattingContextKind::Grid) => true,
                            _ => false,
                        };
                    },
                }
            },
            None => return false,
        }
    }
}

/// Whether a table wrapper needs the float fallback: a block-level wrapper
/// that is neither a flex or grid item, nor absolutely positioned, nor
/// floated.
pub fn wrapper_needs_float_fallback(boxes: &GeneratedBoxTree, wrapper: BoxId, absolute: bool, floated: bool) -> (fallback: bool)
    requires
        wrapper < boxes.spec_boxes().len(),
    ensures
        fallback == ({
            let generated = boxes.spec_boxes()[wrapper as int];
            let item = match generated.parent {
                Some(p) => boxes.spec_boxes()[p as int].formatting_context == Some(
                    FormattingContextKind::Flex,
                ) || boxes.spec_boxes()[p as int].formatting_context == Some(
                    FormattingContextKind::Grid,
                ),
                None => false,
            };
            generated.outside == Some(DisplayOutside::Block) && !item && !absolute && !floated
        }),
{
    proof {
        use_type_invariant(boxes);
    }
    let generated = boxes.get(wrapper);
    let item = match generated.parent {
        Some(p) => {
            assert(p < wrapper);
            match boxes.get(p).formatting_context {
                Some(FormattingContextKind::Flex) | Some(FormattingContextKind::Grid) => true,
                _ => false,
            }
        },
        None => false,
    };
    generated.outside == Some(DisplayOutside::Block) && !item && !absolute && !floated
}

/// Every box collected under `b` is absolute or fixed.
proof fn lemma_positioned_below_out_of_flow(boxes: Seq<GeneratedBox>, b: int, k: int)
    ensures
        forall|i: int| 0 <= i < positioned_from(boxes, b, k).len() ==> out_of_flow(
            boxes[#[trigger] positioned_from(boxes, b, k)[i] as int],
        ),
    decreases boxes.len() - b, boxes[b].children@.len() - k,
{
    if 0 <= b < boxes.len() && 0 <= k < boxes[b].children@.len() {
        let c = boxes[b].children@[k];
        lemma_positioned_below_out_of_flow(boxes, b, k + 1);
        if b < c < boxes.len() && !out_of_flow(boxes[c as int]) {
            lemma_positioned_below_out_of_flow(boxes, c as int, 0);
        }
        let here = if b < c < boxes.len() {
            if out_of_flow(boxes[c as int]) {
                seq![c]
            } else {
                positioned_below(boxes, c as int)
            }
        } else {
            Seq::<BoxId>::empty()
        };
        let rest = positioned_from(boxes, b, k + 1);
        assert(positioned_from(boxes, b, k) == here + rest);
        assert forall|i: int| 0 <= i < (here + rest).len() implies out_of_flow(
            boxes[#[trigger] (here + rest)[i] as int],
        ) by {
            if i >= here.len() {
                assert((here + rest)[i] == rest[i - here.len()]);
            } else {
                assert((here + rest)[i] == here[i]);
                if b < c < boxes.len() && !out_of_flow(boxes[c as int]) {
                    assert(here == positioned_from(boxes, c as int, 0));
                    assert(here[i] == positioned_from(boxes, c as int, 0)[i]);
                }
            }
        }
    }
}

/// Every box built apart from an inline run is absolutely positioned or
/// fixed.
pub proof fn law_positioned_roots_are_out_of_flow(boxes: Seq<GeneratedBox>, roots: Seq<BoxId>)
    ensures
        forall|i: int| 0 <= i < positioned_in_roots(boxes, roots).len() ==> out_of_flow(
            boxes[#[trigger] positioned_in_roots(boxes, roots)[i] as int],
        ),
    decreases roots.len(),
{
    if roots.len() > 0 {
        law_positioned_roots_are_out_of_flow(boxes, roots.drop_last());
        lemma_positioned_below_out_of_flow(boxes, roots.last() as int, 0);
        let front = positioned_in_roots(boxes, roots.drop_last());
        let back = positioned_below(boxes, roots.last() as int);
        assert forall|i: int| 0 <= i < (front + back).len() implies out_of_flow(
            boxes[#[trigger] (front + back)[i] as int],
        ) by {
            if i >= front.len() {
                assert((front + back)[i] == back[i - front.len()]);
                assert(back == positioned_from(boxes, roots.last() as int, 0));
                assert(back[i - front.len()] == positioned_from(boxes, roots.last() as int, 0)[i - front.len()]);
            } else {
                assert((front + back)[i] == front[i]);
            }
        }
    }
}

} // verus!

verus! {

// ----- merging an atomic inline subtree ---------------------------------

/// Some proper ancestor of box `b` is one of `grids`.
pub open spec fn grid_above(boxes: Seq<GeneratedBox>, b: BoxId, grids: Seq<BoxId>) -> bool
    decreases b,
{
    if b < boxes.len() {
        match boxes[b as int].parent {
            Some(p) => p < b && (grids.contains(p) || grid_above(boxes, p, grids)),
            None => false,
        }
    } else {
        false
    }
}

/// A fragment of an atomic subtree placed before the subtree's table
/// structure is committed: not the atom's root (which already has its
/// fragment), and not a table-internal box, one below a table grid of the
/// atom that is no grid itself.
pub open spec fn placed_before_tables(boxes: Seq<GeneratedBox>, root: BoxId, grids: Seq<BoxId>, b: BoxId) -> bool {
    b != root && !(grid_above(boxes, b, grids) && !grids.contains(b))
}

/// [`placed_before_tables`] as a filter.
pub open spec fn placed_before_tables_filter(boxes: Seq<GeneratedBox>, root: BoxId, grids: Seq<BoxId>) -> spec_fn(BoxId) -> bool {
    |b: BoxId| placed_before_tables(boxes, root, grids, b)
}

/// Every box but the atom's root.
pub open spec fn other_than(root: BoxId) -> spec_fn(BoxId) -> bool {
    |b: BoxId| b != root
}

fn holds_box(grids: &Vec<BoxId>, b: BoxId) -> (found: bool)
    ensures
        found == grids@.contains(b),
{
    let mut i: usize = 0;
    while i < grids.len()
        invariant
            i <= grids@.len(),
            forall|j: int| 0 <= j < i ==> grids@[j] != b,
        decreases grids@.len() - i,
    {
        if grids[i] == b {
            assert(grids@[i as int] == b);
            return true;
        }
        i = i + 1;
    }
    false
}

fn below_grid(boxes: &GeneratedBoxTree, box_id: BoxId, grids: &Vec<BoxId>) -> (below: bool)
    requires
        box_id < boxes.spec_boxes().len(),
    ensures
        below == grid_above(boxes.spec_boxes(), box_id, grids@),
{
    proof {
        use_type_invariant(boxes);
    }
    let ghost all = boxes.spec_boxes();
    let mut current = box_id;
    loop
        invariant
            all == boxes.spec_boxes(),
            tree_ordered(all),
            current < all.len(),
            grid_above(all, box_id, grids@) == grid_above(all, current, grids@),
        decreases current,
    {
        match boxes.get(current).parent {
            Some(p) => {
                if holds_box(grids, p) {
                    return true;
                }
                current = p;
            },
            None => return false,
        }
    }
}

/// The two passes that place the fragments of an atomic inline subtree
/// rooted at `root` into the page's fragment tree, given the boxes of its
/// fragments in order and its table grids. The first pass runs before the
/// grids' table structure is committed and leaves out what that structure
/// places; the second runs after it over every fragment. Both leave out the
/// root, whose fragment is already placed.
pub fn atomic_merge_passes(
    boxes: &GeneratedBoxTree,
    root: BoxId,
    fragments: &Vec<BoxId>,
    grids: &Vec<BoxId>,
) -> (passes: (Vec<BoxId>, Vec<BoxId>))
    requires
        forall|i: int| 0 <= i < fragments@.len() ==> #[trigger] fragments@[i] < boxes.spec_boxes().len(),
    ensures
        passes.0@ == fragments@.filter(placed_before_tables_filter(boxes.spec_boxes(), root, grids@)),
        passes.1@ == fragments@.filter(other_than(root)),
{
    let mut first: Vec<BoxId> = Vec::new();
    let mut second: Vec<BoxId> = Vec::new();
    let mut i: usize = 0;
    while i < fragments.len()
        invariant
            i <= fragments@.len(),
            forall|j: int| 0 <= j < fragments@.len() ==> #[trigger] fragments@[j] < boxes.spec_boxes().len(),
            first@ == fragments@.take(i as int).filter(placed_before_tables_filter(boxes.spec_boxes(), root, grids@)),
            second@ == fragments@.take(i as int).filter(other_than(root)),
        decreases fragments@.len() - i,
    {
        let b = fragments[i];
        let ghost first_pred = placed_before_tables_filter(boxes.spec_boxes(), root, grids@);
        let ghost second_pred = other_than(root);
        proof {
            assert(fragments@.take(i + 1) =~= fragments@.take(i as int).push(b));
            fragments@.take(i as int).lemma_filter_push(b, first_pred);
            fragments@.take(i as int).lemma_filter_push(b, second_pred);
        }
        if b != root {
            let under = below_grid(boxes, b, grids);
            let is_grid = holds_box(grids, b);
            if !(under && !is_grid) {
                first.push(b);
            }
            second.push(b);
        }
        i = i + 1;
    }
    proof {
        assert(fragments@.take(fragments@.len() as int) =~= fragments@);
    }
    (first, second)
}

} // verus!

verus! {

// ----- the block-formatting projection of a computed style -----------------

/// The keyword-valued computed properties (and box facts) the block
/// formatter's style projection reads; lengths are projected apart.
#[derive(Clone, Copy, Debug)]
pub struct BlockInput {
    /// The generated box's inner display type.
    pub inside: Option<DisplayInside>,
    pub display: CssDisplay,
    pub position: CssPosition,
    pub float: CssFloat,
    pub overflow_x: CssOverflow,
    pub overflow_y: CssOverflow,
    pub container_type: ContainerType,
    /// `contain` holds `size`, `inline-size`, `layout`, `paint`.
    pub contain_size: bool,
    pub contain_inline_size: bool,
    pub contain_layout: bool,
    pub contain_paint: bool,
    /// The element's writing mode is vertical.
    pub vertical: bool,
    /// `width: auto`.
    pub width_auto: bool,
    pub replaced: bool,
    /// The generated box has no parent and comes from an element.
    pub root_element: bool,
    pub flow: FlowAxes,
    pub containing_flow: FlowAxes,
}

/// The discrete part of the block formatter's style for one box.
#[derive(Clone, Copy, Debug)]
pub struct BlockFormatting {
    pub style: BlockStyle,
    /// Size containment along the width and the height.
    pub contain_width: bool,
    pub contain_height: bool,
    pub root_element: bool,
}

/// The box establishes a block formatting context: a flow-root, flex or
/// grid inside; an inline-block, table, inline-table, table cell or
/// caption; out of flow by position or float; overflow other than visible
/// on either axis; or layout or paint containment.
pub open spec fn establishes_bfc(i: BlockInput) -> bool {
    (i.inside == Some(DisplayInside::FlowRoot) || i.inside == Some(DisplayInside::Flex) || i.inside == Some(
        DisplayInside::Grid,
    )) || (i.display == CssDisplay::InlineBlock || i.display == CssDisplay::Table || i.display
        == CssDisplay::InlineTable || i.display == CssDisplay::TableCell || i.display == CssDisplay::TableCaption)
        || (i.position == CssPosition::Absolute || i.position == CssPosition::Fixed) || i.float
        != CssFloat::NoFloat || i.overflow_x != CssOverflow::Visible || i.overflow_y != CssOverflow::Visible
        || i.contain_layout || i.contain_paint
}

/// Size containment along the width: `container-type: size`, or an inline
/// size container or `contain: inline-size` in a horizontal writing mode,
/// or `contain: size`.
pub open spec fn contains_width(i: BlockInput) -> bool {
    i.contain_size || i.container_type == ContainerType::Size || (!i.vertical && (i.container_type
        == ContainerType::InlineSize || i.contain_inline_size))
}

/// Size containment along the height, symmetrically for a vertical
/// writing mode.
pub open spec fn contains_height(i: BlockInput) -> bool {
    i.contain_size || i.container_type == ContainerType::Size || (i.vertical && (i.container_type
        == ContainerType::InlineSize || i.contain_inline_size))
}

pub open spec fn block_position_of(position: CssPosition) -> BlockPosition {
    match position {
        CssPosition::Static => BlockPosition::Static,
        CssPosition::Relative => BlockPosition::Relative,
        CssPosition::Absolute => BlockPosition::Absolute,
        CssPosition::Fixed => BlockPosition::Fixed,
        CssPosition::Sticky => BlockPosition::Sticky,
    }
}

pub open spec fn float_side_of(float: CssFloat) -> FloatSide {
    match float {
        CssFloat::NoFloat => FloatSide::NoFloat,
        CssFloat::Left => FloatSide::Left,
        CssFloat::Right => FloatSide::Right,
    }
}

/// Project a box's computed style onto its block-formatting facts: whether
/// it establishes a block formatting context, shrinks to fit (an auto width
/// on an inline-block or a float), its size containment, positioning,
/// float side and flows.
pub fn to_block_formatting(input: &BlockInput) -> (block: BlockFormatting)
    ensures
        block.style.establishes_bfc == establishes_bfc(*input),
        block.style.shrink_to_fit == (input.width_auto && (input.display == CssDisplay::InlineBlock
            || input.float != CssFloat::NoFloat)),
        block.style.position == block_position_of(input.position),
        block.style.float == float_side_of(input.float),
        block.style.replaced == input.replaced,
        block.style.flow == input.flow,
        block.style.containing_flow == input.containing_flow,
        block.contain_width == contains_width(*input),
        block.contain_height == contains_height(*input),
        block.root_element == input.root_element,
{
    let i = *input;
    let (mut contain_width, mut contain_height) = match i.container_type {
        ContainerType::Normal => (false, false),
        ContainerType::InlineSize => if i.vertical {
            (false, true)
        } else {
            (true, false)
        },
        ContainerType::Size => (true, true),
    };
    if i.contain_size {
        contain_width = true;
        contain_height = true;
    } else if i.contain_inline_size {
        if i.vertical {
            contain_height = true;
        } else {
            contain_width = true;
        }
    }
    let inside_root = match i.inside {
        Some(DisplayInside::FlowRoot) | Some(DisplayInside::Flex) | Some(DisplayInside::Grid) => true,
        _ => false,
    };
    let display_root = match i.display {
        CssDisplay::InlineBlock | CssDisplay::Table | CssDisplay::InlineTable | CssDisplay::TableCell
        | CssDisplay::TableCaption => true,
        _ => false,
    };
    let out_of_flow = match i.position {
        CssPosition::Absolute | CssPosition::Fixed => true,
        _ => false,
    };
    let floated = match i.float {
        CssFloat::NoFloat => false,
        _ => true,
    };
    let overflowing = match (i.overflow_x, i.overflow_y) {
        (CssOverflow::Visible, CssOverflow::Visible) => false,
        _ => true,
    };
    let establishes = inside_root || display_root || out_of_flow || floated || overflowing
        || i.contain_layout || i.contain_paint;
    let position = match i.position {
        CssPosition::Static => BlockPosition::Static,
        CssPosition::Relative => BlockPosition::Relative,
        CssPosition::Absolute => BlockPosition::Absolute,
        CssPosition::Fixed => BlockPosition::Fixed,
        CssPosition::Sticky => BlockPosition::Sticky,
    };
    let float = match i.float {
        CssFloat::NoFloat => FloatSide::NoFloat,
        CssFloat::Left => FloatSide::Left,
        CssFloat::Right => FloatSide::Right,
    };
    let shrink_to_fit = i.width_auto && (match i.display {
        CssDisplay::InlineBlock => true,
        _ => false,
    } || floated);
    BlockFormatting {
        style: BlockStyle {
            establishes_bfc: establishes,
            position,
            float,
            replaced: i.replaced,
            shrink_to_fit,
            flow: i.flow,
            containing_flow: i.containing_flow,
        },
        contain_width,
        contain_height,
        root_element: i.root_element,
    }
}

} // verus!

verus! {

// ----- building the algorithm node of an element box ---------------------

/// How the algorithm node of an element's box is built, and which retained
/// lanes it takes part in.
#[derive(Clone, Copy, Debug, PartialEq, Eq, Structural)]
pub struct ElementBuildPlan {
    /// A measured replaced leaf, rather than a container of its children;
    /// the backend then exempts it from stretching as a replaced item.
    pub replaced_leaf: bool,
    /// The algorithm that formats it.
    pub kind: AlgorithmKind,
    /// It shares its parent's float state.
    pub nested_float_state: bool,
    /// A float whose float context is an inline formatting context.
    pub inline_context_float: bool,
    /// It is placed beside floats.
    pub float_avoidance: bool,
    /// It is sized shrink-to-fit from its intrinsic widths.
    pub intrinsic_shrink_to_fit: bool,
}

/// The build plan of an element's box. `has_children`: it generated child
/// nodes. `natural_size`: it is replaced and its natural size is known.
/// `inline_float_context`: its float context comes from an inline
/// formatting context. `baseline_aligned` and `algorithm_supports` as for
/// [`supports_intrinsic_shrink_to_fit`].
pub fn element_build_plan(
    boxes: &GeneratedBoxTree,
    box_id: BoxId,
    style: &BlockStyle,
    has_children: bool,
    natural_size: bool,
    inline_float_context: bool,
    baseline_aligned: bool,
    algorithm_supports: bool,
) -> (plan: ElementBuildPlan)
    requires
        box_id < boxes.spec_boxes().len(),
    ensures
        plan.replaced_leaf == (natural_size && !has_children),
        plan.kind == algorithm_kind_of(boxes.spec_boxes()[box_id as int], !has_children),
        plan.nested_float_state == nested_float_state_supported(boxes.spec_boxes()[box_id as int], *style, plan.kind),
        plan.inline_context_float == (style.float != FloatSide::NoFloat && inline_float_context),
        plan.float_avoidance == float_avoidance_supported(boxes.spec_boxes()[box_id as int], *style, plan.kind),
        plan.intrinsic_shrink_to_fit == intrinsic_shrink_supported(
            boxes.spec_boxes(),
            box_id,
            *style,
            plan.kind,
            baseline_aligned,
            algorithm_supports,
        ),
{
    let generated = boxes.get(box_id);
    let kind = algorithm_kind(generated, !has_children);
    let floated = match style.float {
        FloatSide::NoFloat => false,
        _ => true,
    };
    ElementBuildPlan {
        replaced_leaf: natural_size && !has_children,
        kind,
        nested_float_state: supports_nested_float_state(generated, style, kind),
        inline_context_float: floated && inline_float_context,
        float_avoidance: supports_float_avoidance(generated, style, kind),
        intrinsic_shrink_to_fit: supports_intrinsic_shrink_to_fit(
            boxes,
            box_id,
            style,
            kind,
            baseline_aligned,
            algorithm_supports,
        ),
    }
}

/// A box never both shares its parent's float state and is placed beside
/// floats: the first excludes a box that establishes a block formatting
/// context, the second requires one.
pub proof fn law_float_lanes_are_exclusive(generated: GeneratedBox, style: BlockStyle, kind: AlgorithmKind)
    ensures
        !(nested_float_state_supported(generated, style, kind) && float_avoidance_supported(generated, style, kind)),
{
}

} // verus!

verus! {

// ----- whether a damaged root may be reformatted in place ----------------

/// No proper ancestor of box `b` is flagged in `changed` (`changed[a]`: the
/// style of the node that box `a` is laid out for changed since the
/// retained layout).
pub open spec fn unchanged_above(boxes: Seq<GeneratedBox>, changed: Seq<bool>, b: BoxId) -> bool
    decreases b,
{
    if b < boxes.len() {
        match boxes[b as int].parent {
            Some(p) => p < b && !(p < changed.len() && changed[p as int]) && unchanged_above(boxes, changed, p),
            None => true,
        }
    } else {
        true
    }
}

fn changed_box(changed: &Vec<bool>, b: BoxId) -> (flag: bool)
    ensures
        flag == (b < changed@.len() && changed@[b as int]),
{
    let n = changed.len() as u64;
    if b < n {
        changed[b as usize]
    } else {
        false
    }
}

/// Whether the styles of every ancestor of a box are unchanged.
pub fn ancestor_styles_unchanged(boxes: &GeneratedBoxTree, changed: &Vec<bool>, root: BoxId) -> (unchanged: bool)
    requires
        root < boxes.spec_boxes().len(),
    ensures
        unchanged == unchanged_above(boxes.spec_boxes(), changed@, root),
{
    proof {
        use_type_invariant(boxes);
    }
    let ghost all = boxes.spec_boxes();
    let mut current = root;
    loop
        invariant
            all == boxes.spec_boxes(),
            tree_ordered(all),
            current < all.len(),
            unchanged_above(all, changed@, root) == unchanged_above(all, changed@, current),
        decreases current,
    {
        match boxes.get(current).parent {
            Some(p) => {
                if changed_box(changed, p) {
                    return false;
                }
                current = p;
            },
            None => return true,
        }
    }
}

/// The root box a change at `node` may reformat in place: the node's own
/// style is unchanged, it has a retained root (see [`retained_root_of`]),
/// the root's whole subtree can be reformatted on its own (as a table
/// wrapper when it is one), and no ancestor's style changed.
pub open spec fn in_place_root_of(
    boxes: Seq<GeneratedBox>,
    principal: Map<NodeId, BoxId>,
    node: NodeId,
    own_style_changed: bool,
    changed: Seq<bool>,
) -> Option<BoxId> {
    if own_style_changed {
        None
    } else {
        match retained_root_of(boxes, principal, node) {
            Some(root) => {
                let table_root = boxes[root as int].internal_table == Some(InternalTableRole::Wrapper);
                if subtree_retainable(boxes, root as int, root as int, table_root) && unchanged_above(
                    boxes,
                    changed,
                    root,
                ) {
                    Some(root)
                } else {
                    None
                }
            },
            None => None,
        }
    }
}

pub fn in_place_root(boxes: &GeneratedBoxTree, node: NodeId, own_style_changed: bool, changed: &Vec<bool>) -> (root: Option<BoxId>)
    ensures
        root == in_place_root_of(boxes.spec_boxes(), boxes.spec_principal(), node, own_style_changed, changed@),
        root matches Some(r) ==> r < boxes.spec_boxes().len(),
{
    proof {
        use_type_invariant(boxes);
    }
    if own_style_changed {
        return None;
    }
    let root = match retained_root_box(boxes, node) {
        Some(root) => root,
        None => return None,
    };
    proof {
        let p = boxes.spec_principal()[node];
        assert(p < boxes.spec_boxes().len());
        if boxes.spec_boxes()[p as int].internal_table == Some(InternalTableRole::Grid) {
            assert(boxes.spec_boxes()[p as int].parent matches Some(w) && w < p);
        }
    }
    let table_root = boxes.get(root).internal_table == Some(InternalTableRole::Wrapper);
    let supported = if table_root {
        supports_retained_table_root_formatting(boxes, root)
    } else {
        supports_retained_root_formatting(boxes, root)
    };
    if supported && ancestor_styles_unchanged(boxes, changed, root) {
        Some(root)
    } else {
        None
    }
}

} // verus!

verus! {

// ----- atomic inline roots -------------------------------------------------

/// A display that makes an element an atomic inline: `inline-block`,
/// `inline-table`, a replaced element displayed `inline`, or a replaced
/// element given an internal table display (box generation demotes it to
/// an inline).
pub open spec fn atomic_inline_display(display: CssDisplay, replaced: bool, internal_table_display: bool) -> bool {
    display == CssDisplay::InlineBlock || display == CssDisplay::InlineTable || (display == CssDisplay::Inline
        && replaced) || (replaced && internal_table_display)
}

pub fn is_atomic_inline_display(display: CssDisplay, replaced: bool, internal_table_display: bool) -> (atomic: bool)
    ensures
        atomic == atomic_inline_display(display, replaced, internal_table_display),
{
    match display {
        CssDisplay::InlineBlock | CssDisplay::InlineTable => true,
        CssDisplay::Inline => replaced,
        _ => replaced && internal_table_display,
    }
}

pub open spec fn node_flag(flags: Seq<bool>, node: int) -> bool {
    0 <= node < flags.len() && flags[node]
}

/// Element `node` generates an atomic inline box: its principal box is
/// inline-level and its display makes it atomic (`atomic[node]`).
pub open spec fn atomic_inline_element(
    boxes: Seq<GeneratedBox>,
    principal: Map<NodeId, BoxId>,
    atomic: Seq<bool>,
    node: NodeId,
) -> bool {
    principal.contains_key(node) && boxes[principal[node] as int].outside == Some(DisplayOutside::Inline)
        && node_flag(atomic, node as int)
}

/// Some DOM ancestor of node `n` is an atomic inline element.
pub open spec fn atomic_above(
    tree: DocumentTree,
    boxes: Seq<GeneratedBox>,
    principal: Map<NodeId, BoxId>,
    atomic: Seq<bool>,
    n: int,
) -> bool
    decreases n,
{
    if 0 <= n < tree.len() {
        match tree.spec_parents()[n] {
            Some(p) => p < n && (atomic_inline_element(boxes, principal, atomic, p as NodeId) || atomic_above(
                tree,
                boxes,
                principal,
                atomic,
                p as int,
            )),
            None => false,
        }
    } else {
        false
    }
}

/// The atomic inline root box `b` stands for, if any: the principal box of
/// an atomic inline element inside no other atomic inline, or the table
/// wrapper above it when it is an inline table's grid.
pub open spec fn atomic_root_of(
    tree: DocumentTree,
    boxes: Seq<GeneratedBox>,
    principal: Map<NodeId, BoxId>,
    atomic: Seq<bool>,
    b: BoxId,
) -> Option<BoxId> {
    match boxes[b as int].origin {
        BoxOrigin::Element(node) => if principal.contains_key(node) && principal[node] == b
            && atomic_inline_element(boxes, principal, atomic, node) && !atomic_above(
            tree,
            boxes,
            principal,
            atomic,
            node as int,
        ) {
            match boxes[b as int].parent {
                Some(w) => if boxes[b as int].internal_table == Some(InternalTableRole::Grid)
                    && boxes[w as int].internal_table == Some(InternalTableRole::Wrapper) {
                    Some(w)
                } else {
                    Some(b)
                },
                None => Some(b),
            }
        } else {
            None
        },
        _ => None,
    }
}

/// The atomic inline roots among the first `k` boxes, in box order.
pub open spec fn atomic_roots_upto(
    tree: DocumentTree,
    boxes: Seq<GeneratedBox>,
    principal: Map<NodeId, BoxId>,
    atomic: Seq<bool>,
    k: int,
) -> Seq<BoxId>
    decreases k,
{
    if k <= 0 {
        seq![]
    } else {
        atomic_roots_upto(tree, boxes, principal, atomic, k - 1) + match atomic_root_of(
            tree,
            boxes,
            principal,
            atomic,
            (k - 1) as BoxId,
        ) {
            Some(r) => seq![r],
            None => seq![],
        }
    }
}

fn atomic_flag(atomic: &Vec<bool>, node: NodeId) -> (flag: bool)
    ensures
        flag == node_flag(atomic@, node as int),
{
    let n = atomic.len() as u64;
    if node < n {
        atomic[node as usize]
    } else {
        false
    }
}

fn is_atomic_inline_element(boxes: &GeneratedBoxTree, atomic: &Vec<bool>, node: NodeId) -> (found: bool)
    ensures
        found == atomic_inline_element(boxes.spec_boxes(), boxes.spec_principal(), atomic@, node),
{
    match boxes.principal_box(node) {
        Some(p) => boxes.get(p).outside == Some(DisplayOutside::Inline) && atomic_flag(atomic, node),
        None => false,
    }
}

fn has_atomic_ancestor(tree: &DocumentTree, boxes: &GeneratedBoxTree, atomic: &Vec<bool>, node: NodeId) -> (found: bool)
    ensures
        found == atomic_above(*tree, boxes.spec_boxes(), boxes.spec_principal(), atomic@, node as int),
{
    let count = tree.node_count() as u64;
    if node >= count {
        return false;
    }
    let mut current = node as usize;
    loop
        invariant
            (current as int) < tree.len(),
            atomic_above(*tree, boxes.spec_boxes(), boxes.spec_principal(), atomic@, node as int) == atomic_above(
                *tree,
                boxes.spec_boxes(),
                boxes.spec_principal(),
                atomic@,
                current as int,
            ),
        decreases current,
    {
        match tree.parent(current) {
            Some(p) => {
                if is_atomic_inline_element(boxes, atomic, p as NodeId) {
                    return true;
                }
                current = p;
            },
            None => return false,
        }
    }
}

/// The boxes laid out as atomic inline subtrees before the page's inline
/// layout, in box order (`atomic[n]`: element `n` has an atomic inline
/// display, see [`is_atomic_inline_display`]; nodes are numbered as in
/// `tree`).
pub fn atomic_inline_roots(tree: &DocumentTree, boxes: &GeneratedBoxTree, atomic: &Vec<bool>) -> (roots: Vec<BoxId>)
    ensures
        roots@ == atomic_roots_upto(
            *tree,
            boxes.spec_boxes(),
            boxes.spec_principal(),
            atomic@,
            boxes.spec_boxes().len() as int,
        ),
{
    proof {
        use_type_invariant(boxes);
    }
    let count = boxes.len();
    let mut roots: Vec<BoxId> = Vec::new();
    let mut b: usize = 0;
    while b < count
        invariant
            count == boxes.spec_boxes().len(),
            tree_ordered(boxes.spec_boxes()),
            forall|node: NodeId| #[trigger]
                boxes.spec_principal().contains_key(node) ==> boxes.spec_principal()[node] < boxes.spec_boxes().len(),
            b <= count,
            roots@ == atomic_roots_upto(*tree, boxes.spec_boxes(), boxes.spec_principal(), atomic@, b as int),
        decreases count - b,
    {
        let id = b as u64;
        let generated = boxes.get(id);
        let mut found: Option<BoxId> = None;
        if let BoxOrigin::Element(node) = generated.origin {
            if boxes.principal_box(node) == Some(id) && is_atomic_inline_element(boxes, atomic, node)
                && !has_atomic_ancestor(tree, boxes, atomic, node) {
                found = match generated.parent {
                    Some(w) => {
                        if generated.internal_table == Some(InternalTableRole::Grid) && boxes.get(
                            w,
                        ).internal_table == Some(InternalTableRole::Wrapper) {
                            Some(w)
                        } else {
                            Some(id)
                        }
                    },
                    None => Some(id),
                };
            }
        }
        assert(found == atomic_root_of(*tree, boxes.spec_boxes(), boxes.spec_principal(), atomic@, id));
        if let Some(r) = found {
            roots.push(r);
        }
        proof {
            assert((b + 1 - 1) as BoxId == id);
            assert(roots@ =~= atomic_roots_upto(
                *tree,
                boxes.spec_boxes(),
                boxes.spec_principal(),
                atomic@,
                b + 1,
            ));
        }
        b = b + 1;
    }
    roots
}

} // verus!

