//! What painting one element emits around and before its children: its own
//! decorations, in painting order, and the transform, layer, clip and
//! scroll brackets that wrap its descendants, closed in the reverse order
//! they were opened.

use vstd::prelude::*;

verus! {

/// One decoration an element paints for itself.
#[derive(Clone, Copy, Debug, PartialEq, Eq, Structural)]
pub enum NodeDecoration {
    /// Background and borders of an inline box, painted along its lines.
    InlineDecoration,
    /// The image of an inline replaced element.
    InlineReplacedImage,
    Shadow,
    Background,
    /// The image of a block-level replaced element.
    ReplacedImage,
    Border,
}

/// What an element's own decorations depend on.
#[derive(Clone, Copy, Debug, PartialEq, Eq, Structural)]
pub struct DecorationFacts {
    /// `display: inline` or `inline-block`.
    pub inline_level: bool,
    /// Its background was propagated to the canvas.
    pub background_propagated: bool,
    /// A table paint model paints this element's backgrounds and borders.
    pub table_managed: bool,
    /// Its borders are collapsed table borders, painted with the table.
    pub collapsed_borders: bool,
    /// Its principal box has a paintable fragment.
    pub paintable: bool,
}

pub open spec fn decorations_of(f: DecorationFacts) -> Seq<NodeDecoration> {
    if f.inline_level {
        (if !f.background_propagated && !f.table_managed {
            seq![NodeDecoration::InlineDecoration]
        } else {
            seq![]
        }) + seq![NodeDecoration::InlineReplacedImage]
    } else if f.paintable && !f.table_managed {
        seq![NodeDecoration::Shadow] + (if !f.background_propagated {
            seq![NodeDecoration::Background]
        } else {
            seq![]
        }) + seq![NodeDecoration::ReplacedImage] + (if !f.collapsed_borders {
            seq![NodeDecoration::Border]
        } else {
            seq![]
        })
    } else {
        seq![]
    }
}

/// The decorations an element paints for itself, in painting order: the
/// shadow under the background, the replaced image over it, the border on
/// top. A propagated background is painted by the canvas, and a table that
/// manages the element paints its backgrounds and borders itself.
pub fn node_decorations(facts: &DecorationFacts) -> (decorations: Vec<NodeDecoration>)
    ensures
        decorations@ == decorations_of(*facts),
{
    let f = *facts;
    let mut decorations: Vec<NodeDecoration> = Vec::new();
    if f.inline_level {
        if !f.background_propagated && !f.table_managed {
            decorations.push(NodeDecoration::InlineDecoration);
        }
        decorations.push(NodeDecoration::InlineReplacedImage);
    } else if f.paintable && !f.table_managed {
        decorations.push(NodeDecoration::Shadow);
        if !f.background_propagated {
            decorations.push(NodeDecoration::Background);
        }
        decorations.push(NodeDecoration::ReplacedImage);
        if !f.collapsed_borders {
            decorations.push(NodeDecoration::Border);
        }
    }
    assert(decorations@ =~= decorations_of(f));
    decorations
}

/// A bracket wrapping an element's descendants.
#[derive(Clone, Copy, Debug, PartialEq, Eq, Structural)]
pub enum PaintBracket {
    /// The element's own transform.
    Transform,
    /// The layer of an element with opacity below one.
    Layer,
    /// An overflow clip, or the clip of a cell crossing a collapsed track.
    Clip,
    /// The translation of a nested scroller's offset.
    ScrollOffset,
}

/// What the brackets around one element depend on.
#[derive(Clone, Copy, Debug, PartialEq, Eq, Structural)]
pub struct BracketFacts {
    pub transformed: bool,
    pub translucent: bool,
    /// A block-level box whose overflow clips its descendants.
    pub overflow_clip: bool,
    /// A cell crossing a collapsed track, clipped at its accepted edge.
    pub collapsed_track_clip: bool,
    /// A nested scroller with a nonzero offset.
    pub scrolled: bool,
}

pub open spec fn opening_brackets(f: BracketFacts) -> Seq<PaintBracket> {
    (if f.transformed {
        seq![PaintBracket::Transform]
    } else {
        seq![]
    }) + (if f.translucent {
        seq![PaintBracket::Layer]
    } else {
        seq![]
    }) + (if f.overflow_clip {
        seq![PaintBracket::Clip]
    } else {
        seq![]
    }) + (if f.collapsed_track_clip {
        seq![PaintBracket::Clip]
    } else {
        seq![]
    }) + (if f.scrolled {
        seq![PaintBracket::ScrollOffset]
    } else {
        seq![]
    })
}

/// The brackets an element opens, in order: its transform and opacity layer
/// before its own decorations, then its clips and the scroll offset, after
/// the decorations and before its descendants.
pub fn open_brackets(facts: &BracketFacts) -> (brackets: Vec<PaintBracket>)
    ensures
        brackets@ == opening_brackets(*facts),
{
    let f = *facts;
    let mut brackets: Vec<PaintBracket> = Vec::new();
    if f.transformed {
        brackets.push(PaintBracket::Transform);
    }
    if f.translucent {
        brackets.push(PaintBracket::Layer);
    }
    if f.overflow_clip {
        brackets.push(PaintBracket::Clip);
    }
    if f.collapsed_track_clip {
        brackets.push(PaintBracket::Clip);
    }
    if f.scrolled {
        brackets.push(PaintBracket::ScrollOffset);
    }
    assert(brackets@ =~= opening_brackets(f));
    brackets
}

/// The brackets closed after an element's descendants: those it opened, in
/// the reverse order.
pub fn close_brackets(facts: &BracketFacts) -> (brackets: Vec<PaintBracket>)
    ensures
        brackets@ == opening_brackets(*facts).reverse(),
{
    let opened = open_brackets(facts);
    let mut brackets: Vec<PaintBracket> = Vec::new();
    let mut k: usize = opened.len();
    while k > 0
        invariant
            k <= opened@.len(),
            brackets@ == opened@.subrange(k as int, opened@.len() as int).reverse(),
        decreases k,
    {
        k = k - 1;
        brackets.push(opened[k]);
        assert(opened@.subrange(k as int, opened@.len() as int) =~= seq![opened@[k as int]] + opened@.subrange(
            k + 1,
            opened@.len() as int,
        ));
        assert(brackets@ =~= opened@.subrange(k as int, opened@.len() as int).reverse());
    }
    assert(opened@.subrange(0, opened@.len() as int) =~= opened@);
    brackets
}

} // verus!
