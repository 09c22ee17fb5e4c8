//! How a replaced element's natural size reaches the layout backend.
//!
//! The natural ratio is exposed only while some axis still needs intrinsic
//! resolution. A block-level replaced element in normal flow resolves
//! `width: auto` to its natural width (CSS 2.1 10.3.4) when nothing else
//! decides the width: not in a flex or grid item, not under an author
//! `aspect-ratio`, not when a non-auto height transfers through the natural
//! ratio, and not under `box-sizing: border-box`, where both axes take the
//! ratio-preserving min/max route of CSS 2.1 10.4 instead.

use vstd::prelude::*;
use crate::text::eq_ascii_case_insensitive;
use crate::text::eq_ignore_ascii_case;

verus! {

/// What the sizing of one replaced element reads.
#[derive(Clone, Copy, Debug, PartialEq, Eq, Structural)]
pub struct ReplacedSizingFacts {
    /// The element has a natural size at all.
    pub has_natural_size: bool,
    pub natural_width_positive: bool,
    pub natural_height_positive: bool,
    /// The computed width and height are definite lengths.
    pub width_definite: bool,
    pub height_definite: bool,
    /// The computed width and height are `auto`.
    pub width_auto: bool,
    pub height_auto: bool,
    /// `aspect-ratio` is `auto` (the natural ratio applies).
    pub uses_natural_ratio: bool,
    /// `box-sizing: content-box`.
    pub content_box: bool,
    /// Block-level and in normal flow (not a flex or grid item).
    pub block_level_flow: bool,
}

/// Which parts of the natural size the backend style receives.
#[derive(Clone, Copy, Debug, PartialEq, Eq, Structural)]
pub struct ReplacedSizingPlan {
    /// The natural ratio becomes the backend's aspect ratio.
    pub expose_natural_ratio: bool,
    /// The natural width becomes the definite width.
    pub natural_width: bool,
    /// The natural height becomes the definite height.
    pub natural_height: bool,
    /// Both axes are resolved through the CSS 2.1 10.4 table in content
    /// space and handed over as definite border-box lengths.
    pub border_box_resolution: bool,
}

/// The natural ratio exists: both natural dimensions are positive.
pub open spec fn has_natural_ratio(f: ReplacedSizingFacts) -> bool {
    f.has_natural_size && f.natural_width_positive && f.natural_height_positive
}

pub open spec fn replaced_sizing(f: ReplacedSizingFacts) -> ReplacedSizingPlan {
    let ratio = has_natural_ratio(f);
    let natural_route = f.has_natural_size && f.block_level_flow && f.uses_natural_ratio;
    ReplacedSizingPlan {
        expose_natural_ratio: f.uses_natural_ratio && ratio && !(f.width_definite && f.height_definite),
        natural_width: natural_route && f.content_box && f.width_auto && f.natural_width_positive && !(
        !f.height_auto && ratio),
        natural_height: natural_route && f.content_box && f.height_auto && !ratio && f.natural_height_positive,
        border_box_resolution: natural_route && !f.content_box && f.width_auto && f.height_auto && ratio,
    }
}

/// The natural-size plan for one replaced element.
pub fn replaced_sizing_plan(facts: &ReplacedSizingFacts) -> (plan: ReplacedSizingPlan)
    ensures
        plan == replaced_sizing(*facts),
{
    let f = *facts;
    let ratio = f.has_natural_size && f.natural_width_positive && f.natural_height_positive;
    let natural_route = f.has_natural_size && f.block_level_flow && f.uses_natural_ratio;
    let expose_natural_ratio = f.uses_natural_ratio && ratio && !(f.width_definite && f.height_definite);
    let mut natural_width = false;
    let mut natural_height = false;
    if natural_route && f.content_box {
        if f.width_auto && f.natural_width_positive && !(!f.height_auto && ratio) {
            natural_width = true;
        }
        if f.height_auto && !ratio && f.natural_height_positive {
            natural_height = true;
        }
    }
    let border_box_resolution = natural_route && !f.content_box && f.width_auto && f.height_auto && ratio;
    ReplacedSizingPlan { expose_natural_ratio, natural_width, natural_height, border_box_resolution }
}

/// At most one route fixes the natural size: the content-box route and the
/// border-box resolution never both apply, and with a natural ratio the
/// natural height is never forced (the ratio transfers it).
pub proof fn law_one_natural_size_route(facts: ReplacedSizingFacts)
    ensures
        !(replaced_sizing(facts).border_box_resolution && (replaced_sizing(facts).natural_width
            || replaced_sizing(facts).natural_height)),
        has_natural_ratio(facts) ==> !replaced_sizing(facts).natural_height,
{
}

/// Under `aspect-ratio: auto`, an element with a natural ratio (both
/// natural dimensions positive) exposes it exactly when its width and
/// height are not both definite; without a natural ratio, or under an
/// author `aspect-ratio`, none is exposed.
pub proof fn law_natural_ratio_while_an_axis_is_open(facts: ReplacedSizingFacts)
    ensures
        (facts.uses_natural_ratio && facts.has_natural_size && facts.natural_width_positive
            && facts.natural_height_positive) ==> (replaced_sizing(facts).expose_natural_ratio <==> !(
        facts.width_definite && facts.height_definite)),
        !(facts.uses_natural_ratio && facts.has_natural_size && facts.natural_width_positive
            && facts.natural_height_positive) ==> !replaced_sizing(facts).expose_natural_ratio,
{
}

/// The natural width is forced only on a content-box, block-level element
/// in normal flow under `aspect-ratio: auto` whose width is `auto` and whose
/// natural width is positive, and then exactly when no non-auto height can
/// transfer through a natural ratio.
pub proof fn law_natural_width_only_when_nothing_else_decides(facts: ReplacedSizingFacts)
    ensures
        replaced_sizing(facts).natural_width ==> facts.has_natural_size && facts.block_level_flow
            && facts.uses_natural_ratio && facts.content_box && facts.width_auto
            && facts.natural_width_positive,
        (facts.has_natural_size && facts.block_level_flow && facts.uses_natural_ratio && facts.content_box
            && facts.width_auto && facts.natural_width_positive) ==> (replaced_sizing(facts).natural_width
            <==> (facts.height_auto || !(facts.natural_width_positive && facts.natural_height_positive))),
{
}

/// The natural height is forced only where no natural ratio exists, on a
/// content-box, block-level element in normal flow under `aspect-ratio:
/// auto` with `height: auto` and a positive natural height; border-box
/// elements of that kind with both axes `auto` and a natural ratio take the
/// border-box resolution instead, and only they do.
pub proof fn law_natural_height_and_border_box_routes(facts: ReplacedSizingFacts)
    ensures
        replaced_sizing(facts).natural_height <==> (facts.has_natural_size && facts.block_level_flow
            && facts.uses_natural_ratio && facts.content_box && facts.height_auto
            && facts.natural_height_positive && !facts.natural_width_positive),
        replaced_sizing(facts).border_box_resolution <==> (facts.has_natural_size && facts.block_level_flow
            && facts.uses_natural_ratio && !facts.content_box && facts.width_auto && facts.height_auto
            && facts.natural_width_positive && facts.natural_height_positive),
{
}

/// The elements laid out as replaced content with a natural size: `img`
/// and `canvas`, ASCII case-insensitively.
pub fn is_replaced_element_name(local_name: &str) -> (replaced: bool)
    ensures
        replaced == (eq_ascii_case_insensitive(local_name@, seq!['i', 'm', 'g']) || eq_ascii_case_insensitive(
            local_name@,
            seq!['c', 'a', 'n', 'v', 'a', 's'],
        )),
{
    proof {
        reveal_strlit("img");
        reveal_strlit("canvas");
        assert("img"@ =~= seq!['i', 'm', 'g']);
        assert("canvas"@ =~= seq!['c', 'a', 'n', 'v', 'a', 's']);
    }
    eq_ignore_ascii_case(local_name, "img") || eq_ignore_ascii_case(local_name, "canvas")
}

} // verus!

