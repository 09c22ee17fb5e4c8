use genet_livery::replaced::{replaced_sizing_plan, ReplacedSizingFacts, ReplacedSizingPlan};

fn canvas() -> ReplacedSizingFacts {
    ReplacedSizingFacts {
        has_natural_size: true,
        natural_width_positive: true,
        natural_height_positive: true,
        width_definite: false,
        height_definite: false,
        width_auto: true,
        height_auto: true,
        uses_natural_ratio: true,
        content_box: true,
        block_level_flow: true,
    }
}

fn plan(expose: bool, width: bool, height: bool, border_box: bool) -> ReplacedSizingPlan {
    ReplacedSizingPlan {
        expose_natural_ratio: expose,
        natural_width: width,
        natural_height: height,
        border_box_resolution: border_box,
    }
}

#[test]
fn a_block_canvas_takes_its_natural_width() {
    assert_eq!(replaced_sizing_plan(&canvas()), plan(true, true, false, false));
}

#[test]
fn a_non_auto_height_transfers_through_the_ratio() {
    let mut facts = canvas();
    facts.height_auto = false;
    facts.height_definite = true;
    assert_eq!(replaced_sizing_plan(&facts), plan(true, false, false, false));
    facts.width_auto = false;
    facts.width_definite = true;
    assert_eq!(replaced_sizing_plan(&facts), plan(false, false, false, false));
}

#[test]
fn border_box_takes_the_min_max_route() {
    let mut facts = canvas();
    facts.content_box = false;
    assert_eq!(replaced_sizing_plan(&facts), plan(true, false, false, true));
}

#[test]
fn inline_items_and_author_ratios_keep_the_measure_path() {
    let mut facts = canvas();
    facts.block_level_flow = false;
    assert_eq!(replaced_sizing_plan(&facts), plan(true, false, false, false));
    let mut facts = canvas();
    facts.uses_natural_ratio = false;
    assert_eq!(replaced_sizing_plan(&facts), plan(false, false, false, false));
}

#[test]
fn without_a_ratio_both_natural_axes_are_used() {
    let mut facts = canvas();
    facts.natural_height_positive = false;
    assert_eq!(replaced_sizing_plan(&facts), plan(false, true, false, false));
    let mut facts = canvas();
    facts.natural_width_positive = false;
    assert_eq!(replaced_sizing_plan(&facts), plan(false, false, true, false));
}
