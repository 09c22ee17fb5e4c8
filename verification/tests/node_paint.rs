use genet_livery::node_paint::{
    close_brackets, node_decorations, open_brackets, BracketFacts, DecorationFacts,
    NodeDecoration, PaintBracket,
};

fn block() -> DecorationFacts {
    DecorationFacts {
        inline_level: false,
        background_propagated: false,
        table_managed: false,
        collapsed_borders: false,
        paintable: true,
    }
}

#[test]
fn block_decorations_paint_shadow_background_image_border() {
    assert_eq!(
        node_decorations(&block()),
        vec![
            NodeDecoration::Shadow,
            NodeDecoration::Background,
            NodeDecoration::ReplacedImage,
            NodeDecoration::Border
        ]
    );
    let mut facts = block();
    facts.background_propagated = true;
    facts.collapsed_borders = true;
    assert_eq!(node_decorations(&facts), vec![NodeDecoration::Shadow, NodeDecoration::ReplacedImage]);
    facts.table_managed = true;
    assert!(node_decorations(&facts).is_empty());
    let mut facts = block();
    facts.paintable = false;
    assert!(node_decorations(&facts).is_empty());
}

#[test]
fn inline_decorations_follow_the_lines() {
    let mut facts = block();
    facts.inline_level = true;
    facts.paintable = false;
    assert_eq!(
        node_decorations(&facts),
        vec![NodeDecoration::InlineDecoration, NodeDecoration::InlineReplacedImage]
    );
    facts.table_managed = true;
    assert_eq!(node_decorations(&facts), vec![NodeDecoration::InlineReplacedImage]);
}

#[test]
fn brackets_close_in_reverse() {
    let facts = BracketFacts {
        transformed: true,
        translucent: true,
        overflow_clip: true,
        collapsed_track_clip: true,
        scrolled: true,
    };
    assert_eq!(
        open_brackets(&facts),
        vec![
            PaintBracket::Transform,
            PaintBracket::Layer,
            PaintBracket::Clip,
            PaintBracket::Clip,
            PaintBracket::ScrollOffset
        ]
    );
    assert_eq!(
        close_brackets(&facts),
        vec![
            PaintBracket::ScrollOffset,
            PaintBracket::Clip,
            PaintBracket::Clip,
            PaintBracket::Layer,
            PaintBracket::Transform
        ]
    );
    let facts = BracketFacts {
        transformed: false,
        translucent: true,
        overflow_clip: false,
        collapsed_track_clip: false,
        scrolled: true,
    };
    assert_eq!(open_brackets(&facts), vec![PaintBracket::Layer, PaintBracket::ScrollOffset]);
    assert_eq!(close_brackets(&facts), vec![PaintBracket::ScrollOffset, PaintBracket::Layer]);
}
