//! Plain-value core of the Livery document integration: HTML legacy color
//! parsing, the logical-to-physical flex and grid alignment projection, the
//! block-formatting projection and build plans of generated boxes, retained
//! formatting roots and atomic inline roots, retained table paint
//! bookkeeping, collapsed-text metrics, sibling counts, container-query
//! bases and the restyle loop's steps, replaced-element sizing, layout
//! damage tracking, the frame pipeline's lanes, the paint walk (canvas
//! background, stacking order, inline groups and their decorations, node
//! decorations and brackets, empty cells), scrolling, text selection, CSSOM
//! sheet identities and host-supplied resources.

pub mod legacy_color;
pub mod taffy_style;
pub mod tables;
pub mod text;
pub mod document;
pub mod cssom;
pub mod images;
pub mod retained;
pub mod scrolling;
pub mod resources;
pub mod stacking;
pub mod frame;
pub mod cell_content;
pub mod containers;
pub mod replaced;
pub mod node_paint;
pub mod selection;
pub mod inline_groups;
pub mod canvas;
pub mod sibling_counts;
