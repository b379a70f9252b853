//! Verified core of the minimap renderer: number and clock formatting,
//! colour tables, canvas layout arithmetic, text wrapping and the pixel
//! operations applied to ship icons.

pub mod canvas_image;
pub mod feeds;
pub mod icon_image;
pub mod icon_keys;
pub mod layout;
pub mod number_format;
pub mod palette;
pub mod panel_layout;
pub mod strings;
pub mod text_wrap;

use vstd::prelude::*;

verus! {

/// Minimap image size in pixels (square). Multiple of 16 for H.264 macroblock alignment.
pub const MINIMAP_SIZE: u32 = 1200;

/// Top margin for HUD elements (score bar, timer, kill feed).
pub const HUD_HEIGHT: u32 = 0;

/// Total canvas height: minimap + HUD.
pub const CANVAS_HEIGHT: u32 = MINIMAP_SIZE + HUD_HEIGHT;

/// Width of the stats side panel when enabled (16:10 default layout).
pub const STATS_PANEL_WIDTH: u32 = 720;

/// Width of the stats side panel in 16:9 aspect ratio mode.
pub const STATS_PANEL_WIDTH_16_9: u32 = 928;

/// Width of the vertical score strip on the left side of the minimap.
pub const VERTICAL_SCORE_STRIP_WIDTH: u32 = 112;

/// Width of the left and right outer empty margins in 16:9 Discord layout.
pub const CANVAS_MARGIN_WIDTH: u32 = 48;

/// Total canvas width for the 16:9 Discord layout: 48 + 112 + 1200 + 720 + 48 = 2128.
pub const CANVAS_WIDTH_16_9: u32 = 2128;

/// Halo thickness (in icon-pixel space) for the detected-teammate outline
/// drawn around ship icons. Both renderers pad the outline texture by this
/// amount on each side so the halo wraps fully around the icon's silhouette
/// instead of being clipped to the icon's bounding box.
pub const SHIP_ICON_OUTLINE_THICKNESS: u32 = 2;

} // verus!
