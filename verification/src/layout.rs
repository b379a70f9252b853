//! Canvas geometry: which side panel the canvas reserves, how wide it is,
//! and where the HUD elements go.

use vstd::prelude::*;
use crate::number_format::div_toward_zero;
use crate::{CANVAS_HEIGHT, HUD_HEIGHT, MINIMAP_SIZE, STATS_PANEL_WIDTH, STATS_PANEL_WIDTH_16_9};

verus! {

/// The render options that decide the canvas layout.
pub struct RenderOptions {
    /// Reserve a self-perspective stats panel to the right of the minimap.
    pub show_stats_panel: bool,
}

/// Which side panel the CLI canvas should reserve space for.
#[derive(Debug, Clone, Copy, PartialEq, Eq, Structural)]
pub enum SidePanelLayout {
    /// Just the minimap.
    MinimapOnly,
    /// Self-perspective stats panel on the right.
    StatsPanel,
}

impl SidePanelLayout {
    /// The layout that the options ask for.
    pub fn from_options(opts: &RenderOptions) -> (layout: Self)
        ensures
            layout == (if opts.show_stats_panel {
                SidePanelLayout::StatsPanel
            } else {
                SidePanelLayout::MinimapOnly
            }),
    {
        if opts.show_stats_panel {
            SidePanelLayout::StatsPanel
        } else {
            SidePanelLayout::MinimapOnly
        }
    }
}

/// The size of the canvas and where the minimap and HUD sit on it.
#[derive(Debug, Clone, Copy, PartialEq, Eq, Structural)]
pub struct CanvasGeometry {
    /// Width of the whole canvas, side panel included.
    pub canvas_width: u32,
    /// Height of the whole canvas.
    pub canvas_height: u32,
    /// Width of the minimap area (excludes side panels).
    pub map_width: u32,
    /// Offset from the canvas's left edge to the minimap's left edge.
    pub map_x_offset: u32,
    /// Width of the HUD strip.
    pub hud_width: u32,
    /// Top edge of the minimap on the canvas (below the HUD strip).
    pub map_y_offset: u32,
}

/// `base` scaled by 1.8 and rounded to the nearest integer (halves up).
pub open spec fn scaled_panel_width(base: int) -> int {
    (base * 18 + 5) / 10
}

/// The stats panel width: the override when one is given, else the base
/// width of the aspect ratio (scaled by 1.8 for large elements); odd widths
/// are rounded up to the next even number.
pub open spec fn spec_panel_width(large_elements: bool, aspect_ratio_16_9: bool, width_override: Option<u32>) -> int {
    let base: int = if aspect_ratio_16_9 {
        STATS_PANEL_WIDTH_16_9 as int
    } else {
        STATS_PANEL_WIDTH as int
    };
    let w: int = match width_override {
        Some(o) => o as int,
        None => if large_elements {
            scaled_panel_width(base)
        } else {
            base
        },
    };
    if w % 2 != 0 {
        w + 1
    } else {
        w
    }
}

/// The canvas geometry of a layout.
pub open spec fn spec_canvas_geometry(
    layout: SidePanelLayout,
    large_elements: bool,
    aspect_ratio_16_9: bool,
    width_override: Option<u32>,
) -> CanvasGeometry {
    let panel = spec_panel_width(large_elements, aspect_ratio_16_9, width_override);
    CanvasGeometry {
        canvas_width: match layout {
            SidePanelLayout::MinimapOnly => MINIMAP_SIZE,
            SidePanelLayout::StatsPanel => (MINIMAP_SIZE + panel) as u32,
        },
        canvas_height: CANVAS_HEIGHT,
        map_width: MINIMAP_SIZE,
        map_x_offset: 0,
        hud_width: MINIMAP_SIZE,
        map_y_offset: HUD_HEIGHT,
    }
}

/// Canvas size and minimap placement for a side-panel layout: the minimap
/// sits at the left edge below the HUD strip, and the stats panel (when
/// there is one) takes `spec_panel_width` pixels to its right.
pub fn canvas_geometry(
    layout: SidePanelLayout,
    large_elements: bool,
    aspect_ratio_16_9: bool,
    stats_panel_width_override: Option<u32>,
) -> (g: CanvasGeometry)
    requires
        stats_panel_width_override != Some(u32::MAX),
        layout == SidePanelLayout::StatsPanel ==> MINIMAP_SIZE + spec_panel_width(
            large_elements,
            aspect_ratio_16_9,
            stats_panel_width_override,
        ) <= u32::MAX,
    ensures
        g == spec_canvas_geometry(layout, large_elements, aspect_ratio_16_9, stats_panel_width_override),
{
    let base_panel_width: u32 = if aspect_ratio_16_9 {
        STATS_PANEL_WIDTH_16_9
    } else {
        STATS_PANEL_WIDTH
    };
    let mut panel_width: u32 = match stats_panel_width_override {
        Some(ow) => ow,
        None => if large_elements {
            (base_panel_width * 18 + 5) / 10
        } else {
            base_panel_width
        },
    };
    if panel_width % 2 != 0 {
        panel_width = panel_width + 1;
    }
    let canvas_width: u32 = match layout {
        SidePanelLayout::MinimapOnly => MINIMAP_SIZE,
        SidePanelLayout::StatsPanel => MINIMAP_SIZE + panel_width,
    };
    CanvasGeometry {
        canvas_width,
        canvas_height: CANVAS_HEIGHT,
        map_width: MINIMAP_SIZE,
        map_x_offset: 0,
        hud_width: MINIMAP_SIZE,
        map_y_offset: HUD_HEIGHT,
    }
}

/// A pixel size read as an `i32`, as `as i32` reads it: sizes above
/// `i32::MAX` wrap around to negative values.
pub open spec fn as_signed(v: u32) -> int {
    if v <= i32::MAX {
        v as int
    } else {
        v - 0x1_0000_0000
    }
}

/// Height of a subtitle (0 without one) and the gap before it.
pub open spec fn subtitle_extent(subtitle_h: Option<u32>) -> (int, int) {
    match subtitle_h {
        Some(h) => (h as int, 8),
        None => (0, 0),
    }
}

/// The placement of a `text_w` x `text_h` main text with an optional
/// subtitle of height `subtitle_h`, 8 pixels apart, centred as a block on a
/// `width` x `height` area; the subtitle goes above or below the main text.
/// Sizes are taken as `i32` values, as the drawing code reads them.
pub open spec fn spec_overlay_placement(
    width: u32,
    height: u32,
    text_w: u32,
    text_h: u32,
    subtitle_h: Option<u32>,
    subtitle_above: bool,
) -> OverlayPlacement {
    let (sub_h, gap) = subtitle_extent(subtitle_h);
    let total: int = text_h + gap + sub_h;
    let x = div_toward_zero(as_signed(width) - as_signed(text_w), 2);
    let center_y = div_toward_zero(as_signed(height) - as_signed(total as u32), 2);
    if subtitle_above {
        OverlayPlacement {
            x: x as i32,
            main_y: (center_y + as_signed(sub_h as u32) + gap) as i32,
            sub_y: center_y as i32,
        }
    } else {
        OverlayPlacement {
            x: x as i32,
            main_y: center_y as i32,
            sub_y: (center_y + as_signed(text_h) + gap) as i32,
        }
    }
}

/// The arithmetic of `spec_overlay_placement` stays within `u32` (the total
/// height) and `i32` (the positions).
pub open spec fn overlay_in_range(
    width: u32,
    height: u32,
    text_w: u32,
    text_h: u32,
    subtitle_h: Option<u32>,
    subtitle_above: bool,
) -> bool {
    let (sub_h, gap) = subtitle_extent(subtitle_h);
    let total: int = text_h + gap + sub_h;
    let center_y = div_toward_zero(as_signed(height) - as_signed(total as u32), 2);
    &&& total <= u32::MAX
    &&& i32::MIN <= as_signed(width) - as_signed(text_w) <= i32::MAX
    &&& i32::MIN <= as_signed(height) - as_signed(total as u32) <= i32::MAX
    &&& subtitle_above ==> i32::MIN <= center_y + as_signed(sub_h as u32) <= i32::MAX
    &&& subtitle_above ==> i32::MIN <= center_y + as_signed(sub_h as u32) + gap <= i32::MAX
    &&& !subtitle_above ==> i32::MIN <= center_y + as_signed(text_h) <= i32::MAX
    &&& !subtitle_above ==> i32::MIN <= center_y + as_signed(text_h) + gap <= i32::MAX
}

/// `v as i32` is `as_signed(v)`.
fn to_signed(v: u32) -> (s: i32)
    ensures
        s == as_signed(v),
{
    if v <= 0x7fff_ffff {
        v as i32
    } else {
        let r: i64 = v as i64 - 0x1_0000_0000;
        r as i32
    }
}

/// Where the battle-result text and its subtitle go.
#[derive(Debug, Clone, Copy, PartialEq, Eq, Structural)]
pub struct OverlayPlacement {
    /// Left edge of the main text.
    pub x: i32,
    /// Top of the main text.
    pub main_y: i32,
    /// Top of the subtitle.
    pub sub_y: i32,
}

/// Layout of the large centred battle result text and its subtitle.
pub fn result_overlay_layout(
    width: u32,
    height: u32,
    text_w: u32,
    text_h: u32,
    subtitle_h: Option<u32>,
    subtitle_above: bool,
) -> (p: OverlayPlacement)
    requires
        overlay_in_range(width, height, text_w, text_h, subtitle_h, subtitle_above),
    ensures
        p == spec_overlay_placement(width, height, text_w, text_h, subtitle_h, subtitle_above),
{
    let sub_h: u32 = match subtitle_h {
        Some(h) => h,
        None => 0,
    };
    let gap: i32 = if subtitle_h.is_some() {
        8
    } else {
        0
    };
    let total: u32 = text_h + gap as u32 + sub_h;
    let x: i32 = (to_signed(width) - to_signed(text_w)) / 2;
    let center_y: i32 = (to_signed(height) - to_signed(total)) / 2;
    if subtitle_above {
        OverlayPlacement { x, main_y: center_y + to_signed(sub_h) + gap, sub_y: center_y }
    } else {
        OverlayPlacement { x, main_y: center_y, sub_y: center_y + to_signed(text_h) + gap }
    }
}

/// Two `[x, y, w, h]` rectangles share some area.
pub open spec fn rects_overlap(a: [i32; 4], b: [i32; 4]) -> bool {
    &&& a[0] < b[0] + b[2]
    &&& a[0] + a[2] > b[0]
    &&& a[1] < b[1] + b[3]
    &&& a[1] + a[3] > b[1]
}

/// `r` overlaps one of the rectangles already placed.
pub open spec fn overlaps_any(placed: Seq<[i32; 4]>, r: [i32; 4]) -> bool {
    exists|i: int| 0 <= i < placed.len() && #[trigger] rects_overlap(placed[i], r)
}

/// Whether two `[x, y, w, h]` rectangles overlap.
pub fn rects_overlap_exec(a: &[i32; 4], b: &[i32; 4]) -> (o: bool)
    ensures
        o == rects_overlap(*a, *b),
{
    (a[0] as i64) < (b[0] as i64) + (b[2] as i64) && (a[0] as i64) + (a[2] as i64) > (b[0] as i64)
        && (a[1] as i64) < (b[1] as i64) + (b[3] as i64) && (a[1] as i64) + (a[3] as i64) > (b[1] as i64)
}

/// Chooses where a range-circle label goes: the first candidate rectangle
/// that overlaps no label placed so far in this frame, or the first
/// candidate when all of them collide. The choice is recorded in `placed`.
pub fn place_label(placed: &mut Vec<[i32; 4]>, candidates: &[[i32; 4]; 8]) -> (best: [i32; 4])
    ensures
        final(placed)@ == old(placed)@.push(best),
        (exists|i: int|
            0 <= i < 8 && best == candidates@[i] && !overlaps_any(old(placed)@, candidates@[i])
                && forall|j: int| 0 <= j < i ==> overlaps_any(old(placed)@, #[trigger] candidates@[j]))
            || (best == candidates@[0] && forall|j: int|
            0 <= j < 8 ==> overlaps_any(old(placed)@, #[trigger] candidates@[j])),
{
    let ghost prev = placed@;
    let mut k: usize = 0;
    while k < 8
        invariant
            placed@ == prev,
            prev == old(placed)@,
            k <= 8,
            forall|j: int| 0 <= j < k ==> overlaps_any(prev, #[trigger] candidates@[j]),
        decreases 8 - k,
    {
        let rect = candidates[k];
        let mut overlaps = false;
        let mut p: usize = 0;
        while p < placed.len()
            invariant
                placed@ == prev,
                prev == old(placed)@,
                k < 8,
                rect == candidates@[k as int],
                p <= placed@.len(),
                overlaps == exists|i: int| 0 <= i < p && #[trigger] rects_overlap(prev[i], rect),
            decreases placed@.len() - p,
        {
            if rects_overlap_exec(&placed[p], &rect) {
                overlaps = true;
            }
            p = p + 1;
        }
        if !overlaps {
            assert(!overlaps_any(prev, candidates@[k as int]));
            placed.push(rect);
            return rect;
        }
        assert(overlaps_any(prev, candidates@[k as int]));
        k = k + 1;
    }
    let best = candidates[0];
    placed.push(best);
    best
}

/// Gap in pixels between a ship-config circle and its label.
pub const CONFIG_LABEL_GAP: i32 = 3;

/// The horizontal and vertical direction (each -1, 0 or 1) of the `k`-th
/// label position around a circle: top, top-right, right, bottom-right,
/// bottom, bottom-left, left, top-left.
pub open spec fn label_direction(k: int) -> (int, int) {
    if k == 0 {
        (0, -1)
    } else if k == 1 {
        (1, -1)
    } else if k == 2 {
        (1, 0)
    } else if k == 3 {
        (1, 1)
    } else if k == 4 {
        (0, 1)
    } else if k == 5 {
        (-1, 1)
    } else if k == 6 {
        (-1, 0)
    } else {
        (-1, -1)
    }
}

/// Offset of the anchor point along one axis: `axial` pixels for a straight
/// direction, `diagonal` pixels for a diagonal one, signed by the direction.
pub open spec fn anchor_offset(dir: int, other: int, axial: int, diagonal: int) -> int {
    let len = if other == 0 {
        axial
    } else {
        diagonal
    };
    if dir < 0 {
        -len
    } else if dir > 0 {
        len
    } else {
        0
    }
}

/// Left (or top) edge of a label of size `size` anchored at `a`: ending at
/// the anchor when it points to the negative side, starting there when it
/// points to the positive side, centred on it otherwise.
pub open spec fn label_edge(a: int, dir: int, size: int) -> int {
    if dir < 0 {
        a - size
    } else if dir > 0 {
        a
    } else {
        a - div_toward_zero(size, 2)
    }
}

/// The anchor `(ax, ay)` and label edges `(lx, ly)` of the `k`-th candidate
/// for a `tw` x `th` label around the circle centred at `(cx, cy)`.
pub open spec fn config_label_geometry(
    cx: int,
    cy: int,
    axial: int,
    diagonal: int,
    tw: int,
    th: int,
    k: int,
) -> (int, int, int, int) {
    let (dx, dy) = label_direction(k);
    let ax = cx + anchor_offset(dx, dy, axial, diagonal);
    let ay = cy + anchor_offset(dy, dx, axial, diagonal);
    (ax, ay, label_edge(ax, dx, tw), label_edge(ay, dy, th))
}

/// Every coordinate of every candidate fits an `i32`.
pub open spec fn config_label_fits(cx: int, cy: int, axial: int, diagonal: int, tw: int, th: int) -> bool {
    forall|k: int|
        0 <= k < 8 ==> {
            let g = #[trigger] config_label_geometry(cx, cy, axial, diagonal, tw, th, k);
            &&& i32::MIN <= g.0 <= i32::MAX
            &&& i32::MIN <= g.1 <= i32::MAX
            &&& i32::MIN <= g.2 <= i32::MAX
            &&& i32::MIN <= g.3 <= i32::MAX
        }
}

/// The `[x, y, w, h]` rectangle of the `k`-th candidate.
pub open spec fn config_label_rect(cx: int, cy: int, axial: int, diagonal: int, tw: i32, th: i32, k: int) -> [i32; 4] {
    let g = config_label_geometry(cx, cy, axial, diagonal, tw as int, th as int, k);
    [g.2 as i32, g.3 as i32, tw, th]
}

/// One candidate rectangle (see `config_label_rect`).
fn config_label_candidate(cx: i32, cy: i32, axial: i32, diagonal: i32, tw: i32, th: i32, dx: i32, dy: i32) -> (r: [i32; 4])
    requires
        -1 <= dx <= 1,
        -1 <= dy <= 1,
        ({
            let ax = cx + anchor_offset(dx as int, dy as int, axial as int, diagonal as int);
            let ay = cy + anchor_offset(dy as int, dx as int, axial as int, diagonal as int);
            &&& i32::MIN <= ax <= i32::MAX
            &&& i32::MIN <= ay <= i32::MAX
            &&& i32::MIN <= label_edge(ax, dx as int, tw as int) <= i32::MAX
            &&& i32::MIN <= label_edge(ay, dy as int, th as int) <= i32::MAX
        }),
    ensures
        ({
            let ax = cx + anchor_offset(dx as int, dy as int, axial as int, diagonal as int);
            let ay = cy + anchor_offset(dy as int, dx as int, axial as int, diagonal as int);
            r == [label_edge(ax, dx as int, tw as int) as i32, label_edge(ay, dy as int, th as int) as i32, tw, th]
        }),
{
    let ox: i64 = if dx == 0 {
        0
    } else if dy == 0 {
        axial as i64
    } else {
        diagonal as i64
    };
    let oy: i64 = if dy == 0 {
        0
    } else if dx == 0 {
        axial as i64
    } else {
        diagonal as i64
    };
    let ax: i64 = if dx < 0 {
        cx as i64 - ox
    } else {
        cx as i64 + ox
    };
    let ay: i64 = if dy < 0 {
        cy as i64 - oy
    } else {
        cy as i64 + oy
    };
    let lx: i64 = if dx < 0 {
        ax - tw as i64
    } else if dx > 0 {
        ax
    } else {
        ax - (tw / 2) as i64
    };
    let ly: i64 = if dy < 0 {
        ay - th as i64
    } else if dy > 0 {
        ay
    } else {
        ay - (th / 2) as i64
    };
    [lx as i32, ly as i32, tw, th]
}

/// The eight candidate rectangles for the label of a ship-config circle
/// centred at `(cx, cy)`: `axial` is the anchor distance along the axes
/// (radius plus gap) and `diagonal` along the diagonals, both measured by
/// the caller.
pub fn config_label_candidates(cx: i32, cy: i32, axial: i32, diagonal: i32, tw: i32, th: i32) -> (c: [[i32; 4]; 8])
    requires
        config_label_fits(cx as int, cy as int, axial as int, diagonal as int, tw as int, th as int),
    ensures
        forall|k: int| 0 <= k < 8 ==> #[trigger] c@[k] == config_label_rect(cx as int, cy as int, axial as int, diagonal as int, tw, th, k),
{
    proof {
        // Bring each candidate's bounds out of `config_label_fits`.
        let g = |k: int| config_label_geometry(cx as int, cy as int, axial as int, diagonal as int, tw as int, th as int, k);
        let (g0, g1, g2, g3, g4, g5, g6, g7) = (g(0), g(1), g(2), g(3), g(4), g(5), g(6), g(7));
    }
    let c = [
        config_label_candidate(cx, cy, axial, diagonal, tw, th, 0, -1),
        config_label_candidate(cx, cy, axial, diagonal, tw, th, 1, -1),
        config_label_candidate(cx, cy, axial, diagonal, tw, th, 1, 0),
        config_label_candidate(cx, cy, axial, diagonal, tw, th, 1, 1),
        config_label_candidate(cx, cy, axial, diagonal, tw, th, 0, 1),
        config_label_candidate(cx, cy, axial, diagonal, tw, th, -1, 1),
        config_label_candidate(cx, cy, axial, diagonal, tw, th, -1, 0),
        config_label_candidate(cx, cy, axial, diagonal, tw, th, -1, -1),
    ];
    assert forall|k: int| 0 <= k < 8 implies #[trigger] c@[k] == config_label_rect(cx as int, cy as int, axial as int, diagonal as int, tw, th, k) by {
        assert(c@[k] == c[k]);
    }
    c
}

/// The labels placed so far in the current frame, so that later labels can
/// avoid them.
pub struct LabelPlacer {
    placed: Vec<[i32; 4]>,
}

impl View for LabelPlacer {
    type V = Seq<[i32; 4]>;

    closed spec fn view(&self) -> Seq<[i32; 4]> {
        self.placed@
    }
}

impl LabelPlacer {
    /// A placer with no label placed.
    pub fn new() -> (p: LabelPlacer)
        ensures
            p@ == Seq::<[i32; 4]>::empty(),
    {
        LabelPlacer { placed: Vec::new() }
    }

    /// Starts a new frame: every label of the previous frame is forgotten.
    pub fn begin_frame(&mut self)
        ensures
            final(self)@ == Seq::<[i32; 4]>::empty(),
    {
        self.placed.clear();
    }

    /// The rectangles placed so far, oldest first.
    pub fn placed(&self) -> (r: &[[i32; 4]])
        ensures
            r@ == self@,
    {
        self.placed.as_slice()
    }

    /// Places a label at the first candidate that overlaps no label placed
    /// in this frame (the first candidate when all collide) and records it.
    pub fn place(&mut self, candidates: &[[i32; 4]; 8]) -> (best: [i32; 4])
        ensures
            final(self)@ == old(self)@.push(best),
            (exists|i: int|
                0 <= i < 8 && best == candidates@[i] && !overlaps_any(old(self)@, candidates@[i])
                    && forall|j: int| 0 <= j < i ==> overlaps_any(old(self)@, #[trigger] candidates@[j]))
                || (best == candidates@[0] && forall|j: int|
                0 <= j < 8 ==> overlaps_any(old(self)@, #[trigger] candidates@[j])),
    {
        place_label(&mut self.placed, candidates)
    }

    /// Places the label of a ship-config circle (see
    /// `config_label_candidates`) and records it.
    pub fn place_config_label(&mut self, cx: i32, cy: i32, axial: i32, diagonal: i32, tw: i32, th: i32) -> (best: [i32; 4])
        requires
            config_label_fits(cx as int, cy as int, axial as int, diagonal as int, tw as int, th as int),
        ensures
            final(self)@ == old(self)@.push(best),
            (exists|i: int|
                0 <= i < 8 && best == config_label_rect(cx as int, cy as int, axial as int, diagonal as int, tw, th, i)
                    && !overlaps_any(old(self)@, config_label_rect(cx as int, cy as int, axial as int, diagonal as int, tw, th, i))
                    && forall|j: int| 0 <= j < i ==> overlaps_any(old(self)@, #[trigger] config_label_rect(cx as int, cy as int, axial as int, diagonal as int, tw, th, j)))
                || (best == config_label_rect(cx as int, cy as int, axial as int, diagonal as int, tw, th, 0) && forall|j: int|
                0 <= j < 8 ==> overlaps_any(old(self)@, #[trigger] config_label_rect(cx as int, cy as int, axial as int, diagonal as int, tw, th, j))),
    {
        let candidates = config_label_candidates(cx, cy, axial, diagonal, tw, th);
        let ghost before = self@;
        let best = self.place(&candidates);
        proof {
            let rect = |k: int| config_label_rect(cx as int, cy as int, axial as int, diagonal as int, tw, th, k);
            assert forall|j: int| 0 <= j < 8 implies candidates@[j] == rect(j) by {}
            if exists|i: int|
                0 <= i < 8 && best == candidates@[i] && !overlaps_any(before, candidates@[i])
                    && forall|j: int| 0 <= j < i ==> overlaps_any(before, #[trigger] candidates@[j]) {
                let i = choose|i: int|
                    0 <= i < 8 && best == candidates@[i] && !overlaps_any(before, candidates@[i])
                        && forall|j: int| 0 <= j < i ==> overlaps_any(before, #[trigger] candidates@[j]);
                assert(candidates@[i] == rect(i));
                assert forall|j: int| 0 <= j < i implies overlaps_any(before, #[trigger] config_label_rect(cx as int, cy as int, axial as int, diagonal as int, tw, th, j)) by {
                    assert(candidates@[j] == rect(j));
                }
            } else {
                assert(candidates@[0] == rect(0));
                assert forall|j: int| 0 <= j < 8 implies overlaps_any(before, #[trigger] config_label_rect(cx as int, cy as int, axial as int, diagonal as int, tw, th, j)) by {
                    assert(candidates@[j] == rect(j));
                }
            }
        }
        best
    }
}

/// The stats panel always has an even width, at least the requested one and
/// at most one pixel more; without a side panel the canvas is exactly the
/// minimap, with one it is the minimap plus the panel.
pub proof fn law_panel_width_even(
    layout: SidePanelLayout,
    large_elements: bool,
    aspect_ratio_16_9: bool,
    width_override: Option<u32>,
)
    requires
        layout == SidePanelLayout::StatsPanel ==> MINIMAP_SIZE + spec_panel_width(
            large_elements,
            aspect_ratio_16_9,
            width_override,
        ) <= u32::MAX,
    ensures
        spec_panel_width(large_elements, aspect_ratio_16_9, width_override) % 2 == 0,
        width_override matches Some(o) ==> o <= spec_panel_width(
            large_elements,
            aspect_ratio_16_9,
            width_override,
        ) <= o + 1,
        spec_canvas_geometry(layout, large_elements, aspect_ratio_16_9, width_override).canvas_width
            == MINIMAP_SIZE + (if layout == SidePanelLayout::StatsPanel {
            spec_panel_width(large_elements, aspect_ratio_16_9, width_override)
        } else {
            0
        }),
        spec_canvas_geometry(layout, large_elements, aspect_ratio_16_9, width_override).canvas_height
            == MINIMAP_SIZE + HUD_HEIGHT,
{
}

/// Without a subtitle the main text sits at the same place whichever side
/// the subtitle would have gone on: centred horizontally and vertically.
pub proof fn law_overlay_without_subtitle_ignores_side(width: u32, height: u32, text_w: u32, text_h: u32)
    ensures
        spec_overlay_placement(width, height, text_w, text_h, None, true).x == spec_overlay_placement(
            width,
            height,
            text_w,
            text_h,
            None,
            false,
        ).x,
        spec_overlay_placement(width, height, text_w, text_h, None, true).main_y == spec_overlay_placement(
            width,
            height,
            text_w,
            text_h,
            None,
            false,
        ).main_y,
        spec_overlay_placement(width, height, text_w, text_h, None, false).x == (div_toward_zero(
            as_signed(width) - as_signed(text_w),
            2,
        ) as i32),
        spec_overlay_placement(width, height, text_w, text_h, None, false).main_y == (div_toward_zero(
            as_signed(height) - as_signed(text_h),
            2,
        ) as i32),
{
}

/// Without an override the stats panel is 720 pixels wide (928 in 16:9),
/// and with large elements 1.8 times that rounded to the nearest pixel and
/// then up to an even width: 1296 (1670 in 16:9). Large elements never
/// give a narrower panel.
pub proof fn law_default_panel_widths(large_elements: bool, aspect_ratio_16_9: bool)
    ensures
        spec_panel_width(false, false, None) == 720,
        spec_panel_width(false, true, None) == 928,
        spec_panel_width(true, false, None) == 1296,
        spec_panel_width(true, true, None) == 1670,
        spec_panel_width(true, aspect_ratio_16_9, None) >= spec_panel_width(false, aspect_ratio_16_9, None),
        10 * spec_panel_width(true, aspect_ratio_16_9, None) - 18 * spec_panel_width(
            false,
            aspect_ratio_16_9,
            None,
        ) <= 15,
        18 * spec_panel_width(false, aspect_ratio_16_9, None) - 10 * spec_panel_width(
            true,
            aspect_ratio_16_9,
            None,
        ) <= 5,
{
}

/// Overlap of label rectangles does not depend on the order they are taken in.
pub proof fn law_rects_overlap_symmetric(a: [i32; 4], b: [i32; 4])
    ensures
        rects_overlap(a, b) == rects_overlap(b, a),
{
}

} // verus!