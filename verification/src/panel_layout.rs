//! Geometry of the self-perspective stats panel (silhouette column, metric
//! rows, consumable slots, ribbon grid) and of the HUD rows of team buffs,
//! consumable icons and teammate-table rows.
//!
//! Positions are returned as `i64`, so that no input `i32` can make the
//! arithmetic overflow.

use vstd::prelude::*;
use crate::number_format::div_toward_zero;

verus! {

/// A panel length `v` at the element scale: unchanged normally, times 1.8
/// rounded to the nearest pixel for large elements.
pub open spec fn sc(v: int, large: bool) -> int {
    if large {
        (v * 18 + 5) / 10
    } else {
        v
    }
}

fn scaled(v: i64, large: bool) -> (r: i64)
    requires
        0 <= v <= 1000,
    ensures
        r == sc(v as int, large),
{
    if large {
        (v * 18 + 5) / 10
    } else {
        v
    }
}

/// Vertical and horizontal placement of the stats panel's left column
/// (player and ship labels, silhouette, HP text, consumables) and of the
/// emblem in the right column.
#[derive(Debug, Clone, Copy, PartialEq, Eq, Structural)]
pub struct StatsColumnLayout {
    /// Padding inside the left column.
    pub padding: i64,
    /// Width of the left column (57% of the panel).
    pub left_w: i64,
    /// Left edge of the left column's content.
    pub inner_x: i64,
    /// Width of the left column's content.
    pub inner_w: i64,
    /// Horizontal centre of the right column.
    pub right_center_x: i64,
    /// Top of the stack (the player label).
    pub start_y: i64,
    /// Top of the ship-name label.
    pub ship_label_y: i64,
    /// Top of the emblem in the right column.
    pub emblem_y: i64,
    /// Side of the (square) emblem.
    pub emblem_size: i64,
    /// Top of the silhouette slot.
    pub silhouette_y: i64,
    /// Height of the silhouette slot.
    pub silhouette_h: i64,
    /// Top of the HP text.
    pub hp_text_y: i64,
    /// Top of the consumable row.
    pub consumables_y: i64,
    /// Height of the consumable row.
    pub consumables_h: i64,
}

/// Height of the label block: a player line and a ship line, each when shown.
pub open spec fn label_block_h(large: bool, show_player: bool, show_ship: bool) -> int {
    (if show_player {
        sc(22, large)
    } else {
        0
    }) + (if show_ship {
        sc(24, large)
    } else {
        0
    })
}

/// Height of the whole left stack.
pub open spec fn left_stack_h(large: bool, show_player: bool, show_ship: bool) -> int {
    label_block_h(large, show_player, show_ship) + sc(12, large) + sc(90, large) + sc(10, large) + sc(
        20,
        large,
    ) + sc(14, large) + sc(32, large)
}

/// The stats panel column layout of a panel at `(x, y)` of size
/// `width` x `height`: the left stack is placed a quarter of the free height
/// below the top; the right column's centre is in the middle of the 43% right
/// of the left column.
pub fn stats_column_layout(
    x: i32,
    y: i32,
    width: i32,
    height: i32,
    large: bool,
    show_player: bool,
    show_ship: bool,
) -> (l: StatsColumnLayout)
    ensures
        l.padding == sc(8, large),
        l.left_w == div_toward_zero(width * 57, 100),
        l.inner_x == x + sc(8, large),
        l.inner_w == l.left_w - 2 * sc(8, large),
        l.right_center_x == x + l.left_w + div_toward_zero(width - l.left_w, 2),
        l.start_y == y + (if height - left_stack_h(large, show_player, show_ship) > 0 {
            height - left_stack_h(large, show_player, show_ship)
        } else {
            0
        }) / 4,
        l.ship_label_y == l.start_y + (if show_player {
            sc(22, large)
        } else {
            0
        }),
        l.emblem_y == l.start_y + sc(4, large),
        l.emblem_size == sc(72, large),
        l.silhouette_y == l.start_y + label_block_h(large, show_player, show_ship) + sc(12, large),
        l.silhouette_h == sc(90, large),
        l.hp_text_y == l.silhouette_y + sc(90, large) + sc(10, large),
        l.consumables_y == l.hp_text_y + sc(20, large) + sc(14, large),
        l.consumables_h == sc(32, large),
{
    let padding = scaled(8, large);
    let left_w: i64 = (width as i64 * 57) / 100;
    let right_w: i64 = width as i64 - left_w;
    let inner_x: i64 = x as i64 + padding;
    let inner_w: i64 = left_w - 2 * padding;
    let right_center_x: i64 = x as i64 + left_w + right_w / 2;
    let player_h: i64 = if show_player {
        scaled(22, large)
    } else {
        0
    };
    let ship_h: i64 = if show_ship {
        scaled(24, large)
    } else {
        0
    };
    let text_group_h: i64 = player_h + ship_h;
    let gap1 = scaled(12, large);
    let target_sil_h = scaled(90, large);
    let gap2 = scaled(10, large);
    let hp_text_h = scaled(20, large);
    let gap3 = scaled(14, large);
    let cons_size = scaled(32, large);
    let left_total_h: i64 = text_group_h + gap1 + target_sil_h + gap2 + hp_text_h + gap3 + cons_size;
    let free: i64 = height as i64 - left_total_h;
    let start_y: i64 = y as i64 + (if free > 0 {
        free
    } else {
        0
    }) / 4;
    let silhouette_y: i64 = start_y + text_group_h + gap1;
    let hp_text_y: i64 = silhouette_y + target_sil_h + gap2;
    StatsColumnLayout {
        padding,
        left_w,
        inner_x,
        inner_w,
        right_center_x,
        start_y,
        ship_label_y: start_y + player_h,
        emblem_y: start_y + scaled(4, large),
        emblem_size: scaled(72, large),
        silhouette_y,
        silhouette_h: target_sil_h,
        hp_text_y,
        consumables_y: hp_text_y + hp_text_h + gap3,
        consumables_h: cons_size,
    }
}

/// The tops of the label and value lines of each metric (damage, spotting,
/// potential and, in the inkpads layout, uWPA) in the right column: the
/// metrics fill the region from below the emblem to the bottom of the
/// consumable row, spaced evenly with at least 3 pixels between them, the
/// block centred when it is shorter than the region (at least 100 pixels).
pub open spec fn spec_metric_first_y(col: StatsColumnLayout, large: bool, count: int) -> int {
    let start = col.emblem_y + sc(72, large) + sc(16, large);
    let end = col.consumables_y + col.consumables_h;
    let region = if end - start > 100 {
        end - start
    } else {
        100
    };
    let unspaced = count * sc(14, large) + count * sc(19, large);
    let gap = spec_metric_gap(col, large, count);
    let slack = region - (unspaced + (count - 1) * gap);
    start + (if slack > 0 {
        slack
    } else {
        0
    }) / 2
}

/// The gap between consecutive metrics.
pub open spec fn spec_metric_gap(col: StatsColumnLayout, large: bool, count: int) -> int {
    let start = col.emblem_y + sc(72, large) + sc(16, large);
    let end = col.consumables_y + col.consumables_h;
    let region = if end - start > 100 {
        end - start
    } else {
        100
    };
    let unspaced = count * sc(14, large) + count * sc(19, large);
    let g = div_toward_zero(region - unspaced, count - 1);
    if g > 3 {
        g
    } else {
        3
    }
}

/// Label and value line tops of the stats panel metrics.
pub fn stats_metric_rows(col: &StatsColumnLayout, large: bool, count: usize) -> (rows: Vec<(i64, i64)>)
    requires
        2 <= count <= 4,
        -0x1_0000_0000 <= col.emblem_y <= 0x1_0000_0000,
        -0x1_0000_0000 <= col.consumables_y <= 0x1_0000_0000,
        0 <= col.consumables_h <= 1000,
    ensures
        rows@.len() == count,
        forall|k: int|
            0 <= k < count ==> {
                &&& (#[trigger] rows@[k]).0 == spec_metric_first_y(*col, large, count as int) + k * (sc(
                    14,
                    large,
                ) + sc(19, large) + spec_metric_gap(*col, large, count as int))
                &&& rows@[k].1 == rows@[k].0 + sc(14, large)
            },
{
    let n: i64 = count as i64;
    let label_row_h = scaled(14, large);
    let value_row_h = scaled(19, large);
    let start: i64 = col.emblem_y + scaled(72, large) + scaled(16, large);
    let end: i64 = col.consumables_y + col.consumables_h;
    let region: i64 = if end - start > 100 {
        end - start
    } else {
        100
    };
    assert(0 <= n * label_row_h <= 4000 && 0 <= n * value_row_h <= 4000) by (nonlinear_arith)
        requires
            2 <= n <= 4,
            0 <= label_row_h <= 1000,
            0 <= value_row_h <= 1000,
    ;
    let unspaced: i64 = n * label_row_h + n * value_row_h;
    assert(-0x3_0000_0000 <= region <= 0x3_0000_0000);
    let diff: i64 = region - unspaced;
    let g: i64 = if diff >= 0 {
        assert(0 <= diff as int / (n - 1) as int <= diff) by (nonlinear_arith)
            requires
                2 <= n <= 4,
                0 <= diff,
        ;
        diff / (n - 1)
    } else {
        assert(0 <= (-diff) as int / (n - 1) as int <= -diff) by (nonlinear_arith)
            requires
                2 <= n <= 4,
                0 <= -diff,
        ;
        -((-diff) / (n - 1))
    };
    let gap: i64 = if g > 3 {
        g
    } else {
        3
    };
    assert(0 <= (n - 1) * gap <= 3 * 0x4_0000_0000) by (nonlinear_arith)
        requires
            2 <= n <= 4,
            3 <= gap <= 0x4_0000_0000,
    ;
    let slack: i64 = region - (unspaced + (n - 1) * gap);
    let first: i64 = start + (if slack > 0 {
        slack
    } else {
        0
    }) / 2;
    assert(gap == spec_metric_gap(*col, large, count as int));
    assert(first == spec_metric_first_y(*col, large, count as int));
    let step: i64 = label_row_h + value_row_h + gap;
    let mut rows: Vec<(i64, i64)> = Vec::new();
    let mut k: usize = 0;
    while k < count
        invariant
            k <= count,
            count <= 4,
            rows@.len() == k,
            0 <= label_row_h <= 1000,
            0 <= value_row_h <= 1000,
            -0x4_0000_0000 <= first <= 0x4_0000_0000,
            3 <= gap <= 0x4_0000_0000,
            step == label_row_h + value_row_h + gap,
            label_row_h == sc(14, large),
            value_row_h == sc(19, large),
            gap == spec_metric_gap(*col, large, count as int),
            first == spec_metric_first_y(*col, large, count as int),
            forall|j: int|
                0 <= j < k ==> (#[trigger] rows@[j]).0 == first + j * step && rows@[j].1 == first + j
                    * step + label_row_h,
        decreases count - k,
    {
        assert(0 <= (k as int) * step <= 4 * step) by (nonlinear_arith)
            requires
                0 <= k <= 4,
                0 <= step,
        ;
        let top: i64 = first + (k as i64) * step;
        rows.push((top, top + label_row_h));
        k = k + 1;
    }
    rows
}

/// Side of each consumable slot in the stats panel: the left column's
/// width shared among `count` slots with gaps between them, at most the
/// large slot size and at least 16 pixels.
pub open spec fn spec_consumable_slot_size(col: StatsColumnLayout, large: bool, count: int) -> int {
    let fitted = div_toward_zero(col.inner_w - sc(6, large) * (count - 1), count);
    let capped = if fitted < sc(36, large) {
        fitted
    } else {
        sc(36, large)
    };
    if capped > 16 {
        capped
    } else {
        16
    }
}

/// Left edge of the first consumable slot: the row of slots is centred in
/// the left column.
pub open spec fn spec_consumable_row_start(col: StatsColumnLayout, large: bool, count: int) -> int {
    let size = spec_consumable_slot_size(col, large, count);
    let total = count * size + (count - 1) * sc(6, large);
    col.inner_x + div_toward_zero(col.inner_w - total, 2)
}

/// Slot size and left edges of the consumable icons in the stats panel.
pub fn stats_consumable_slots(col: &StatsColumnLayout, large: bool, count: usize) -> (r: (i64, Vec<i64>))
    requires
        1 <= count <= i32::MAX,
        -0x4_0000_0000 <= col.inner_x <= 0x4_0000_0000,
        -0x4_0000_0000 <= col.inner_w <= 0x4_0000_0000,
    ensures
        r.0 == spec_consumable_slot_size(*col, large, count as int),
        r.1@.len() == count,
        forall|i: int|
            0 <= i < count ==> #[trigger] r.1@[i] == spec_consumable_row_start(*col, large, count as int)
                + i * (r.0 + sc(6, large)),
{
    let n: i64 = count as i64;
    let gap = scaled(6, large);
    let max_size = scaled(36, large);
    assert(0 <= gap * (n - 1) <= 65 * 0x8000_0000) by (nonlinear_arith)
        requires
            0 <= gap <= 65,
            1 <= n <= 0x7fff_ffff,
    ;
    let room: i64 = col.inner_w - gap * (n - 1);
    let fitted: i64 = if room >= 0 {
        assert(0 <= room as int / n as int <= room) by (nonlinear_arith)
            requires
                1 <= n,
                0 <= room,
        ;
        room / n
    } else {
        assert(0 <= (-room) as int / n as int <= -room) by (nonlinear_arith)
            requires
                1 <= n,
                0 <= -room,
        ;
        -((-room) / n)
    };
    let capped: i64 = if fitted < max_size {
        fitted
    } else {
        max_size
    };
    let size: i64 = if capped > 16 {
        capped
    } else {
        16
    };
    assert(size == spec_consumable_slot_size(*col, large, count as int));
    assert(16 * n <= n * size <= 65 * n) by (nonlinear_arith)
        requires
            16 <= size <= 65,
            1 <= n,
    ;
    let total: i64 = n * size + (n - 1) * gap;
    assert(0 <= total <= 0x80_0000_0000);
    let start: i64 = col.inner_x + (col.inner_w - total) / 2;
    assert(start == spec_consumable_row_start(*col, large, count as int));
    let step: i64 = size + gap;
    let mut xs: Vec<i64> = Vec::new();
    let mut i: usize = 0;
    while i < count
        invariant
            i <= count,
            count <= i32::MAX,
            16 <= step <= 130,
            -0x100_0000_0000 <= start <= 0x100_0000_0000,
            step == size + sc(6, large),
            start == spec_consumable_row_start(*col, large, count as int),
            xs@.len() == i,
            forall|j: int| 0 <= j < i ==> #[trigger] xs@[j] == start + j * step,
        decreases count - i,
    {
        assert(0 <= (i as int) * step <= 130 * 0x8000_0000) by (nonlinear_arith)
            requires
                0 <= i <= 0x7fff_ffff,
                0 <= step <= 130,
        ;
        xs.push(start + (i as i64) * step);
        i = i + 1;
    }
    (size, xs)
}

/// How many ribbon cells fit in a row `inner_w` pixels wide: as many cells
/// of `cell_w` as fit, but at least one.
pub open spec fn ribbon_row_capacity(cell_w: int, inner_w: int) -> int {
    if inner_w >= cell_w {
        inner_w / cell_w
    } else {
        1
    }
}

/// Cells in row `i` when `count` cells fill rows of `cap`: a full row, or
/// what is left for the last one.
pub open spec fn ribbon_row_len(count: int, cap: int, i: int) -> int {
    if count - i * cap >= cap {
        cap
    } else {
        count - i * cap
    }
}

/// Cells held by the first `k` rows.
pub open spec fn cells_in_first_rows(count: int, cap: int, k: nat) -> int
    decreases k,
{
    if k == 0 {
        0
    } else {
        cells_in_first_rows(count, cap, (k - 1) as nat) + ribbon_row_len(count, cap, k - 1)
    }
}

/// Groups `count` ribbon cells into rows: every row is filled to the row
/// capacity except the last, which holds the rest.
pub fn ribbon_rows(count: usize, cell_w: u32, inner_w: i32) -> (rows: Vec<usize>)
    requires
        cell_w > 0,
    ensures
        rows@.len() == (count + ribbon_row_capacity(cell_w as int, inner_w as int) - 1)
            / ribbon_row_capacity(cell_w as int, inner_w as int),
        forall|i: int|
            0 <= i < rows@.len() ==> #[trigger] rows@[i] == ribbon_row_len(
                count as int,
                ribbon_row_capacity(cell_w as int, inner_w as int),
                i,
            ),
{
    let cap: usize = if inner_w as i64 >= cell_w as i64 {
        (inner_w as u32 / cell_w) as usize
    } else {
        1
    };
    let ghost c = ribbon_row_capacity(cell_w as int, inner_w as int);
    assert(cap == c);
    assert(cap >= 1) by (nonlinear_arith)
        requires
            cap == c,
            c == ribbon_row_capacity(cell_w as int, inner_w as int),
            cell_w > 0,
    ;
    let mut rows: Vec<usize> = Vec::new();
    let mut placed: usize = 0;
    while placed < count
        invariant
            cap == c,
            cap >= 1,
            placed <= count,
            placed <= rows@.len() * cap,
            rows@.len() > 0 ==> placed > (rows@.len() - 1) * cap,
            rows@.len() == 0 ==> placed == 0,
            placed < count ==> placed == rows@.len() * cap,
            forall|i: int| 0 <= i < rows@.len() ==> #[trigger] rows@[i] == ribbon_row_len(count as int, c, i),
        decreases count - placed,
    {
        let left: usize = count - placed;
        let take: usize = if left >= cap {
            cap
        } else {
            left
        };
        let ghost k = rows@.len();
        assert(placed == k * cap);
        rows.push(take);
        placed = placed + take;
        assert(k * cap + cap == (k + 1) * cap) by (nonlinear_arith);
    }
    proof {
        let k = rows@.len() as int;
        if count == 0 {
            assert(k == 0);
            assert((count + cap - 1) / (cap as int) == 0) by (nonlinear_arith)
                requires
                    count == 0,
                    cap >= 1,
            ;
        } else {
            assert(k >= 1);
            assert((k - 1) * cap < count <= k * cap);
            assert((count + cap - 1) / (cap as int) == k) by (nonlinear_arith)
                requires
                    (k - 1) * cap < count <= k * cap,
                    cap >= 1,
            ;
        }
    }
    rows
}

/// Full rows before the last hold `cap` cells each.
proof fn lemma_full_rows(count: int, cap: int, k: nat)
    requires
        cap >= 1,
        k * cap <= count,
    ensures
        cells_in_first_rows(count, cap, k) == k * cap,
    decreases k,
{
    if k == 0 {
        assert(k * cap == 0) by (nonlinear_arith)
            requires
                k == 0,
        ;
    } else {
        assert((k - 1) * cap + cap == k * cap) by (nonlinear_arith);
        assert(0 <= (k - 1) * cap) by (nonlinear_arith)
            requires
                k >= 1,
                cap >= 1,
        ;
        lemma_full_rows(count, cap, (k - 1) as nat);
    }
}

/// Grouping ribbon cells into rows loses none and invents none: the rows
/// hold `count` cells in all, each row holds between one and `cap` of them.
pub proof fn law_ribbon_rows_hold_every_cell(count: nat, cap: int)
    requires
        cap >= 1,
    ensures
        ({
            let n = (count + cap - 1) / cap;
            &&& cells_in_first_rows(count as int, cap, n as nat) == count
            &&& forall|i: int| 0 <= i < n ==> 1 <= #[trigger] ribbon_row_len(count as int, cap, i) <= cap
        }),
{
    let n = (count + cap - 1) / cap;
    if count == 0 {
        assert(n == 0) by (nonlinear_arith)
            requires
                count == 0,
                cap >= 1,
                n == (count + cap - 1) / cap,
        ;
    } else {
        assert(n >= 1 && (n - 1) * cap < count <= n * cap) by (nonlinear_arith)
            requires
                count >= 1,
                cap >= 1,
                n == (count + cap - 1) / cap,
        ;
        lemma_full_rows(count as int, cap, (n - 1) as nat);
        assert((n - 1) * cap + cap == n * cap) by (nonlinear_arith);
        assert(ribbon_row_len(count as int, cap, n - 1) == count - (n - 1) * cap);
        assert forall|i: int| 0 <= i < n implies 1 <= #[trigger] ribbon_row_len(count as int, cap, i) <= cap by {
            assert(i * cap <= (n - 1) * cap) by (nonlinear_arith)
                requires
                    0 <= i <= n - 1,
                    cap >= 1,
            ;
        }
    }
}

/// Side of a team-buff icon on the HUD.
pub const BUFF_ICON_SIZE: i64 = 16;

/// Gap after each team-buff entry.
pub const BUFF_GAP: i64 = 2;

/// The horizontal room a team-buff entry takes: the icon, its count label
/// (only drawn for counts above one, `label_w` is then its width) and a gap.
pub open spec fn buff_step(label_w: Option<u32>) -> int {
    BUFF_ICON_SIZE + BUFF_GAP + match label_w {
        Some(w) => w as int,
        None => 0,
    }
}

/// The room taken by the first `k` team-buff entries.
pub open spec fn buff_offset(label_ws: Seq<Option<u32>>, k: int) -> int
    decreases k,
{
    if k <= 0 || k > label_ws.len() {
        0
    } else {
        buff_offset(label_ws, k - 1) + buff_step(label_ws[k - 1])
    }
}

/// Entries never take negative room.
pub proof fn lemma_buff_offset_monotone(label_ws: Seq<Option<u32>>, a: int, b: int)
    requires
        0 <= a <= b <= label_ws.len(),
    ensures
        0 <= buff_offset(label_ws, a) <= buff_offset(label_ws, b),
    decreases b,
{
    if b > a {
        lemma_buff_offset_monotone(label_ws, a, b - 1);
    } else if a > 0 {
        lemma_buff_offset_monotone(label_ws, a - 1, a - 1);
    }
}

/// Where one team-buff entry is drawn: the icon's centre and, for counts
/// above one, the left edge of the count label.
#[derive(Debug, Clone, Copy, PartialEq, Eq, Structural)]
pub struct BuffSlot {
    /// Horizontal centre of the icon.
    pub icon_center_x: i64,
    /// Left edge of the count label, when one is drawn.
    pub label_x: Option<i64>,
}

/// Team-buff entries laid out from `start_x` towards the right (friendly
/// buffs, each entry an icon followed by its count label) or towards the
/// left (enemy buffs, the count label at the outer end and the icon inside
/// it), each entry followed by a gap.
pub fn buff_row(start_x: i32, label_widths: &Vec<Option<u32>>, rightwards: bool) -> (slots: Vec<BuffSlot>)
    requires
        buff_offset(label_widths@, label_widths@.len() as int) <= 0x1_0000_0000_0000,
    ensures
        slots@.len() == label_widths@.len(),
        forall|k: int|
            0 <= k < slots@.len() ==> #[trigger] slots@[k] == (if rightwards {
                BuffSlot {
                    icon_center_x: (start_x + buff_offset(label_widths@, k) + BUFF_ICON_SIZE / 2) as i64,
                    label_x: match label_widths@[k] {
                        Some(w) => Some((start_x + buff_offset(label_widths@, k) + BUFF_ICON_SIZE) as i64),
                        None => None,
                    },
                }
            } else {
                BuffSlot {
                    icon_center_x: (start_x - buff_offset(label_widths@, k) - (match label_widths@[k] {
                        Some(w) => w as int,
                        None => 0,
                    }) - BUFF_ICON_SIZE / 2) as i64,
                    label_x: match label_widths@[k] {
                        Some(w) => Some((start_x - buff_offset(label_widths@, k) - w) as i64),
                        None => None,
                    },
                }
            }),
{
    let n = label_widths.len();
    let ghost total = buff_offset(label_widths@, n as int);
    let mut slots: Vec<BuffSlot> = Vec::new();
    let mut offset: i64 = 0;
    let mut k: usize = 0;
    while k < n
        invariant
            n == label_widths@.len(),
            k <= n,
            total == buff_offset(label_widths@, n as int),
            total <= 0x1_0000_0000_0000,
            offset == buff_offset(label_widths@, k as int),
            slots@.len() == k,
            forall|j: int|
                0 <= j < k ==> #[trigger] slots@[j] == (if rightwards {
                    BuffSlot {
                        icon_center_x: (start_x + buff_offset(label_widths@, j) + BUFF_ICON_SIZE / 2) as i64,
                        label_x: match label_widths@[j] {
                            Some(w) => Some((start_x + buff_offset(label_widths@, j) + BUFF_ICON_SIZE) as i64),
                            None => None,
                        },
                    }
                } else {
                    BuffSlot {
                        icon_center_x: (start_x - buff_offset(label_widths@, j) - (match label_widths@[j] {
                            Some(w) => w as int,
                            None => 0,
                        }) - BUFF_ICON_SIZE / 2) as i64,
                        label_x: match label_widths@[j] {
                            Some(w) => Some((start_x - buff_offset(label_widths@, j) - w) as i64),
                            None => None,
                        },
                    }
                }),
        decreases n - k,
    {
        proof {
            lemma_buff_offset_monotone(label_widths@, k as int, (k + 1) as int);
            lemma_buff_offset_monotone(label_widths@, (k + 1) as int, n as int);
        }
        let lw: i64 = match label_widths[k] {
            Some(w) => w as i64,
            None => 0,
        };
        let base: i64 = start_x as i64;
        let slot = if rightwards {
            BuffSlot {
                icon_center_x: base + offset + BUFF_ICON_SIZE / 2,
                label_x: match label_widths[k] {
                    Some(_) => Some(base + offset + BUFF_ICON_SIZE),
                    None => None,
                },
            }
        } else {
            BuffSlot {
                icon_center_x: base - offset - lw - BUFF_ICON_SIZE / 2,
                label_x: match label_widths[k] {
                    Some(w) => Some(base - offset - w as i64),
                    None => None,
                },
            }
        };
        slots.push(slot);
        offset = offset + BUFF_ICON_SIZE + BUFF_GAP + lw;
        k = k + 1;
    }
    slots
}

/// Height of a teammate-table row: the room under the header shared among
/// the rows, kept between 24 and 48 pixels (32 when there are no rows).
pub open spec fn spec_teammate_row_height(height: int, row_count: int) -> int {
    if row_count > 0 {
        let h = div_toward_zero(height - 32 - 24, row_count);
        if h < 24 {
            24
        } else if h > 48 {
            48
        } else {
            h
        }
    } else {
        32
    }
}

/// Row height of the teammate table.
pub fn teammate_row_height(height: i32, row_count: usize) -> (h: i64)
    requires
        row_count <= i32::MAX,
    ensures
        h == spec_teammate_row_height(height as int, row_count as int),
{
    if row_count > 0 {
        let avail: i64 = height as i64 - 32 - 24;
        let n: i64 = row_count as i64;
        let q: i64 = if avail >= 0 {
            assert(0 <= avail as int / n as int <= avail) by (nonlinear_arith)
                requires
                    1 <= n,
                    0 <= avail,
            ;
            avail / n
        } else {
            assert(0 <= (-avail) as int / n as int <= -avail) by (nonlinear_arith)
                requires
                    1 <= n,
                    0 <= -avail,
            ;
            -((-avail) / n)
        };
        if q < 24 {
            24
        } else if q > 48 {
            48
        } else {
            q
        }
    } else {
        32
    }
}

/// Horizontal centres of the consumable icons under a ship (28-pixel icons,
/// 1 pixel apart, the row centred on the ship) and the height of their
/// centres: 28 pixels below the ship with a health bar, 26 without.
pub fn consumable_icon_row(x: i32, y: i32, count: usize, has_hp_bar: bool) -> (r: (Vec<i64>, i64))
    requires
        count <= i32::MAX,
    ensures
        r.1 == y + (if has_hp_bar {
            28int
        } else {
            26int
        }),
        r.0@.len() == count,
        forall|i: int|
            0 <= i < count ==> #[trigger] r.0@[i] == x - div_toward_zero(29 * count - 1, 2) + 14 + i * 29,
{
    let n: i64 = count as i64;
    let total_w: i64 = n * 28 + (n - 1);
    let start_x: i64 = x as i64 - total_w / 2 + 14;
    let base_y: i64 = y as i64 + (if has_hp_bar {
        28
    } else {
        26
    });
    let mut centers: Vec<i64> = Vec::new();
    let mut i: usize = 0;
    while i < count
        invariant
            i <= count,
            count <= i32::MAX,
            n == count,
            start_x == x - div_toward_zero(29 * count - 1, 2) + 14,
            centers@.len() == i,
            forall|j: int| 0 <= j < i ==> #[trigger] centers@[j] == start_x + j * 29,
        decreases count - i,
    {
        centers.push(start_x + (i as i64) * 29);
        i = i + 1;
    }
    (centers, base_y)
}

} // verus!