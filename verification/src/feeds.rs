//! Layout of the kill feed and chat feeds: where each part of a kill line
//! goes, which of the newest entries fit in a feed box, and the stacking of
//! chat entries in the chat overlay.

use vstd::prelude::*;
use crate::number_format::div_toward_zero;

verus! {

/// Gap in pixels between the parts of a kill-feed line.
pub const KILL_FEED_GAP: i32 = 2;

/// Padding in pixels on each side of a kill-feed line's background.
pub const KILL_FEED_MARGIN: i32 = 4;

/// Height in pixels of one kill-feed line.
pub const KILL_FEED_LINE_HEIGHT: i32 = 20;

/// The measured parts of one kill-feed line.
#[derive(Debug, Clone, Copy, PartialEq, Eq, Structural)]
pub struct KillLineParts {
    /// Width of the killer's name.
    pub killer_name_w: u32,
    /// Width of the killer's ship name (0 when there is none).
    pub killer_ship_w: u32,
    /// A ship icon is drawn for the killer.
    pub has_killer_icon: bool,
    /// A death-cause icon is drawn.
    pub has_cause_icon: bool,
    /// Width of the victim's name.
    pub victim_name_w: u32,
    /// Width of the victim's ship name (0 when there is none).
    pub victim_ship_w: u32,
    /// A ship icon is drawn for the victim.
    pub has_victim_icon: bool,
}

/// Where each part of a kill-feed line is drawn.
#[derive(Debug, Clone, Copy, PartialEq, Eq, Structural)]
pub struct KillLineLayout {
    /// Width of the line's background box (content plus both margins).
    pub background_w: i32,
    /// Left edge of the killer's name.
    pub killer_name_x: i32,
    /// Left edge of the killer's ship icon, when drawn.
    pub killer_icon_x: Option<i32>,
    /// Left edge of the killer's ship name, when drawn.
    pub killer_ship_x: Option<i32>,
    /// Left edge of the death-cause slot (the icon is centred in it).
    pub cause_x: i32,
    /// Left edge of the victim's name.
    pub victim_name_x: i32,
    /// Left edge of the victim's ship icon, when drawn.
    pub victim_icon_x: Option<i32>,
    /// Left edge of the victim's ship name, when drawn.
    pub victim_ship_x: Option<i32>,
}

/// Width of one side (name, icon, ship name) of a kill line: the icon, when
/// present, is framed by a gap on each side; without it, a ship name is
/// still separated from the player name by one gap.
pub open spec fn side_width(name_w: int, ship_w: int, has_icon: bool, icon_size: int) -> int {
    name_w + (if has_icon {
        KILL_FEED_GAP + icon_size + KILL_FEED_GAP
    } else if ship_w > 0 {
        KILL_FEED_GAP as int
    } else {
        0
    }) + ship_w
}

/// Width of the slot between the two sides: two gaps, the cause icon (when
/// there is one), two gaps.
pub open spec fn cause_slot_width(has_cause_icon: bool, icon_size: int) -> int {
    4 * KILL_FEED_GAP + (if has_cause_icon {
        icon_size
    } else {
        0
    })
}

/// Total content width of a kill line.
pub open spec fn kill_line_width(p: KillLineParts, icon_size: int) -> int {
    side_width(p.killer_name_w as int, p.killer_ship_w as int, p.has_killer_icon, icon_size)
        + cause_slot_width(p.has_cause_icon, icon_size) + side_width(
        p.victim_name_w as int,
        p.victim_ship_w as int,
        p.has_victim_icon,
        icon_size,
    )
}

/// The layout of a kill line whose content starts at `x0`: killer side,
/// cause slot and victim side follow each other left to right.
pub open spec fn spec_kill_line_layout(p: KillLineParts, icon_size: int, start_x: int) -> KillLineLayout {
    let x0 = start_x + KILL_FEED_MARGIN;
    let killer_icon_x = x0 + p.killer_name_w + KILL_FEED_GAP;
    let killer_ship_x = x0 + p.killer_name_w + (if p.has_killer_icon {
        KILL_FEED_GAP + icon_size + KILL_FEED_GAP
    } else {
        KILL_FEED_GAP as int
    });
    let cause_x = x0 + side_width(p.killer_name_w as int, p.killer_ship_w as int, p.has_killer_icon, icon_size)
        + 2 * KILL_FEED_GAP;
    let victim_x = x0 + side_width(
        p.killer_name_w as int,
        p.killer_ship_w as int,
        p.has_killer_icon,
        icon_size,
    ) + cause_slot_width(p.has_cause_icon, icon_size);
    let victim_icon_x = victim_x + p.victim_name_w + KILL_FEED_GAP;
    let victim_ship_x = victim_x + p.victim_name_w + (if p.has_victim_icon {
        KILL_FEED_GAP + icon_size + KILL_FEED_GAP
    } else {
        KILL_FEED_GAP as int
    });
    KillLineLayout {
        background_w: (kill_line_width(p, icon_size) + 2 * KILL_FEED_MARGIN) as i32,
        killer_name_x: x0 as i32,
        killer_icon_x: if p.has_killer_icon {
            Some(killer_icon_x as i32)
        } else {
            None
        },
        killer_ship_x: if p.killer_ship_w > 0 {
            Some(killer_ship_x as i32)
        } else {
            None
        },
        cause_x: cause_x as i32,
        victim_name_x: victim_x as i32,
        victim_icon_x: if p.has_victim_icon {
            Some(victim_icon_x as i32)
        } else {
            None
        },
        victim_ship_x: if p.victim_ship_w > 0 {
            Some(victim_ship_x as i32)
        } else {
            None
        },
    }
}

/// Rich kill feed line layout: `KILLER_NAME [icon] ship_name  [cause]
/// VICTIM_NAME [icon] ship_name`, left-aligned at `start_x`.
pub fn kill_line_layout(p: KillLineParts, icon_size: u32, start_x: i32) -> (l: KillLineLayout)
    requires
        start_x >= 0,
        start_x + kill_line_width(p, icon_size as int) + 2 * KILL_FEED_MARGIN <= i32::MAX,
    ensures
        l == spec_kill_line_layout(p, icon_size as int, start_x as int),
{
    let icon: i64 = icon_size as i64;
    let gap: i64 = KILL_FEED_GAP as i64;
    let x0: i64 = start_x as i64 + KILL_FEED_MARGIN as i64;
    let mut x: i64 = x0 + p.killer_name_w as i64;
    let mut killer_icon_x: Option<i32> = None;
    if p.has_killer_icon {
        x = x + gap;
        killer_icon_x = Some(x as i32);
        x = x + icon + gap;
    } else if p.killer_ship_w > 0 {
        x = x + gap;
    }
    let mut killer_ship_x: Option<i32> = None;
    if p.killer_ship_w > 0 {
        killer_ship_x = Some(x as i32);
        x = x + p.killer_ship_w as i64;
    }
    x = x + 2 * gap;
    let cause_x: i32 = x as i32;
    x = x + (if p.has_cause_icon {
        icon
    } else {
        0
    }) + 2 * gap;
    let victim_name_x: i32 = x as i32;
    x = x + p.victim_name_w as i64;
    let mut victim_icon_x: Option<i32> = None;
    if p.has_victim_icon {
        x = x + gap;
        victim_icon_x = Some(x as i32);
        x = x + icon + gap;
    } else if p.victim_ship_w > 0 {
        x = x + gap;
    }
    let mut victim_ship_x: Option<i32> = None;
    if p.victim_ship_w > 0 {
        victim_ship_x = Some(x as i32);
        x = x + p.victim_ship_w as i64;
    }
    let background_w: i32 = (x - x0 + 2 * KILL_FEED_MARGIN as i64) as i32;
    KillLineLayout {
        background_w,
        killer_name_x: x0 as i32,
        killer_icon_x,
        killer_ship_x,
        cause_x,
        victim_name_x,
        victim_icon_x,
        victim_ship_x,
    }
}

/// The background box of a kill line covers every part drawn on it: the
/// names, ship icons, ship names and the cause slot all lie, left to right,
/// between the box's edges, with the margin kept on both sides.
pub proof fn law_kill_line_background_covers(p: KillLineParts, icon_size: int, start_x: int)
    requires
        0 <= icon_size,
        0 <= start_x,
        start_x + kill_line_width(p, icon_size) + 2 * KILL_FEED_MARGIN <= i32::MAX,
    ensures
        ({
            let l = spec_kill_line_layout(p, icon_size, start_x);
            let right = start_x + l.background_w - KILL_FEED_MARGIN;
            &&& l.killer_name_x == start_x + KILL_FEED_MARGIN
            &&& l.killer_name_x + p.killer_name_w <= l.cause_x
            &&& (l.killer_icon_x matches Some(ix) ==> l.killer_name_x + p.killer_name_w <= ix && ix
                + icon_size <= l.cause_x)
            &&& (l.killer_ship_x matches Some(sx) ==> l.killer_name_x + p.killer_name_w <= sx && sx
                + p.killer_ship_w <= l.cause_x)
            &&& l.cause_x + (if p.has_cause_icon {
                icon_size
            } else {
                0
            }) <= l.victim_name_x
            &&& l.victim_name_x + p.victim_name_w <= right
            &&& (l.victim_icon_x matches Some(ix) ==> l.victim_name_x + p.victim_name_w <= ix && ix
                + icon_size <= right)
            &&& (l.victim_ship_x matches Some(sx) ==> l.victim_name_x + p.victim_name_w <= sx && sx
                + p.victim_ship_w == right)
        }),
{
}

/// Most kill-feed lines shown at once.
pub const KILL_FEED_MAX_LINES: usize = 5;

/// Top of the `i`-th kill-feed line and of its icons, for text `text_h`
/// pixels high and icons `icon_size` pixels high: the lines step down
/// from the top of the HUD, the icons centred on the text.
pub open spec fn kill_feed_row(i: int, text_h: int, icon_size: int) -> (int, int) {
    let y = crate::HUD_HEIGHT + i * KILL_FEED_LINE_HEIGHT;
    (y, y + div_toward_zero(text_h - icon_size, 2))
}

/// The rows of a kill feed of `count` entries: those of the first (at most
/// five) entries.
pub open spec fn spec_kill_feed_rows(count: int, text_h: int, icon_size: int) -> Seq<(int, int)> {
    let n = if count < KILL_FEED_MAX_LINES {
        count
    } else {
        KILL_FEED_MAX_LINES as int
    };
    Seq::new(n as nat, |i: int| kill_feed_row(i, text_h, icon_size))
}

/// Rows of the kill feed: the first (at most five) of `count` entries,
/// each as the top of its line and the top of its icons.
pub fn kill_feed_rows(count: usize, text_h: i32, icon_size: i32) -> (rows: Vec<(i32, i64)>)
    ensures
        rows@.len() == spec_kill_feed_rows(count as int, text_h as int, icon_size as int).len(),
        forall|i: int|
            0 <= i < rows@.len() ==> ((#[trigger] rows@[i]).0 as int, rows@[i].1 as int) == spec_kill_feed_rows(
                count as int,
                text_h as int,
                icon_size as int,
            )[i],
{
    let n: usize = if count < KILL_FEED_MAX_LINES {
        count
    } else {
        KILL_FEED_MAX_LINES
    };
    let half: i64 = (text_h as i64 - icon_size as i64) / 2;
    let mut rows: Vec<(i32, i64)> = Vec::new();
    let mut i: usize = 0;
    while i < n
        invariant
            n <= KILL_FEED_MAX_LINES,
            i <= n,
            half == div_toward_zero(text_h - icon_size, 2),
            -0x8000_0000 <= half <= 0x8000_0000,
            rows@.len() == i,
            forall|k: int|
                0 <= k < i ==> (#[trigger] rows@[k]).0 == kill_feed_row(k, text_h as int, icon_size as int).0
                    && rows@[k].1 == kill_feed_row(k, text_h as int, icon_size as int).1,
        decreases n - i,
    {
        let y: i64 = crate::HUD_HEIGHT as i64 + i as i64 * KILL_FEED_LINE_HEIGHT as i64;
        rows.push((y as i32, y + half));
        i = i + 1;
    }
    rows
}

/// Only the first five entries of a feed reach the screen: a longer feed
/// gets exactly the rows of its first five entries.
pub proof fn law_kill_feed_first_five(count: int, text_h: int, icon_size: int)
    requires
        count >= KILL_FEED_MAX_LINES,
    ensures
        spec_kill_feed_rows(count, text_h, icon_size) == spec_kill_feed_rows(
            KILL_FEED_MAX_LINES as int,
            text_h,
            icon_size,
        ),
        spec_kill_feed_rows(count, text_h, icon_size).len() == KILL_FEED_MAX_LINES,
{
    assert(spec_kill_feed_rows(count, text_h, icon_size) =~= spec_kill_feed_rows(
        KILL_FEED_MAX_LINES as int,
        text_h,
        icon_size,
    ));
}

/// Pixels between the edge of an inline feed box and its contents.
pub const INLINE_FEED_PADDING: i32 = 10;

/// Height of a kill row in the inline kill column.
pub const INLINE_KILL_ROW_H: i32 = 30;

/// Height of one text line in the inline chat column.
pub const INLINE_CHAT_LINE_H: i32 = 24;

/// Gap after each chat block in the inline chat column.
pub const INLINE_CHAT_BLOCK_GAP: i32 = 14;

/// Tops of the rows of a column that starts at `start` and steps by `pitch`:
/// of `count` entries, rows are taken in order while a row of height
/// `needed` still ends at or above `bottom`.
pub fn feed_row_tops(start: i32, pitch: i32, needed: i32, bottom: i32, count: usize) -> (tops: Vec<i32>)
    requires
        pitch > 0,
        needed >= 0,
    ensures
        tops@.len() <= count,
        forall|i: int|
            0 <= i < tops@.len() ==> #[trigger] tops@[i] == start + i * pitch && tops@[i] + needed <= bottom,
        tops@.len() < count ==> start + tops@.len() * pitch + needed > bottom,
{
    let mut tops: Vec<i32> = Vec::new();
    let mut y: i64 = start as i64;
    let mut i: usize = 0;
    while i < count
        invariant
            pitch > 0,
            needed >= 0,
            i <= count,
            tops@.len() == i,
            y == start + i * pitch,
            i > 0 ==> y <= bottom + pitch,
            forall|k: int| 0 <= k < i ==> #[trigger] tops@[k] == start + k * pitch && tops@[k] + needed <= bottom,
        decreases count - i,
    {
        if y + needed as i64 > bottom as i64 {
            return tops;
        }
        tops.push(y as i32);
        assert(start + i * pitch + pitch == start + (i + 1) * pitch) by (nonlinear_arith);
        y = y + pitch as i64;
        i = i + 1;
    }
    tops
}

/// Tops of the kill rows of an inline feed box at `(.., y)` of height
/// `height`, newest entry first: 30-pixel rows below the padding, as many as
/// end inside the box.
pub fn inline_kill_rows(y: i32, height: i32, count: usize) -> (tops: Vec<i32>)
    requires
        y + INLINE_FEED_PADDING <= i32::MAX,
        i32::MIN <= y + height <= i32::MAX,
    ensures
        tops@.len() <= count,
        forall|i: int|
            0 <= i < tops@.len() ==> #[trigger] tops@[i] == y + INLINE_FEED_PADDING + i * INLINE_KILL_ROW_H
                && tops@[i] + INLINE_KILL_ROW_H <= y as int + height,
        tops@.len() < count ==> y + INLINE_FEED_PADDING + tops@.len() * INLINE_KILL_ROW_H + INLINE_KILL_ROW_H
            > y as int + height,
{
    feed_row_tops(y + INLINE_FEED_PADDING, INLINE_KILL_ROW_H, INLINE_KILL_ROW_H, y + height, count)
}

/// Tops of the chat blocks of an inline feed box at `(.., y)` of height
/// `height`, oldest entry first: each block is a header line and a message
/// line followed by a gap, and blocks are taken while both lines end inside
/// the box.
pub fn inline_chat_rows(y: i32, height: i32, count: usize) -> (tops: Vec<i32>)
    requires
        y + INLINE_FEED_PADDING <= i32::MAX,
        i32::MIN <= y + height <= i32::MAX,
    ensures
        tops@.len() <= count,
        forall|i: int|
            0 <= i < tops@.len() ==> #[trigger] tops@[i] == y + INLINE_FEED_PADDING + i * (2 * INLINE_CHAT_LINE_H
                + INLINE_CHAT_BLOCK_GAP) && tops@[i] + 2 * INLINE_CHAT_LINE_H <= y as int + height,
        tops@.len() < count ==> y + INLINE_FEED_PADDING + tops@.len() * (2 * INLINE_CHAT_LINE_H
            + INLINE_CHAT_BLOCK_GAP) + 2 * INLINE_CHAT_LINE_H > y as int + height,
{
    feed_row_tops(
        y + INLINE_FEED_PADDING,
        2 * INLINE_CHAT_LINE_H + INLINE_CHAT_BLOCK_GAP,
        2 * INLINE_CHAT_LINE_H,
        y + height,
        count,
    )
}
/// Sum of `heights[k..]`.
pub open spec fn suffix_sum(heights: Seq<i32>, k: int) -> int
    decreases heights.len() - k,
{
    if k >= heights.len() || k < 0 {
        0
    } else {
        heights[k] + suffix_sum(heights, k + 1)
    }
}

/// Every suffix from `i` on (the newest entries) fits in `budget`.
pub open spec fn suffixes_fit(heights: Seq<i32>, budget: int, i: int) -> bool {
    forall|k: int| i <= k < heights.len() ==> #[trigger] suffix_sum(heights, k) <= budget
}

/// First index of the newest entries to show in a feed box that has room
/// for `budget` pixels: counting back from the newest entry, entries are
/// taken while the total height of those taken stays within the budget.
pub fn feed_window_start(heights: &Vec<i32>, budget: i32) -> (start: usize)
    ensures
        start <= heights@.len(),
        suffixes_fit(heights@, budget as int, start as int),
        start > 0 ==> suffix_sum(heights@, start - 1) > budget,
{
    let n = heights.len();
    let mut start: usize = n;
    let mut consumed: i128 = 0;
    let mut i: usize = n;
    while i > 0
        invariant
            n == heights@.len(),
            i <= n,
            start == i,
            consumed == suffix_sum(heights@, i as int),
            -0x8000_0000 * (n - i) <= consumed <= 0x7fff_ffff * (n - i),
            suffixes_fit(heights@, budget as int, i as int),
        decreases i,
    {
        let needed: i128 = consumed + heights[i - 1] as i128;
        assert(needed == suffix_sum(heights@, i - 1));
        if needed > budget as i128 {
            return start;
        }
        consumed = needed;
        i = i - 1;
        start = i;
        assert(suffixes_fit(heights@, budget as int, i as int));
    }
    start
}

/// Width of the chat overlay box: a quarter of the minimap.
pub const CHAT_BOX_WIDTH: i32 = 300;

/// Padding inside the chat overlay box.
pub const CHAT_MARGIN: i32 = 6;

/// Width available to the text of a chat entry.
pub const CHAT_INNER_WIDTH: u32 = 288;

/// Height of one line of the chat overlay.
pub const CHAT_LINE_HEIGHT: i32 = 14;

/// Vertical gap between chat entries.
pub const CHAT_ENTRY_GAP: i32 = 6;

/// Lines of a chat entry: the name line, the ship line when there is one,
/// and the wrapped message lines.
pub fn chat_entry_lines(has_ship_line: bool, message_lines: usize) -> (n: u32)
    requires
        message_lines + 2 <= i32::MAX,
    ensures
        n == 1 + (if has_ship_line {
            1int
        } else {
            0
        }) + message_lines,
{
    let ship: u32 = if has_ship_line {
        1
    } else {
        0
    };
    1 + ship + message_lines as u32
}

/// Height of the first `k` chat entries with the gap after each.
pub open spec fn chat_stack_height(line_counts: Seq<u32>, k: int) -> int
    decreases k,
{
    if k <= 0 || k > line_counts.len() {
        0
    } else {
        chat_stack_height(line_counts, k - 1) + CHAT_LINE_HEIGHT * line_counts[k - 1] + CHAT_ENTRY_GAP
    }
}

/// Stacking more entries never makes the stack lower.
pub proof fn lemma_chat_stack_monotone(line_counts: Seq<u32>, a: int, b: int)
    requires
        0 <= a <= b <= line_counts.len(),
    ensures
        0 <= chat_stack_height(line_counts, a) <= chat_stack_height(line_counts, b),
    decreases b,
{
    if b > a {
        lemma_chat_stack_monotone(line_counts, a, b - 1);
    } else if a > 0 {
        lemma_chat_stack_monotone(line_counts, a - 1, a - 1);
    }
}

/// Where the chat overlay box and each of its entries go.
pub struct ChatBoxLayout {
    /// Left edge of the box.
    pub box_x: i32,
    /// Top edge of the box.
    pub box_y: i32,
    /// Height of the box.
    pub height: i32,
    /// Top of each entry's first line.
    pub entry_tops: Vec<i32>,
}

/// Chat overlay geometry: entries of `line_counts[i]` lines each are stacked
/// with a gap between them and padding around, in a box at the left edge of
/// the minimap (`x_offset`), centred on the minimap's middle height.
pub fn chat_box_layout(line_counts: &Vec<u32>, y_offset: u32, x_offset: u32) -> (l: ChatBoxLayout)
    requires
        line_counts@.len() > 0,
        x_offset <= i32::MAX,
        y_offset + 600 + chat_stack_height(line_counts@, line_counts@.len() as int) + CHAT_MARGIN <= i32::MAX,
    ensures
        l.height == chat_stack_height(line_counts@, line_counts@.len() as int) - CHAT_ENTRY_GAP + 2
            * CHAT_MARGIN,
        l.box_x == x_offset,
        l.box_y == y_offset + 600 - l.height / 2,
        l.entry_tops@.len() == line_counts@.len(),
        forall|i: int|
            0 <= i < line_counts@.len() ==> #[trigger] l.entry_tops@[i] == l.box_y + CHAT_MARGIN
                + chat_stack_height(line_counts@, i),
{
    let n = line_counts.len();
    let ghost total = chat_stack_height(line_counts@, n as int);
    let mut stack: i64 = 0;
    let mut i: usize = 0;
    while i < n
        invariant
            n == line_counts@.len(),
            i <= n,
            stack == chat_stack_height(line_counts@, i as int),
            total == chat_stack_height(line_counts@, n as int),
            y_offset + 600 + total + CHAT_MARGIN <= i32::MAX,
        decreases n - i,
    {
        proof {
            lemma_chat_stack_monotone(line_counts@, i + 1, n as int);
        }
        stack = stack + CHAT_LINE_HEIGHT as i64 * line_counts[i] as i64 + CHAT_ENTRY_GAP as i64;
        i = i + 1;
    }
    proof {
        lemma_chat_stack_monotone(line_counts@, 1, n as int);
    }
    let height: i32 = (stack - CHAT_ENTRY_GAP as i64 + 2 * CHAT_MARGIN as i64) as i32;
    let box_y: i32 = y_offset as i32 + 600 - height / 2;
    let mut tops: Vec<i32> = Vec::new();
    let mut cur: i64 = box_y as i64 + CHAT_MARGIN as i64;
    let mut j: usize = 0;
    while j < n
        invariant
            n == line_counts@.len(),
            j <= n,
            tops@.len() == j,
            total == chat_stack_height(line_counts@, n as int),
            y_offset + 600 + total + CHAT_MARGIN <= i32::MAX,
            0 <= height,
            box_y == y_offset + 600 - height / 2,
            cur == box_y + CHAT_MARGIN + chat_stack_height(line_counts@, j as int),
            forall|k: int| 0 <= k < j ==> #[trigger] tops@[k] == box_y + CHAT_MARGIN + chat_stack_height(line_counts@, k),
        decreases n - j,
    {
        proof {
            lemma_chat_stack_monotone(line_counts@, j as int, n as int);
            lemma_chat_stack_monotone(line_counts@, j + 1, n as int);
        }
        let ghost prev = tops@;
        tops.push(cur as i32);
        assert forall|k: int| 0 <= k < j + 1 implies #[trigger] tops@[k] == box_y + CHAT_MARGIN
            + chat_stack_height(line_counts@, k) by {
            if k < j {
                assert(tops@[k] == prev[k]);
            }
        }
        cur = cur + CHAT_LINE_HEIGHT as i64 * line_counts[j] as i64 + CHAT_ENTRY_GAP as i64;
        j = j + 1;
    }
    ChatBoxLayout { box_x: x_offset as i32, box_y, height, entry_tops: tops }
}

/// Room left for each of the two names of an activity-feed kill line:
/// half of what the icons leave of the inner width (the subtraction
/// saturating at the `i32` range), but never under 40 pixels.
pub open spec fn spec_kill_name_max_width(
    inner_w: int,
    icon_size: int,
    gap: int,
    has_killer_icon: bool,
    has_cause_icon: bool,
    has_victim_icon: bool,
) -> int {
    let icons_w = (if has_killer_icon {
        icon_size + gap
    } else {
        0
    }) + (if has_cause_icon {
        icon_size + gap
    } else {
        0
    }) + (if has_victim_icon {
        icon_size
    } else {
        0
    });
    let diff = inner_w - icons_w;
    let remaining = if diff < i32::MIN {
        i32::MIN as int
    } else if diff > i32::MAX {
        i32::MAX as int
    } else {
        diff
    };
    let half = div_toward_zero(remaining, 2);
    if half > 40 {
        half
    } else {
        40
    }
}

/// Width budget for the killer and victim names of an activity-feed line.
pub fn kill_name_max_width(
    inner_w: i32,
    icon_size: i32,
    gap: i32,
    has_killer_icon: bool,
    has_cause_icon: bool,
    has_victim_icon: bool,
) -> (w: i32)
    requires
        i32::MIN <= icon_size + gap <= i32::MAX,
        i32::MIN <= (if has_killer_icon {
            icon_size + gap
        } else {
            0
        }) + (if has_cause_icon {
            icon_size + gap
        } else {
            0
        }) <= i32::MAX,
        i32::MIN <= (if has_killer_icon {
            icon_size + gap
        } else {
            0
        }) + (if has_cause_icon {
            icon_size + gap
        } else {
            0
        }) + (if has_victim_icon {
            icon_size as int
        } else {
            0
        }) <= i32::MAX,
    ensures
        w == spec_kill_name_max_width(
            inner_w as int,
            icon_size as int,
            gap as int,
            has_killer_icon,
            has_cause_icon,
            has_victim_icon,
        ),
{
    let mut icons_w: i64 = 0;
    if has_killer_icon {
        icons_w = icons_w + icon_size as i64 + gap as i64;
    }
    if has_cause_icon {
        icons_w = icons_w + icon_size as i64 + gap as i64;
    }
    if has_victim_icon {
        icons_w = icons_w + icon_size as i64;
    }
    let diff: i64 = inner_w as i64 - icons_w;
    let remaining: i32 = if diff < i32::MIN as i64 {
        i32::MIN
    } else if diff > i32::MAX as i64 {
        i32::MAX
    } else {
        diff as i32
    };
    let half: i32 = remaining / 2;
    if half > 40 {
        half
    } else {
        40
    }
}

/// Widths given to the player name and the ship name in a chat header of
/// the activity feed: the player name gets what the clan tag, ship icon,
/// ship name and three gaps leave when that is over 30 pixels; otherwise
/// the ship name is dropped and the player name gets what the clan tag, the
/// icon and two gaps leave, at least 20 pixels.
pub open spec fn spec_chat_header_widths(
    right_w: int,
    clan_w: int,
    ship_icon_w: int,
    ship_name_w: int,
    gap: int,
) -> (int, int) {
    let available = right_w - clan_w - ship_icon_w - ship_name_w - gap * 3;
    if available > 30 {
        (available, ship_name_w)
    } else {
        let w = right_w - clan_w - ship_icon_w - gap * 2;
        (if w > 20 {
            w
        } else {
            20
        }, 0)
    }
}

/// Player-name and ship-name widths of a chat header line.
pub fn chat_header_widths(right_w: i32, clan_w: i32, ship_icon_w: i32, ship_name_w: i32, gap: i32) -> (r: (
    i32,
    i32,
))
    requires
        i32::MIN <= right_w - clan_w - ship_icon_w - ship_name_w - gap * 3 <= i32::MAX,
        i32::MIN <= right_w - clan_w - ship_icon_w - gap * 2 <= i32::MAX,
    ensures
        (r.0 as int, r.1 as int) == spec_chat_header_widths(
            right_w as int,
            clan_w as int,
            ship_icon_w as int,
            ship_name_w as int,
            gap as int,
        ),
{
    let available: i64 = right_w as i64 - clan_w as i64 - ship_icon_w as i64 - ship_name_w as i64
        - gap as i64 * 3;
    if available > 30 {
        (available as i32, ship_name_w)
    } else {
        let w: i64 = right_w as i64 - clan_w as i64 - ship_icon_w as i64 - gap as i64 * 2;
        (if w > 20 {
            w as i32
        } else {
            20
        }, 0)
    }
}

} // verus!