//! Scroll physics for one frame: every animated value eases toward its
//! target, title heights get their targets, and the safe-area rule moves
//! scroll targets.

use vstd::prelude::*;
use crate::media::{card_exists, image_at, images_kept};
use crate::motion::{
    card_x, ease, eased, round_steps, rounded_steps, row_y, safe_area_step, safe_area_target,
    CARD_SIZE, CARD_SPACING, FIRST_CARD_X, FIRST_ROW_Y, MILLI, ROW_SAFE_AREA, ROW_SPACING,
    SCROLL_RATE, SELECTED_CARD_SIZE, SELECTED_TEXT_HEIGHT, SIZE_RATE, TEXT_HEIGHT, TEXT_RATE,
    VERTICAL_SAFE_AREA, MAX_MILLI, MAX_STEPS,
};
use crate::state::{Card, Row, State, MAX_CARDS};

verus! {

/// Row `y`'s horizontal scroll target after this frame's safe-area check;
/// only the selected row's target moves.
pub open spec fn row_target_after(row: Row, y: int, sel: (usize, usize)) -> int {
    if y == sel.1 {
        safe_area_target(card_x(sel.0 as int), row.scroll_target as int, CARD_SPACING as int, ROW_SAFE_AREA as int)
    } else {
        row.scroll_target as int
    }
}

/// Row `y`'s title height target, from the row's scroll position after this
/// frame's easing: raised when the row is selected and that position,
/// rounded, is the selected column.
pub open spec fn text_target(scroll: int, y: int, sel: (usize, usize)) -> int {
    if y == sel.1 && rounded_steps(scroll) == sel.0 {
        SELECTED_TEXT_HEIGHT as int
    } else {
        TEXT_HEIGHT as int
    }
}

/// Target size of card `x` of row `y`.
pub open spec fn size_target(y: int, x: int, sel: (usize, usize)) -> int {
    if x == sel.0 && y == sel.1 {
        SELECTED_CARD_SIZE as int
    } else {
        CARD_SIZE as int
    }
}

/// `b` is card `x` of row `y` after one frame of `delta_ms`.
pub open spec fn card_advanced(a: Card, b: Card, y: int, x: int, sel: (usize, usize), delta_ms: int) -> bool {
    b == Card { size: eased(a.size as int, size_target(y, x, sel), SIZE_RATE as int, delta_ms) as i64, ..a }
}

/// `b` is row `y` after one frame of `delta_ms`: the scroll position and the
/// title height ease toward the targets they had at the start of the frame;
/// then the title height target follows the eased scroll position and the
/// safe-area rule moves the scroll target.
pub open spec fn row_advanced(a: Row, b: Row, y: int, sel: (usize, usize), delta_ms: int) -> bool {
    let scroll = eased(a.scroll as int, MILLI * a.scroll_target, SCROLL_RATE as int, delta_ms);
    &&& b.scroll == scroll
    &&& b.scroll_target == row_target_after(a, y, sel)
    &&& b.text_height == eased(a.text_height as int, a.text_height_target as int, TEXT_RATE as int, delta_ms)
    &&& b.text_height_target == text_target(scroll, y, sel)
    &&& b.title == a.title
    &&& b.cards.len() == a.cards.len()
    &&& forall|x: int| 0 <= x < a.cards.len() ==> card_advanced(a.cards[x], #[trigger] b.cards[x], y, x, sel, delta_ms)
}

/// The vertical scroll target after this frame's safe-area check.
pub open spec fn scroll_target_after(s: State) -> int {
    if s.rows.len() > 0 {
        safe_area_target(row_y(s.selected_card.1 as int), s.scroll_target as int, ROW_SPACING as int, VERTICAL_SAFE_AREA as int)
    } else {
        s.scroll_target as int
    }
}

/// `b` is the library `a` after one frame of `delta_ms`.
pub open spec fn advanced(a: State, b: State, delta_ms: int) -> bool {
    let target = scroll_target_after(a);
    &&& b.scroll_target == target
    &&& b.scroll == eased(a.scroll as int, MILLI * target, SCROLL_RATE as int, delta_ms)
    &&& b.rows.len() == a.rows.len()
    &&& forall|y: int| 0 <= y < a.rows.len() ==> row_advanced(a.rows[y], #[trigger] b.rows[y], y, a.selected_card, delta_ms)
    &&& b.selected_card == a.selected_card
    &&& b.show_modal == a.show_modal
    &&& b.queued_row_refs == a.queued_row_refs
    &&& b.row_stream_busy == a.row_stream_busy
}

/// A frame of scroll physics keeps every image.
pub proof fn lemma_advance_keeps_images(a: State, b: State, delta_ms: int)
    requires
        advanced(a, b, delta_ms),
    ensures
        images_kept(a, b),
{
    assert forall|y: int, x: int| card_exists(a, y, x) implies card_exists(b, y, x) && #[trigger] image_at(b, y, x)
        == image_at(a, y, x) by {
        assert(row_advanced(a.rows[y], b.rows[y], y, a.selected_card, delta_ms));
        assert(card_advanced(a.rows[y].cards[x], b.rows[y].cards[x], y, x, a.selected_card, delta_ms));
    }
}

fn advance_row(row: &mut Row, y: usize, sel: (usize, usize), delta_ms: u32)
    requires
        old(row).wf(),
        y == sel.1 ==> sel.0 < old(row).cards.len(),
    ensures
        final(row).wf(),
        row_advanced(*old(row), *final(row), y as int, sel, delta_ms as int),
{
    let ghost a = *row;
    row.scroll = ease(row.scroll, row.scroll_target * MILLI, SCROLL_RATE, delta_ms);
    row.text_height = ease(row.text_height, row.text_height_target, TEXT_RATE, delta_ms);
    let raised = y == sel.1 && round_steps(row.scroll) == sel.0 as i64;
    row.text_height_target = if raised { SELECTED_TEXT_HEIGHT } else { TEXT_HEIGHT };
    let mut x: usize = 0;
    while x < row.cards.len()
        invariant
            x <= row.cards.len(),
            row.cards.len() == a.cards.len(),
            0 < a.cards.len() <= MAX_CARDS,
            forall|k: int| 0 <= k < a.cards.len() ==> (#[trigger] a.cards[k]).wf(),
            forall|k: int| 0 <= k < x ==> card_advanced(a.cards[k], #[trigger] row.cards[k], y as int, k, sel, delta_ms as int),
            forall|k: int| x <= k < a.cards.len() ==> #[trigger] row.cards[k] == a.cards[k],
            forall|k: int| 0 <= k < a.cards.len() ==> (#[trigger] row.cards[k]).wf(),
            row.scroll_target == a.scroll_target,
            row.scroll == eased(a.scroll as int, MILLI * a.scroll_target, SCROLL_RATE as int, delta_ms as int),
            -MAX_MILLI <= row.scroll <= MAX_MILLI,
            row.text_height_target == text_target(row.scroll as int, y as int, sel),
            row.text_height == eased(a.text_height as int, a.text_height_target as int, TEXT_RATE as int, delta_ms as int),
            -MAX_MILLI <= row.text_height <= MAX_MILLI,
            row.title == a.title,
        decreases a.cards.len() - x,
    {
        let target = if x == sel.0 && y == sel.1 { SELECTED_CARD_SIZE } else { CARD_SIZE };
        assert(a.cards[x as int].wf());
        let size = ease(row.cards[x].size, target, SIZE_RATE, delta_ms);
        row.cards[x].size = size;
        x = x + 1;
    }
    if y == sel.1 {
        row.scroll_target = safe_area_step(
            FIRST_CARD_X + sel.0 as i64 * CARD_SPACING,
            row.scroll_target,
            CARD_SPACING,
            ROW_SAFE_AREA,
        );
    }
}

impl State {
    /// One frame of scroll physics over `delta_ms`: each row's scroll
    /// position, title height and card sizes ease (see `row_advanced`), the
    /// title height targets follow the eased positions, the safe-area rule
    /// moves the selected row's target and the vertical target, and the
    /// vertical scroll eases toward its new target.
    pub fn advance(&mut self, delta_ms: u32)
        requires
            old(self).wf(),
        ensures
            final(self).wf(),
            advanced(*old(self), *final(self), delta_ms as int),
    {
        let ghost a = *self;
        let sel = self.selected_card;
        if self.rows.len() > 0 {
            self.scroll_target = safe_area_step(
                FIRST_ROW_Y - sel.1 as i64 * ROW_SPACING,
                self.scroll_target,
                ROW_SPACING,
                VERTICAL_SAFE_AREA,
            );
        }
        self.scroll = ease(self.scroll, self.scroll_target * MILLI, SCROLL_RATE, delta_ms);
        let mut y: usize = 0;
        while y < self.rows.len()
            invariant
                y <= self.rows.len(),
                self.rows.len() == a.rows.len(),
                a.wf(),
                sel == a.selected_card,
                forall|k: int| 0 <= k < y ==> row_advanced(a.rows[k], #[trigger] self.rows[k], k, sel, delta_ms as int),
                forall|k: int| 0 <= k < y ==> (#[trigger] self.rows[k]).wf(),
                forall|k: int| y <= k < a.rows.len() ==> #[trigger] self.rows[k] == a.rows[k],
                self.scroll_target == scroll_target_after(a),
                -MAX_STEPS <= self.scroll_target <= MAX_STEPS,
                self.scroll == eased(a.scroll as int, MILLI * self.scroll_target, SCROLL_RATE as int, delta_ms as int),
                -MAX_MILLI <= self.scroll <= MAX_MILLI,
                self.selected_card == a.selected_card,
                self.show_modal == a.show_modal,
                self.queued_row_refs == a.queued_row_refs,
                self.row_stream_busy == a.row_stream_busy,
            decreases a.rows.len() - y,
        {
            assert(a.rows[y as int].wf());
            advance_row(&mut self.rows[y], y, sel, delta_ms);
            y = y + 1;
        }
    }
}

} // verus!
