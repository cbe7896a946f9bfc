//! Focus navigation: discrete directional input moves the selection cursor.

use vstd::prelude::*;
use crate::motion::{round_steps, rounded_steps, MAX_STEPS};
use crate::state::{CardImage, State};

verus! {

#[derive(Clone, Copy, Debug)]
pub enum Direction {
    Left,
    Right,
    Up,
    Down,
    Confirm,
    Back,
    Quit,
}

/// `c` clamped to the columns `0 .. len`.
pub open spec fn clamp_column(c: int, len: int) -> int {
    if c < 0 {
        0
    } else if c >= len {
        len - 1
    } else {
        c
    }
}

/// The column selected after a vertical move from row `from` to row `to`:
/// the difference of the two rows' rounded scroll positions is added to the
/// column, so the selection keeps its place on screen, then clamped to the
/// destination row.
pub open spec fn column_after_move(s: State, from: int, to: int) -> int {
    clamp_column(
        s.selected_card.0 + rounded_steps(s.rows[to].scroll as int) - rounded_steps(
            s.rows[from].scroll as int,
        ),
        s.rows[to].cards.len() as int,
    )
}

/// The selection after one input.
pub open spec fn next_selection(s: State, d: Direction) -> (usize, usize) {
    let col = s.selected_card.0;
    let row = s.selected_card.1;
    if s.rows.len() == 0 {
        s.selected_card
    } else {
        match d {
            Direction::Right => if col + 1 < s.rows[row as int].cards.len() {
                ((col + 1) as usize, row)
            } else {
                s.selected_card
            },
            Direction::Left => if col > 0 {
                ((col - 1) as usize, row)
            } else {
                s.selected_card
            },
            Direction::Up => if row > 0 {
                (column_after_move(s, row as int, row - 1) as usize, (row - 1) as usize)
            } else {
                s.selected_card
            },
            Direction::Down => if row + 1 < s.rows.len() {
                (column_after_move(s, row as int, row + 1) as usize, (row + 1) as usize)
            } else {
                s.selected_card
            },
            _ => s.selected_card,
        }
    }
}

/// The selected card's image is ready.
pub open spec fn selected_ready(s: State) -> bool {
    &&& s.rows.len() > 0
    &&& s.rows[s.selected_card.1 as int].cards[s.selected_card.0 as int].image is Ready
}

/// Whether the detail view shows after one input.
pub open spec fn next_modal(s: State, d: Direction) -> bool {
    match d {
        Direction::Confirm => s.show_modal || selected_ready(s),
        Direction::Back => false,
        _ => s.show_modal,
    }
}

/// The library after one input: only the selection and the detail view
/// change.
pub open spec fn next_state(s: State, d: Direction) -> State {
    State { selected_card: next_selection(s, d), show_modal: next_modal(s, d), ..s }
}

/// No input of `ds` is `Quit`.
pub open spec fn no_quit(ds: Seq<Direction>) -> bool {
    forall|i: int| 0 <= i < ds.len() ==> !(#[trigger] ds[i] is Quit)
}

/// The library after a sequence of inputs, applied in order.
pub open spec fn after_inputs(s: State, ds: Seq<Direction>) -> State
    decreases ds.len(),
{
    if ds.len() == 0 {
        s
    } else {
        next_state(after_inputs(s, ds.drop_last()), ds.last())
    }
}

/// One input keeps the library well formed.
pub proof fn lemma_next_state_wf(s: State, d: Direction)
    requires
        s.wf(),
    ensures
        next_state(s, d).wf(),
{
    let n = next_state(s, d);
    assert(n.rows == s.rows);
}

/// The selection names an existing card after any sequence of inputs, once
/// there are rows.
pub proof fn lemma_inputs_keep_selection_valid(s: State, ds: Seq<Direction>)
    requires
        s.wf(),
    ensures
        after_inputs(s, ds).wf(),
        after_inputs(s, ds).rows == s.rows,
        s.rows.len() > 0 ==> {
            let t = after_inputs(s, ds);
            &&& t.selected_card.1 < t.rows.len()
            &&& t.selected_card.0 < t.rows[t.selected_card.1 as int].cards.len()
        },
    decreases ds.len(),
{
    if ds.len() > 0 {
        lemma_inputs_keep_selection_valid(s, ds.drop_last());
        lemma_next_state_wf(after_inputs(s, ds.drop_last()), ds.last());
    }
}

impl State {
    /// Applies one input. Returns false on `Quit`, which asks the caller to
    /// leave the frame loop.
    pub fn handle_direction(&mut self, d: Direction) -> (r: bool)
        requires
            old(self).wf(),
        ensures
            *final(self) == next_state(*old(self), d),
            final(self).wf(),
            r == !(d is Quit),
    {
        proof {
            lemma_next_state_wf(*self, d);
        }
        if self.rows.len() == 0 {
            match d {
                Direction::Back => {
                    self.show_modal = false;
                },
                _ => {},
            }
            return !matches!(d, Direction::Quit);
        }
        let col = self.selected_card.0;
        let row = self.selected_card.1;
        match d {
            Direction::Right => {
                if col + 1 < self.rows[row].cards.len() {
                    self.selected_card = (col + 1, row);
                }
            },
            Direction::Left => {
                if col > 0 {
                    self.selected_card = (col - 1, row);
                }
            },
            Direction::Up => {
                if row > 0 {
                    let c = self.column_after_move(row, row - 1);
                    self.selected_card = (c, row - 1);
                }
            },
            Direction::Down => {
                if row + 1 < self.rows.len() {
                    let c = self.column_after_move(row, row + 1);
                    self.selected_card = (c, row + 1);
                }
            },
            Direction::Confirm => {
                if !self.show_modal {
                    match self.rows[row].cards[col].image {
                        CardImage::Ready(_) => {
                            self.show_modal = true;
                        },
                        _ => {},
                    }
                }
            },
            Direction::Back => {
                self.show_modal = false;
            },
            Direction::Quit => {
                return false;
            },
        }
        true
    }

    /// Applies a frame's queued inputs in order, up to the first `Quit`,
    /// which ends the frame loop: the inputs after it are not applied.
    /// Returns false when there is a `Quit`.
    pub fn apply_inputs(&mut self, inputs: &Vec<Direction>) -> (r: bool)
        requires
            old(self).wf(),
        ensures
            final(self).wf(),
            r == no_quit(inputs@),
            r ==> *final(self) == after_inputs(*old(self), inputs@),
            !r ==> exists|k: int|
                0 <= k < inputs.len() && #[trigger] inputs@[k] is Quit && no_quit(inputs@.take(k))
                    && *final(self) == after_inputs(*old(self), inputs@.take(k)),
    {
        let mut i: usize = 0;
        let mut quit = false;
        assert(inputs@.take(0) =~= Seq::<Direction>::empty());
        while i < inputs.len() && !quit
            invariant
                i <= inputs.len(),
                *self == after_inputs(*old(self), inputs@.take(i as int)),
                self.wf(),
                no_quit(inputs@.take(i as int)),
                quit ==> i < inputs.len() && inputs@[i as int] is Quit,
            decreases inputs.len() - i + if quit { 0int } else { 1int },
        {
            match inputs[i] {
                Direction::Quit => {
                    quit = true;
                },
                d => {
                    assert(inputs@.take(i as int + 1).drop_last() =~= inputs@.take(i as int));
                    assert(inputs@.take(i as int + 1).last() == d);
                    self.handle_direction(d);
                    i = i + 1;
                    assert forall|k: int| 0 <= k < inputs@.take(i as int).len() implies !(
                    #[trigger] inputs@.take(i as int)[k] is Quit) by {
                        if k < i - 1 {
                            assert(inputs@.take(i as int)[k] == inputs@.take(i - 1)[k]);
                        }
                    }
                },
            }
        }
        if quit {
            assert(!no_quit(inputs@));
            false
        } else {
            assert(inputs@.take(inputs.len() as int) =~= inputs@);
            true
        }
    }

    fn column_after_move(&self, from: usize, to: usize) -> (c: usize)
        requires
            self.wf(),
            self.rows.len() > 0,
            from == self.selected_card.1,
            to < self.rows.len(),
        ensures
            c as int == column_after_move(*self, from as int, to as int),
    {
        let col = self.selected_card.0;
        let to_steps = round_steps(self.rows[to].scroll);
        let from_steps = round_steps(self.rows[from].scroll);
        assert(self.rows[to as int].wf());
        assert(self.rows[from as int].wf());
        assert(-MAX_STEPS - 1 <= to_steps <= MAX_STEPS + 1);
        assert(-MAX_STEPS - 1 <= from_steps <= MAX_STEPS + 1);
        let c: i64 = col as i64 + to_steps - from_steps;
        let len = self.rows[to].cards.len();
        if c < 0 {
            0
        } else if c >= len as i64 {
            len - 1
        } else {
            c as usize
        }
    }
}

} // verus!
