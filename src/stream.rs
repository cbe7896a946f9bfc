//! Row streaming: queued row references are fetched one at a time as the
//! selection nears the last loaded rows.

use vstd::prelude::*;
use crate::collection::ContentSet;
use crate::state::{row_of_set, set_gives_row, Row, State, MAX_ROWS};

verus! {

/// A row fetch is due: the selection is on one of the last two rows (or
/// there are fewer), no row fetch is outstanding and a reference is queued.
pub open spec fn prefetch_due(s: State) -> bool {
    &&& s.selected_card.1 + 2 >= s.rows.len()
    &&& !s.row_stream_busy
    &&& s.queued_row_refs.len() > 0
}

/// The library once a row fetch has started: busy, and the front
/// reference taken off the queue.
pub open spec fn prefetch_started(a: State, b: State) -> bool {
    &&& b.row_stream_busy
    &&& b.queued_row_refs@ == a.queued_row_refs@.subrange(1, a.queued_row_refs.len() as int)
    &&& b.rows == a.rows
    &&& b.selected_card == a.selected_card
    &&& b.show_modal == a.show_modal
    &&& b.scroll == a.scroll
    &&& b.scroll_target == a.scroll_target
}

/// The library after `maybe_prefetch`.
pub open spec fn after_prefetch(a: State, b: State) -> bool {
    if prefetch_due(a) {
        prefetch_started(a, b)
    } else {
        b == a
    }
}

/// While a row fetch is outstanding no other starts, however often the
/// check runs; once one starts, the library is busy.
pub proof fn lemma_one_row_fetch_at_a_time(a: State, b: State)
    requires
        after_prefetch(a, b),
    ensures
        a.row_stream_busy ==> !prefetch_due(a) && b == a,
        prefetch_due(a) ==> b.row_stream_busy && !prefetch_due(b),
        b.row_stream_busy ==> !prefetch_due(b),
{
}

impl State {
    /// Starts the next row fetch when one is due: marks the library busy
    /// and returns the front queued reference; otherwise changes nothing.
    pub fn maybe_prefetch(&mut self) -> (r: Option<String>)
        requires
            old(self).wf(),
        ensures
            final(self).wf(),
            after_prefetch(*old(self), *final(self)),
            r is Some <==> prefetch_due(*old(self)),
            r is Some ==> r->0 == old(self).queued_row_refs[0],
    {
        if self.selected_card.1 as u64 + 2 >= self.rows.len() as u64 && !self.row_stream_busy
            && self.queued_row_refs.len() > 0 {
            self.row_stream_busy = true;
            let next = self.queued_row_refs.remove(0);
            Some(next)
        } else {
            None
        }
    }

    /// Ends the outstanding row fetch with its result, `None` where the
    /// fetch failed: a set that becomes a row is appended (while the
    /// library has room), anything else is dropped; either way the library
    /// is no longer busy.
    pub fn finish_row_fetch(&mut self, set: Option<ContentSet>) -> (appended: bool)
        requires
            old(self).wf(),
        ensures
            final(self).wf(),
            !final(self).row_stream_busy,
            final(self).queued_row_refs == old(self).queued_row_refs,
            final(self).selected_card == old(self).selected_card,
            final(self).show_modal == old(self).show_modal,
            final(self).scroll == old(self).scroll,
            final(self).scroll_target == old(self).scroll_target,
            appended == (set is Some && set_gives_row(set->0) && old(self).rows.len() < MAX_ROWS),
            appended ==> final(self).rows.len() == old(self).rows.len() + 1
                && final(self).rows@.drop_last() == old(self).rows@
                && row_of_set(final(self).rows@.last(), set->0),
            !appended ==> final(self).rows == old(self).rows,
    {
        self.row_stream_busy = false;
        match set {
            Some(set) => match Row::from_set(&set) {
                Some(row) => {
                    let ghost r = row;
                    let pushed = self.push_row(row);
                    proof {
                        if pushed {
                            assert(self.rows@.drop_last() =~= old(self).rows@);
                        }
                    }
                    pushed
                },
                None => false,
            },
            None => false,
        }
    }
}

} // verus!
