//! The library: rows of cards, the selection cursor, scroll state and the
//! queue of rows still to be fetched.

use vstd::prelude::*;
use crate::collection::{ContentSet, Item};
use crate::motion::{MAX_MILLI, MAX_STEPS};

verus! {

/// Most rows the library holds; the fixed-point coordinates leave room for
/// this many.
pub const MAX_ROWS: usize = 1_000_000;

/// Most cards a row holds; the fixed-point coordinates leave room for this
/// many.
pub const MAX_CARDS: usize = 1_000_000;

/// Where a card's image stands. It only ever moves from `Remote` to
/// `Pending` and from `Pending` to `Ready` or `Failed`.
pub enum CardImage {
    /// Not requested yet; the address to fetch it from.
    Remote(String),
    /// A fetch is in flight; its result will be registered under this id.
    Pending(u32),
    /// Decoded and registered under this id.
    Ready(u32),
    /// The fetch or the decode failed; never retried.
    Failed,
}

pub struct Card {
    pub title: String,
    pub image: CardImage,
    /// Visual scale, in thousandths.
    pub size: i64,
    pub ratings: Vec<String>,
    pub release_dates: Vec<String>,
}

pub struct Row {
    /// Horizontal scroll position, in thousandths of a card step.
    pub scroll: i64,
    /// Horizontal scroll target, in whole card steps.
    pub scroll_target: i64,
    /// Title height, in thousandths.
    pub text_height: i64,
    pub text_height_target: i64,
    pub title: String,
    pub cards: Vec<Card>,
}

pub struct State {
    pub rows: Vec<Row>,
    /// The selected `(column, row)`.
    pub selected_card: (usize, usize),
    pub show_modal: bool,
    /// Vertical scroll position, in thousandths of a row step.
    pub scroll: i64,
    /// Vertical scroll target, in whole row steps.
    pub scroll_target: i64,
    /// Ids of rows known to exist and not fetched yet, in display order.
    pub queued_row_refs: Vec<String>,
    /// True while a row fetch is outstanding.
    pub row_stream_busy: bool,
}

/// The items of a set that become cards: those with a tile image, in order.
pub open spec fn shown_items(items: Seq<Item>) -> Seq<Item>
    decreases items.len(),
{
    if items.len() == 0 {
        Seq::empty()
    } else if items.last().image_uri is Some {
        shown_items(items.drop_last()).push(items.last())
    } else {
        shown_items(items.drop_last())
    }
}

/// `card` is the card made of `item`: its title, its image address, at rest.
pub open spec fn is_card_of(card: Card, item: Item) -> bool {
    &&& item.image_uri is Some
    &&& card.title@ == item.text.name()
    &&& card.image is Remote
    &&& card.image->Remote_0@ == item.image_uri->0@
    &&& card.size == 0
    &&& card.ratings@ == item.ratings@
    &&& card.release_dates@ == item.release_dates@
}

/// `row` is the row made of a set with `title` and `items`, at rest.
pub open spec fn is_row_of(row: Row, title: Seq<char>, items: Seq<Item>) -> bool {
    let shown = shown_items(items);
    &&& row.title@ == title
    &&& row.scroll == 0
    &&& row.scroll_target == 0
    &&& row.text_height == 0
    &&& row.text_height_target == 0
    &&& row.cards.len() == shown.len()
    &&& forall|i: int| 0 <= i < shown.len() ==> is_card_of(#[trigger] row.cards[i], shown[i])
}

/// A set becomes a row when it is given with its items, has a title and has
/// between one and `MAX_CARDS` items with an image. A row without cards is
/// left out: it could never hold the selection.
pub open spec fn set_gives_row(set: ContentSet) -> bool {
    match set {
        ContentSet::CuratedSet { title, items, .. } => {
            &&& title is Some
            &&& 0 < shown_items(items@).len() <= MAX_CARDS
        },
        ContentSet::SetRef { .. } => false,
    }
}

/// `row` is the row that `set` becomes.
pub open spec fn row_of_set(row: Row, set: ContentSet) -> bool {
    match set {
        ContentSet::CuratedSet { title, items, .. } => {
            &&& set_gives_row(set)
            &&& is_row_of(row, title->0@, items@)
        },
        ContentSet::SetRef { .. } => false,
    }
}

proof fn lemma_shown_items_len(items: Seq<Item>)
    ensures
        shown_items(items).len() <= items.len(),
    decreases items.len(),
{
    if items.len() > 0 {
        lemma_shown_items_len(items.drop_last());
    }
}

pub(crate) fn copy_texts(v: &Vec<String>) -> (r: Vec<String>)
    ensures
        r@ == v@,
{
    let mut r: Vec<String> = Vec::new();
    let mut i: usize = 0;
    while i < v.len()
        invariant
            i <= v.len(),
            r@ == v@.subrange(0, i as int),
        decreases v.len() - i,
    {
        r.push(v[i].clone());
        i = i + 1;
    }
    assert(r@ =~= v@);
    r
}

impl Card {
    /// The card for an item, or `None` when the item has no tile image.
    pub fn from_item(item: &Item) -> (r: Option<Card>)
        ensures
            r is Some <==> item.image_uri is Some,
            r is Some ==> is_card_of(r->0, *item) && r->0.wf(),
    {
        let title = item.text.get_name()?;
        match &item.image_uri {
            Some(uri) => Some(
                Card {
                    title,
                    image: CardImage::Remote(uri.clone()),
                    size: 0,
                    ratings: copy_texts(&item.ratings),
                    release_dates: copy_texts(&item.release_dates),
                },
            ),
            None => None,
        }
    }
}

impl Row {
    /// The row for a set, or `None` when the set does not become one (see
    /// `set_gives_row`).
    pub fn from_set(set: &ContentSet) -> (r: Option<Row>)
        ensures
            r is Some <==> set_gives_row(*set),
            r is Some ==> row_of_set(r->0, *set) && r->0.wf(),
    {
        match set {
            ContentSet::CuratedSet { title, items, .. } => {
                let title = match title {
                    Some(t) => t.clone(),
                    None => {
                        return None;
                    },
                };
                let mut cards: Vec<Card> = Vec::new();
                let mut i: usize = 0;
                while i < items.len()
                    invariant
                        i <= items.len(),
                        cards.len() == shown_items(items@.subrange(0, i as int)).len(),
                        cards.len() <= i,
                        forall|k: int|
                            0 <= k < cards.len() ==> is_card_of(
                                #[trigger] cards[k],
                                shown_items(items@.subrange(0, i as int))[k],
                            ) && cards[k].wf(),
                    decreases items.len() - i,
                {
                    let ghost before = items@.subrange(0, i as int);
                    let ghost after = items@.subrange(0, i as int + 1);
                    assert(after.drop_last() =~= before);
                    assert(after.last() == items@[i as int]);
                    proof {
                        lemma_shown_items_len(before);
                    }
                    match Card::from_item(&items[i]) {
                        Some(card) => {
                            cards.push(card);
                        },
                        None => {},
                    }
                    i = i + 1;
                }
                assert(items@.subrange(0, items.len() as int) =~= items@);
                if cards.len() == 0 || cards.len() > MAX_CARDS {
                    return None;
                }
                Some(
                    Row {
                        scroll: 0,
                        scroll_target: 0,
                        text_height: 0,
                        text_height_target: 0,
                        title,
                        cards,
                    },
                )
            },
            ContentSet::SetRef { .. } => None,
        }
    }
}

/// The ids of the referenced sets among `sets`, in order.
pub open spec fn home_refs(sets: Seq<ContentSet>) -> Seq<Seq<char>>
    decreases sets.len(),
{
    if sets.len() == 0 {
        Seq::empty()
    } else {
        match sets.last() {
            ContentSet::SetRef { ref_id, .. } => home_refs(sets.drop_last()).push(ref_id@),
            ContentSet::CuratedSet { .. } => home_refs(sets.drop_last()),
        }
    }
}

/// The sets among `sets` that become rows, in order.
pub open spec fn row_sets(sets: Seq<ContentSet>) -> Seq<ContentSet>
    decreases sets.len(),
{
    if sets.len() == 0 {
        Seq::empty()
    } else if set_gives_row(sets.last()) {
        row_sets(sets.drop_last()).push(sets.last())
    } else {
        row_sets(sets.drop_last())
    }
}

/// `b` differs from `a` in its rows alone.
pub open spec fn same_but_rows(a: State, b: State) -> bool {
    &&& b.selected_card == a.selected_card
    &&& b.show_modal == a.show_modal
    &&& b.scroll == a.scroll
    &&& b.scroll_target == a.scroll_target
    &&& b.queued_row_refs == a.queued_row_refs
    &&& b.row_stream_busy == a.row_stream_busy
}

/// `b` holds the rows of `a` followed by the first of `sets` that fit, each
/// made into its row.
pub open spec fn rows_appended(a: State, b: State, sets: Seq<ContentSet>) -> bool {
    let n: int = if sets.len() <= MAX_ROWS - a.rows.len() {
        sets.len() as int
    } else {
        MAX_ROWS - a.rows.len()
    };
    &&& b.rows.len() == a.rows.len() + n
    &&& b.rows@.subrange(0, a.rows.len() as int) == a.rows@
    &&& forall|i: int|
        0 <= i < n ==> row_of_set(#[trigger] b.rows[a.rows.len() + i], sets[i])
}

impl Card {
    pub open spec fn wf(&self) -> bool {
        -MAX_MILLI <= self.size <= MAX_MILLI
    }
}

impl Row {
    /// The row holds cards, and every value stays within the fixed-point
    /// range that the frame arithmetic has room for.
    pub open spec fn wf(&self) -> bool {
        &&& 0 < self.cards.len() <= MAX_CARDS
        &&& -MAX_STEPS <= self.scroll_target <= MAX_STEPS
        &&& -MAX_MILLI <= self.scroll <= MAX_MILLI
        &&& -MAX_MILLI <= self.text_height <= MAX_MILLI
        &&& -MAX_MILLI <= self.text_height_target <= MAX_MILLI
        &&& forall|i: int| 0 <= i < self.cards.len() ==> (#[trigger] self.cards[i]).wf()
    }
}

impl State {
    /// The selection names an existing card, or is `(0, 0)` while there are
    /// no rows.
    pub open spec fn selection_valid(&self) -> bool {
        if self.rows.len() == 0 {
            self.selected_card == (0usize, 0usize)
        } else {
            &&& self.selected_card.1 < self.rows.len()
            &&& self.selected_card.0 < self.rows[self.selected_card.1 as int].cards.len()
        }
    }

    pub open spec fn wf(&self) -> bool {
        &&& self.rows.len() <= MAX_ROWS
        &&& forall|i: int| 0 <= i < self.rows.len() ==> (#[trigger] self.rows[i]).wf()
        &&& self.selection_valid()
        &&& -MAX_STEPS <= self.scroll_target <= MAX_STEPS
        &&& -MAX_MILLI <= self.scroll <= MAX_MILLI
    }

    /// The ids of the queued rows.
    pub open spec fn queued_refs(&self) -> Seq<Seq<char>> {
        self.queued_row_refs@.map_values(|s: String| s@)
    }

    /// An empty library: no rows, nothing queued, selection at `(0, 0)`.
    pub fn new() -> (r: State)
        ensures
            r.wf(),
            r.rows.len() == 0,
            r.queued_row_refs.len() == 0,
            r.selected_card == (0usize, 0usize),
            !r.show_modal,
            !r.row_stream_busy,
            r.scroll == 0,
            r.scroll_target == 0,
    {
        State {
            rows: Vec::new(),
            selected_card: (0, 0),
            show_modal: false,
            scroll: 0,
            scroll_target: 0,
            queued_row_refs: Vec::new(),
            row_stream_busy: false,
        }
    }

    /// Appends `row` below the others, unless the library is full.
    pub fn push_row(&mut self, row: Row) -> (pushed: bool)
        requires
            old(self).wf(),
            row.wf(),
        ensures
            final(self).wf(),
            same_but_rows(*old(self), *final(self)),
            pushed == (old(self).rows.len() < MAX_ROWS),
            pushed ==> final(self).rows@ == old(self).rows@.push(row),
            !pushed ==> *final(self) == *old(self),
    {
        if self.rows.len() < MAX_ROWS {
            self.rows.push(row);
            assert(self.rows[self.rows.len() - 1].wf());
            true
        } else {
            false
        }
    }

    /// Takes in the home catalogue: each set given with its items becomes a
    /// row (when it makes one), each reference is queued for streaming.
    pub fn apply_home(&mut self, sets: &Vec<ContentSet>)
        requires
            old(self).wf(),
        ensures
            final(self).wf(),
            rows_appended(*old(self), *final(self), row_sets(sets@)),
            final(self).queued_refs() == old(self).queued_refs() + home_refs(sets@),
            final(self).selected_card == old(self).selected_card,
            final(self).show_modal == old(self).show_modal,
            final(self).scroll == old(self).scroll,
            final(self).scroll_target == old(self).scroll_target,
            final(self).row_stream_busy == old(self).row_stream_busy,
    {
        let ghost start = *self;
        let mut i: usize = 0;
        assert(sets@.subrange(0, 0) =~= Seq::<ContentSet>::empty());
        assert(self.rows@.subrange(0, self.rows.len() as int) =~= self.rows@);
        assert(self.queued_refs() =~= start.queued_refs() + Seq::<Seq<char>>::empty());
        while i < sets.len()
            invariant
                i <= sets.len(),
                self.wf(),
                rows_appended(start, *self, row_sets(sets@.subrange(0, i as int))),
                self.queued_refs() == start.queued_refs() + home_refs(sets@.subrange(0, i as int)),
                self.selected_card == start.selected_card,
                self.show_modal == start.show_modal,
                self.scroll == start.scroll,
                self.scroll_target == start.scroll_target,
                self.row_stream_busy == start.row_stream_busy,
                start.rows.len() <= MAX_ROWS,
            decreases sets.len() - i,
        {
            let ghost before = sets@.subrange(0, i as int);
            let ghost after = sets@.subrange(0, i as int + 1);
            assert(after.drop_last() =~= before);
            assert(after.last() == sets@[i as int]);
            let ghost prev = *self;
            match &sets[i] {
                ContentSet::SetRef { ref_id, .. } => {
                    self.queued_row_refs.push(ref_id.clone());
                    assert(self.queued_refs() =~= prev.queued_refs().push(ref_id@));
                    assert(self.queued_refs() =~= start.queued_refs() + home_refs(after));
                    assert(self.rows == prev.rows);
                },
                ContentSet::CuratedSet { .. } => {
                    match Row::from_set(&sets[i]) {
                        Some(row) => {
                            let ghost r = row;
                            let pushed = self.push_row(row);
                            assert(row_sets(after) == row_sets(before).push(sets@[i as int]));
                            if pushed {
                                assert(self.rows@.subrange(0, start.rows.len() as int)
                                    =~= prev.rows@.subrange(0, start.rows.len() as int));
                                assert(self.rows[self.rows.len() - 1] == r);
                            }
                        },
                        None => {},
                    }
                    assert(home_refs(after) == home_refs(before));
                },
            }
            i = i + 1;
        }
        assert(sets@.subrange(0, sets.len() as int) =~= sets@);
    }
}

} // verus!
