//! The per-frame pass: scroll targets follow the safe-area rule, every
//! animated value eases toward its target, and the visible cards become
//! tiles for the renderer, starting the fetch of any image not requested yet.

use vstd::prelude::*;
use crate::animate::{advanced, lemma_advance_keeps_images};
use crate::input::selected_ready;
use crate::media::{
    card_exists, card_replaced, image_at, image_moves, image_replaced, images_kept,
    images_move_forward, lemma_kept_then_forward, FetchTask, ResourceIds,
};
use crate::motion::{
    card_x, ease, eased, row_y, CARD_SCROLL_UNIT, CARD_SPACING, CULL_BOUND, FIRST_CARD_X,
    FIRST_ROW_Y, MODAL_CARD_SIZE, MODAL_TILE_X, ROW_SCROLL_UNIT, ROW_SPACING, SIZE_RATE,
    TEXT_HEIGHT_UNIT,
};
use crate::state::{copy_texts, Card, CardImage, State};
use crate::stream::{after_prefetch, prefetch_due};

verus! {

/// One card to draw: the texture to bind (0 while none is ready), the
/// position of its centre in screen units and its size in thousandths.
pub struct Tile {
    pub tex_id: u32,
    pub x: i64,
    pub y: i64,
    pub size: i64,
}

/// A row title to draw: its text and its vertical position in screen units.
pub struct Label {
    pub text: String,
    pub y: i64,
}

/// The detail view of the selected card: its title and its rating and
/// release lines.
pub struct Detail {
    pub title: String,
    pub ratings: Vec<String>,
    pub release_dates: Vec<String>,
}

/// What one frame hands to the renderer and to the fetch scheduler.
pub struct Frame {
    pub tiles: Vec<Tile>,
    pub labels: Vec<Label>,
    /// Image fetches to run.
    pub fetches: Vec<FetchTask>,
    /// A row to fetch, by reference.
    pub row_fetch: Option<String>,
    /// Set when the detail view replaces the grid.
    pub detail: Option<Detail>,
}

/// The detail view replaces the grid: it is asked for and the selected
/// card's image is ready.
pub open spec fn modal_shown(s: State) -> bool {
    s.show_modal && selected_ready(s)
}

/// `labels` are the row titles of `s`, each raised by its title height.
pub open spec fn labels_of(labels: Seq<Label>, s: State) -> bool {
    &&& labels.len() == s.rows.len()
    &&& forall|y: int|
        0 <= y < labels.len() ==> {
            &&& (#[trigger] labels[y]).text@ == s.rows[y].title@
            &&& labels[y].y == tile_y(s, y) + TEXT_HEIGHT_UNIT * s.rows[y].text_height
        }
}

/// The grid frame: `a` advanced by `delta_ms` gives `m`; walking `m` gives
/// `b`, the `fetches` (ids from `first_id`) and the `tiles`; the labels are
/// those of `b`.
pub open spec fn grid_frame(a: State, m: State, b: State, f: Frame, first_id: int, exhausted: bool, delta_ms: int) -> bool {
    &&& advanced(a, m, delta_ms)
    &&& m.wf()
    &&& loads_started(m, b, first_id, f.fetches@, exhausted, m.rows.len() as int, 0)
    &&& f.tiles.len() == visible_cards(m).len()
    &&& forall|i: int| 0 <= i < f.tiles.len() ==> is_tile_of(#[trigger] f.tiles[i], m, visible_cards(m)[i])
    &&& labels_of(f.labels@, b)
    &&& f.detail is None
}

/// The detail frame: only the selected card changes, its size easing
/// toward the detail size; one enlarged tile and the card's texts.
pub open spec fn modal_frame(a: State, b: State, f: Frame, delta_ms: int) -> bool {
    let col = a.selected_card.0 as int;
    let row = a.selected_card.1 as int;
    let c = a.rows[row].cards[col];
    let size = eased(c.size as int, MODAL_CARD_SIZE as int, SIZE_RATE as int, delta_ms);
    &&& card_replaced(a, b, row, col, Card { size: size as i64, ..c })
    &&& f.tiles@ == seq![Tile { tex_id: c.image->Ready_0, x: MODAL_TILE_X, y: 0, size: size as i64 }]
    &&& f.labels.len() == 0
    &&& f.fetches.len() == 0
    &&& f.detail is Some
    &&& f.detail->0.title@ == c.title@
    &&& f.detail->0.ratings@ == c.ratings@
    &&& f.detail->0.release_dates@ == c.release_dates@
}

/// The frame drawn from `a`: the detail view when it shows, else the grid.
pub open spec fn tiles_frame(a: State, b: State, f: Frame, first_id: int, exhausted: bool, delta_ms: int) -> bool {
    if modal_shown(a) {
        modal_frame(a, b, f, delta_ms)
    } else {
        exists|m: State| #[trigger] advanced(a, m, delta_ms) && grid_frame(a, m, b, f, first_id, exhausted, delta_ms)
    }
}

/// Horizontal screen position of card `x` of row `y`.
pub open spec fn tile_x(s: State, y: int, x: int) -> int {
    card_x(x) - CARD_SCROLL_UNIT * s.rows[y].scroll
}

/// Vertical screen position of row `y`.
pub open spec fn tile_y(s: State, y: int) -> int {
    row_y(y) - ROW_SCROLL_UNIT * s.scroll
}

/// Card `x` of row `y` lies within the culling bounds.
pub open spec fn on_screen(s: State, y: int, x: int) -> bool {
    &&& -CULL_BOUND < tile_x(s, y, x) < CULL_BOUND
    &&& -CULL_BOUND < tile_y(s, y) < CULL_BOUND
}

/// The texture to bind for an image: its id once ready, else 0.
pub open spec fn texture_of(img: CardImage) -> u32 {
    match img {
        CardImage::Ready(id) => id,
        _ => 0,
    }
}

/// The on-screen cards among the first `n` of row `y`, in order.
pub open spec fn visible_in_row(s: State, y: int, n: int) -> Seq<(int, int)>
    decreases n,
{
    if n <= 0 {
        Seq::empty()
    } else if on_screen(s, y, n - 1) {
        visible_in_row(s, y, n - 1).push((y, n - 1))
    } else {
        visible_in_row(s, y, n - 1)
    }
}

/// The on-screen cards of the first `m` rows, row by row.
pub open spec fn visible_upto(s: State, m: int) -> Seq<(int, int)>
    decreases m,
{
    if m <= 0 {
        Seq::empty()
    } else {
        visible_upto(s, m - 1) + visible_in_row(s, m - 1, s.rows[m - 1].cards.len() as int)
    }
}

/// The on-screen cards, row by row.
pub open spec fn visible_cards(s: State) -> Seq<(int, int)> {
    visible_upto(s, s.rows.len() as int)
}

/// `t` is the tile of card `p` of `s`.
pub open spec fn is_tile_of(t: Tile, s: State, p: (int, int)) -> bool {
    &&& t.x == tile_x(s, p.0, p.1)
    &&& t.y == tile_y(s, p.0)
    &&& t.size == s.rows[p.0].cards[p.1].size
    &&& t.tex_id == texture_of(image_at(s, p.0, p.1))
}

/// Card `(y, x)` comes before card `(py, px)`, row by row.
pub open spec fn before(y: int, x: int, py: int, px: int) -> bool {
    y < py || (y == py && x < px)
}

/// `b` differs from `a` in card images alone.
pub open spec fn same_but_images(a: State, b: State) -> bool {
    &&& b.rows.len() == a.rows.len()
    &&& b.selected_card == a.selected_card
    &&& b.show_modal == a.show_modal
    &&& b.scroll == a.scroll
    &&& b.scroll_target == a.scroll_target
    &&& b.queued_row_refs == a.queued_row_refs
    &&& b.row_stream_busy == a.row_stream_busy
    &&& forall|y: int|
        0 <= y < a.rows.len() ==> {
            let ra = a.rows[y];
            let rb = #[trigger] b.rows[y];
            &&& rb.scroll == ra.scroll
            &&& rb.scroll_target == ra.scroll_target
            &&& rb.text_height == ra.text_height
            &&& rb.text_height_target == ra.text_height_target
            &&& rb.title == ra.title
            &&& rb.cards.len() == ra.cards.len()
            &&& forall|x: int|
                0 <= x < ra.cards.len() ==> (#[trigger] rb.cards[x]) == Card {
                    image: rb.cards[x].image,
                    ..ra.cards[x]
                }
        }
}

/// The fetches started while walking the cards of `a` before `(py, px)`:
/// `b` is `a` with each on-screen `Remote` card among them `Pending` under
/// the id of its fetch (ids counting up from `first_id`), unless the ids
/// ran out (`exhausted`); every other card is unchanged.
pub open spec fn loads_started(
    a: State,
    b: State,
    first_id: int,
    fetches: Seq<FetchTask>,
    exhausted: bool,
    py: int,
    px: int,
) -> bool {
    &&& same_but_images(a, b)
    &&& forall|y: int, x: int|
        #![trigger image_at(b, y, x)]
        card_exists(a, y, x) ==> {
            if before(y, x, py, px) && on_screen(a, y, x) && image_at(a, y, x) is Remote {
                ||| exhausted && image_at(b, y, x) == image_at(a, y, x)
                ||| {
                    let id = image_at(b, y, x)->Pending_0;
                    &&& image_at(b, y, x) is Pending
                    &&& first_id <= id < first_id + fetches.len()
                    &&& fetches[id - first_id].row == y
                    &&& fetches[id - first_id].card == x
                }
            } else {
                image_at(b, y, x) == image_at(a, y, x)
            }
        }
    &&& forall|i: int|
        #![trigger fetches[i]]
        0 <= i < fetches.len() ==> {
            let t = fetches[i];
            &&& t.resource_id == first_id + i
            &&& card_exists(a, t.row as int, t.card as int)
            &&& before(t.row as int, t.card as int, py, px)
            &&& on_screen(a, t.row as int, t.card as int)
            &&& image_at(a, t.row as int, t.card as int) is Remote
            &&& image_at(a, t.row as int, t.card as int)->Remote_0@ == t.uri@
            &&& image_at(b, t.row as int, t.card as int) == CardImage::Pending(t.resource_id)
        }
    &&& forall|i: int, j: int|
        0 <= i < j < fetches.len() ==> before(
            #[trigger] fetches[i].row as int,
            fetches[i].card as int,
            #[trigger] fetches[j].row as int,
            fetches[j].card as int,
        )
}

/// Over two frames in a row with no completion between them, no card gets
/// two fetches: the cards fetched by the second frame are not those fetched
/// by the first.
pub proof fn lemma_fetched_once_over_frames(
    a: State,
    b: State,
    c: State,
    first1: int,
    f1: Seq<FetchTask>,
    e1: bool,
    first2: int,
    f2: Seq<FetchTask>,
    e2: bool,
    i: int,
    j: int,
)
    requires
        loads_started(a, b, first1, f1, e1, a.rows.len() as int, 0),
        loads_started(b, c, first2, f2, e2, b.rows.len() as int, 0),
        0 <= i < f1.len(),
        0 <= j < f2.len(),
    ensures
        !(f1[i].row == f2[j].row && f1[i].card == f2[j].card),
{
    let t = f1[i];
    let u = f2[j];
    assert(image_at(b, t.row as int, t.card as int) is Pending);
    assert(image_at(b, u.row as int, u.card as int) is Remote);
}


/// One card's step of `load_visible` keeps `loads_started`, one card on.
proof fn lemma_load_step(
    a: State,
    s0: State,
    s1: State,
    first: int,
    f0: Seq<FetchTask>,
    f1: Seq<FetchTask>,
    e0: bool,
    e1: bool,
    y: int,
    x: int,
)
    requires
        card_exists(a, y, x),
        loads_started(a, s0, first, f0, e0, y, x),
        image_at(s0, y, x) == image_at(a, y, x),
        e0 ==> e1,
        ({
            ||| s1 == s0 && f1 == f0 && e1 == e0 && !(on_screen(a, y, x) && image_at(a, y, x) is Remote)
            ||| s1 == s0 && f1 == f0 && e1 == e0 && e1
            ||| {
                let t = f1.last();
                &&& on_screen(a, y, x)
                &&& image_at(a, y, x) is Remote
                &&& f1.len() == f0.len() + 1
                &&& f1.drop_last() == f0
                &&& t.row == y
                &&& t.card == x
                &&& t.resource_id == first + f0.len()
                &&& t.uri@ == image_at(a, y, x)->Remote_0@
                &&& image_replaced(s0, s1, y, x, CardImage::Pending(t.resource_id))
            }
        }),
    ensures
        loads_started(a, s1, first, f1, e1, y, x + 1),
{
    if s1 == s0 {
        assert forall|i: int| #![trigger f1[i]] 0 <= i < f1.len() implies before(
            f1[i].row as int,
            f1[i].card as int,
            y,
            x + 1,
        ) by {
            assert(f1[i] == f0[i]);
        }
    } else {
        let t = f1.last();
        assert forall|i: int| 0 <= i < f0.len() implies #[trigger] f1[i] == f0[i] by {
            assert(f1.drop_last()[i] == f1[i]);
        }
        assert(same_but_images(a, s1)) by {
            assert forall|yy: int| 0 <= yy < a.rows.len() implies {
                let ra = a.rows[yy];
                let rb = #[trigger] s1.rows[yy];
                &&& rb.scroll == ra.scroll
                &&& rb.scroll_target == ra.scroll_target
                &&& rb.text_height == ra.text_height
                &&& rb.text_height_target == ra.text_height_target
                &&& rb.title == ra.title
                &&& rb.cards.len() == ra.cards.len()
                &&& forall|xx: int|
                    0 <= xx < ra.cards.len() ==> (#[trigger] rb.cards[xx]) == Card {
                        image: rb.cards[xx].image,
                        ..ra.cards[xx]
                    }
            } by {
                let r0 = s0.rows[yy];
                if yy == y {
                    assert forall|xx: int| 0 <= xx < a.rows[yy].cards.len() implies (
                    #[trigger] s1.rows[yy].cards[xx]) == Card {
                        image: s1.rows[yy].cards[xx].image,
                        ..a.rows[yy].cards[xx]
                    } by {
                        assert(r0.cards[xx] == Card { image: r0.cards[xx].image, ..a.rows[yy].cards[xx] });
                        if xx != x {
                            assert(s1.rows[yy].cards[xx] == r0.cards[xx]);
                        }
                    }
                } else {
                    assert(s1.rows[yy] == r0);
                }
            }
        }
        assert forall|yy: int, xx: int| card_exists(a, yy, xx) && !(yy == y && xx == x) implies image_at(
            s1,
            yy,
            xx,
        ) == image_at(s0, yy, xx) by {
            if yy == y {
                assert(s1.rows[yy].cards[xx] == s0.rows[yy].cards[xx]);
            }
        }
        assert(image_at(s1, y, x) == CardImage::Pending(t.resource_id));
        assert forall|i: int| #![trigger f1[i]] 0 <= i < f1.len() implies {
            let u = f1[i];
            &&& u.resource_id == first + i
            &&& card_exists(a, u.row as int, u.card as int)
            &&& before(u.row as int, u.card as int, y, x + 1)
            &&& on_screen(a, u.row as int, u.card as int)
            &&& image_at(a, u.row as int, u.card as int) is Remote
            &&& image_at(a, u.row as int, u.card as int)->Remote_0@ == u.uri@
            &&& image_at(s1, u.row as int, u.card as int) == CardImage::Pending(u.resource_id)
        } by {
            if i < f0.len() {
                assert(f1[i] == f0[i]);
                let u = f0[i];
                assert(before(u.row as int, u.card as int, y, x));
                assert(image_at(s1, u.row as int, u.card as int) == image_at(s0, u.row as int, u.card as int));
            } else {
                assert(f1[i] == t);
            }
        }
        assert forall|yy: int, xx: int|
            #![trigger image_at(s1, yy, xx)]
            card_exists(a, yy, xx) implies {
                if before(yy, xx, y, x + 1) && on_screen(a, yy, xx) && image_at(a, yy, xx) is Remote {
                    ||| e1 && image_at(s1, yy, xx) == image_at(a, yy, xx)
                    ||| {
                        let id = image_at(s1, yy, xx)->Pending_0;
                        &&& image_at(s1, yy, xx) is Pending
                        &&& first <= id < first + f1.len()
                        &&& f1[id - first].row == yy
                        &&& f1[id - first].card == xx
                    }
                } else {
                    image_at(s1, yy, xx) == image_at(a, yy, xx)
                }
            } by {
            if !(yy == y && xx == x) {
                assert(image_at(s1, yy, xx) == image_at(s0, yy, xx));
                if before(yy, xx, y, x) && on_screen(a, yy, xx) && image_at(a, yy, xx) is Remote {
                    if !(e0 && image_at(s0, yy, xx) == image_at(a, yy, xx)) {
                        let id = image_at(s0, yy, xx)->Pending_0;
                        assert(f1[id - first] == f0[id - first]);
                    }
                }
            } else {
                assert(f1[t.resource_id - first] == t);
            }
        }
    }
}

/// Starting fetches moves every image forward.
proof fn lemma_loads_move_forward(
    a: State,
    b: State,
    first_id: int,
    fetches: Seq<FetchTask>,
    exhausted: bool,
)
    requires
        loads_started(a, b, first_id, fetches, exhausted, a.rows.len() as int, 0),
    ensures
        images_move_forward(a, b),
{
    assert forall|y: int, x: int| card_exists(a, y, x) implies card_exists(b, y, x) && image_moves(
        image_at(a, y, x),
        #[trigger] image_at(b, y, x),
    ) by {
        assert(b.rows[y].cards.len() == a.rows[y].cards.len());
    }
}

proof fn lemma_row_done(
    a: State,
    b: State,
    first_id: int,
    fetches: Seq<FetchTask>,
    exhausted: bool,
    y: int,
)
    requires
        0 <= y < a.rows.len(),
        loads_started(a, b, first_id, fetches, exhausted, y, a.rows[y].cards.len() as int),
    ensures
        loads_started(a, b, first_id, fetches, exhausted, y + 1, 0),
{
    assert forall|yy: int, xx: int| card_exists(a, yy, xx) implies before(yy, xx, y, a.rows[y].cards.len() as int)
        == before(yy, xx, y + 1, 0) by {}
}

impl State {
    fn load_card(
        &mut self,
        y: usize,
        x: usize,
        ids: &mut ResourceIds,
        tiles: &mut Vec<Tile>,
        fetches: &mut Vec<FetchTask>,
        Ghost(a): Ghost<State>,
        Ghost(first): Ghost<int>,
        Ghost(row_start): Ghost<Seq<(int, int)>>,
    )
        requires
            a.wf(),
            old(self).wf(),
            old(self).rows.len() == a.rows.len(),
            y < a.rows.len(),
            x < a.rows[y as int].cards.len(),
            old(self).rows[y as int].cards.len() == a.rows[y as int].cards.len(),
            loads_started(a, *old(self), first, old(fetches)@, old(ids).exhausted(), y as int, x as int),
            old(ids).next_id() == first + old(fetches).len(),
            old(tiles).len() == row_start.len() + visible_in_row(a, y as int, x as int).len(),
            forall|i: int|
                0 <= i < old(tiles).len() ==> is_tile_of(
                    #[trigger] old(tiles)[i],
                    a,
                    (row_start + visible_in_row(a, y as int, x as int))[i],
                ),
        ensures
            final(self).wf(),
            final(self).rows.len() == a.rows.len(),
            final(self).rows[y as int].cards.len() == a.rows[y as int].cards.len(),
            loads_started(a, *final(self), first, final(fetches)@, final(ids).exhausted(), y as int, x + 1),
            final(ids).next_id() == first + final(fetches).len(),
            final(tiles).len() == row_start.len() + visible_in_row(a, y as int, x + 1).len(),
            forall|i: int|
                0 <= i < final(tiles).len() ==> is_tile_of(
                    #[trigger] final(tiles)[i],
                    a,
                    (row_start + visible_in_row(a, y as int, x + 1))[i],
                ),
    {
        let ghost s0 = *self;
        let ghost f0 = fetches@;
        let ghost t0 = tiles@;
        let ghost e0 = ids.exhausted();
        assert(a.rows[y as int].wf());
        assert(self.rows[y as int] == self.rows[y as int]);
        assert(image_at(s0, y as int, x as int) == image_at(a, y as int, x as int));
        let scroll_x = self.rows[y].scroll;
        let tx: i64 = FIRST_CARD_X + x as i64 * CARD_SPACING - CARD_SCROLL_UNIT * scroll_x;
        let ty: i64 = FIRST_ROW_Y - y as i64 * ROW_SPACING - ROW_SCROLL_UNIT * self.scroll;
        let shown = -CULL_BOUND < tx && tx < CULL_BOUND && -CULL_BOUND < ty && ty < CULL_BOUND;
        assert(shown == on_screen(a, y as int, x as int));
        if shown {
            let tex_id: u32 = match &self.rows[y].cards[x].image {
                CardImage::Ready(id) => *id,
                _ => 0,
            };
            let size = self.rows[y].cards[x].size;
            tiles.push(Tile { tex_id, x: tx, y: ty, size });
            match self.ensure_loading(y, x, ids) {
                Some(task) => {
                    fetches.push(task);
                    assert(fetches@.drop_last() =~= f0);
                },
                None => {
                    assert(!(image_at(a, y as int, x as int) is Remote) || ids.exhausted());
                },
            }
        }
        proof {
            let s1 = *self;
            let f1 = fetches@;
            let e1 = ids.exhausted();
            assert(visible_in_row(a, y as int, x + 1) == if on_screen(a, y as int, x as int) {
                visible_in_row(a, y as int, x as int).push((y as int, x as int))
            } else {
                visible_in_row(a, y as int, x as int)
            });
            if shown {
                assert((row_start + visible_in_row(a, y as int, x + 1)) =~= (row_start
                    + visible_in_row(a, y as int, x as int)).push((y as int, x as int)));
            }
            lemma_load_step(a, s0, s1, first, f0, f1, e0, e1, y as int, x as int);
        }
    }
}

impl State {
    /// The row titles, each at its row's height raised by its title height.
    pub fn row_labels(&self) -> (r: Vec<Label>)
        requires
            self.wf(),
        ensures
            labels_of(r@, *self),
    {
        let mut labels: Vec<Label> = Vec::new();
        let mut y: usize = 0;
        while y < self.rows.len()
            invariant
                self.wf(),
                y <= self.rows.len(),
                labels.len() == y,
                forall|k: int|
                    0 <= k < y ==> {
                        &&& (#[trigger] labels[k]).text@ == self.rows[k].title@
                        &&& labels[k].y == tile_y(*self, k) + TEXT_HEIGHT_UNIT * self.rows[k].text_height
                    },
            decreases self.rows.len() - y,
        {
            assert(self.rows[y as int].wf());
            let height = FIRST_ROW_Y - y as i64 * ROW_SPACING - ROW_SCROLL_UNIT * self.scroll
                + TEXT_HEIGHT_UNIT * self.rows[y].text_height;
            labels.push(Label { text: self.rows[y].title.clone(), y: height });
            y = y + 1;
        }
        labels
    }

    fn detail_frame(&mut self, delta_ms: u32) -> (f: Frame)
        requires
            old(self).wf(),
            modal_shown(*old(self)),
        ensures
            final(self).wf(),
            modal_frame(*old(self), *final(self), f, delta_ms as int),
            f.row_fetch is None,
    {
        let ghost a = *self;
        let col = self.selected_card.0;
        let row = self.selected_card.1;
        assert(a.rows[row as int].wf());
        assert(a.rows[row as int].cards[col as int].wf());
        let tex_id: u32 = match &self.rows[row].cards[col].image {
            CardImage::Ready(id) => *id,
            _ => 0,
        };
        let size = ease(self.rows[row].cards[col].size, MODAL_CARD_SIZE, SIZE_RATE, delta_ms);
        self.rows[row].cards[col].size = size;
        assert(self.rows[row as int].cards@ =~= a.rows[row as int].cards@.update(
            col as int,
            Card { size, ..a.rows[row as int].cards[col as int] },
        ));
        assert forall|i: int| 0 <= i < self.rows.len() implies (#[trigger] self.rows[i]).wf() by {
            if i != row {
                assert(self.rows[i] == a.rows[i]);
            } else {
                assert(a.rows[i].wf());
                assert forall|k: int| 0 <= k < self.rows[i].cards.len() implies (
                #[trigger] self.rows[i].cards[k]).wf() by {
                    if k != col {
                        assert(self.rows[i].cards[k] == a.rows[i].cards[k]);
                    }
                }
            }
        }
        let card = &self.rows[row].cards[col];
        let detail = Detail {
            title: card.title.clone(),
            ratings: copy_texts(&card.ratings),
            release_dates: copy_texts(&card.release_dates),
        };
        let mut tiles: Vec<Tile> = Vec::new();
        tiles.push(Tile { tex_id, x: MODAL_TILE_X, y: 0, size });
        assert(tiles@ =~= seq![Tile { tex_id, x: MODAL_TILE_X, y: 0, size }]);
        Frame { tiles, labels: Vec::new(), fetches: Vec::new(), row_fetch: None, detail: Some(detail) }
    }

    /// Draws one frame from the library as it stands: the detail view of
    /// the selected card when it shows, else the grid, after one frame of
    /// scroll physics, starting the fetch of every on-screen image not
    /// requested yet.
    pub fn update_tiles(&mut self, delta_ms: u32, ids: &mut ResourceIds) -> (f: Frame)
        requires
            old(self).wf(),
        ensures
            final(self).wf(),
            tiles_frame(
                *old(self),
                *final(self),
                f,
                old(ids).next_id(),
                final(ids).exhausted(),
                delta_ms as int,
            ),
            final(ids).next_id() == old(ids).next_id() + f.fetches.len(),
            f.row_fetch is None,
            images_move_forward(*old(self), *final(self)),
            final(self).row_stream_busy == old(self).row_stream_busy,
            final(self).queued_row_refs == old(self).queued_row_refs,
    {
        let ghost a = *self;
        let mut shown = false;
        if self.show_modal && self.rows.len() > 0 {
            let col = self.selected_card.0;
            let row = self.selected_card.1;
            shown = match &self.rows[row].cards[col].image {
                CardImage::Ready(_) => true,
                _ => false,
            };
        }
        if shown {
            let f = self.detail_frame(delta_ms);
            proof {
                let col = a.selected_card.0 as int;
                let row = a.selected_card.1 as int;
                assert forall|y: int, x: int| card_exists(a, y, x) implies card_exists(*self, y, x)
                    && image_moves(image_at(a, y, x), #[trigger] image_at(*self, y, x)) by {
                    if y == row {
                        assert(self.rows[y].cards[x].image == a.rows[y].cards[x].image);
                    }
                }
            }
            f
        } else {
            self.advance(delta_ms);
            let ghost m = *self;
            let (tiles, fetches) = self.load_visible(ids);
            let labels = self.row_labels();
            let f = Frame { tiles, labels, fetches, row_fetch: None, detail: None };
            assert(grid_frame(a, m, *self, f, old(ids).next_id(), ids.exhausted(), delta_ms as int));
            proof {
                lemma_advance_keeps_images(a, m, delta_ms as int);
                lemma_kept_then_forward(a, m, *self);
            }
            f
        }
    }

    /// One frame: starts the next row fetch when one is due, then draws
    /// the frame (see `update_tiles`).
    pub fn frame_tick(&mut self, delta_ms: u32, ids: &mut ResourceIds) -> (f: Frame)
        requires
            old(self).wf(),
        ensures
            final(self).wf(),
            f.row_fetch is Some <==> prefetch_due(*old(self)),
            f.row_fetch is Some ==> f.row_fetch->0 == old(self).queued_row_refs[0],
            exists|p: State|
                #[trigger] after_prefetch(*old(self), p) && tiles_frame(
                    p,
                    *final(self),
                    f,
                    old(ids).next_id(),
                    final(ids).exhausted(),
                    delta_ms as int,
                ),
            final(ids).next_id() == old(ids).next_id() + f.fetches.len(),
            images_move_forward(*old(self), *final(self)),
            final(self).row_stream_busy == (old(self).row_stream_busy || prefetch_due(*old(self))),
            prefetch_due(*old(self)) ==> final(self).queued_row_refs@ == old(self).queued_row_refs@.subrange(
                1,
                old(self).queued_row_refs.len() as int,
            ),
            !prefetch_due(*old(self)) ==> final(self).queued_row_refs == old(self).queued_row_refs,
    {
        let row_fetch = self.maybe_prefetch();
        let ghost p = *self;
        let mut f = self.update_tiles(delta_ms, ids);
        f.row_fetch = row_fetch;
        assert(after_prefetch(*old(self), p));
        assert(images_kept(*old(self), p));
        proof {
            lemma_kept_then_forward(*old(self), p, *self);
        }
        f
    }

    /// Walks the cards row by row: each on-screen card becomes a tile, and
    /// each on-screen `Remote` card gets its fetch started (while ids last).
    pub fn load_visible(&mut self, ids: &mut ResourceIds) -> (r: (Vec<Tile>, Vec<FetchTask>))
        requires
            old(self).wf(),
        ensures
            final(self).wf(),
            loads_started(
                *old(self),
                *final(self),
                old(ids).next_id(),
                r.1@,
                final(ids).exhausted(),
                old(self).rows.len() as int,
                0,
            ),
            final(ids).next_id() == old(ids).next_id() + r.1.len(),
            images_move_forward(*old(self), *final(self)),
            r.0.len() == visible_cards(*old(self)).len(),
            forall|i: int|
                0 <= i < r.0.len() ==> is_tile_of(#[trigger] r.0[i], *old(self), visible_cards(*old(self))[i]),
    {
        let ghost a = *self;
        let ghost first = ids.next_id();
        let mut tiles: Vec<Tile> = Vec::new();
        let mut fetches: Vec<FetchTask> = Vec::new();
        let mut y: usize = 0;
        while y < self.rows.len()
            invariant
                a.wf(),
                self.wf(),
                self.rows.len() == a.rows.len(),
                y <= a.rows.len(),
                loads_started(a, *self, first, fetches@, ids.exhausted(), y as int, 0),
                ids.next_id() == first + fetches.len(),
                tiles.len() == visible_upto(a, y as int).len(),
                forall|i: int|
                    0 <= i < tiles.len() ==> is_tile_of(#[trigger] tiles[i], a, visible_upto(a, y as int)[i]),
            decreases a.rows.len() - y,
        {
            assert(a.rows[y as int].wf());
            let ghost row_start = visible_upto(a, y as int);
            let mut x: usize = 0;
            while x < self.rows[y].cards.len()
                invariant
                    a.wf(),
                    self.wf(),
                    self.rows.len() == a.rows.len(),
                    y < a.rows.len(),
                    self.rows[y as int].cards.len() == a.rows[y as int].cards.len(),
                    x <= a.rows[y as int].cards.len(),
                    row_start == visible_upto(a, y as int),
                    loads_started(a, *self, first, fetches@, ids.exhausted(), y as int, x as int),
                    ids.next_id() == first + fetches.len(),
                    tiles.len() == row_start.len() + visible_in_row(a, y as int, x as int).len(),
                    forall|i: int|
                        0 <= i < tiles.len() ==> is_tile_of(
                            #[trigger] tiles[i],
                            a,
                            (row_start + visible_in_row(a, y as int, x as int))[i],
                        ),
                decreases a.rows[y as int].cards.len() - x,
            {
                self.load_card(y, x, ids, &mut tiles, &mut fetches, Ghost(a), Ghost(first), Ghost(row_start));
                x = x + 1;
            }
            assert(visible_upto(a, y as int + 1) == row_start + visible_in_row(
                a,
                y as int,
                a.rows[y as int].cards.len() as int,
            ));
            proof {
                lemma_row_done(a, *self, first, fetches@, ids.exhausted(), y as int);
            }
            y = y + 1;
        }
        proof {
            lemma_loads_move_forward(a, *self, first, fetches@, ids.exhausted());
        }
        (tiles, fetches)
    }
}

} // verus!
