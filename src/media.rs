//! Card image fetching: each card's image is fetched at most once, under a
//! resource id allocated before the fetch starts; a completion lands only on
//! the card that still waits for that very id.

use vstd::prelude::*;
use crate::state::{same_but_rows, Card, CardImage, State};

verus! {

/// image's decoded picture, carried through to the texture cache unread.
#[verifier::external_type_specification]
#[verifier::external_body]
pub struct ExDynamicImage(image::DynamicImage);

/// Whether `bytes` decode as an image of a format the decoder recognises.
pub uninterp spec fn decodes_as_image(bytes: Seq<u8>) -> bool;

/// Relies on image's `io::Reader` (`with_guessed_format`, then `decode`):
/// the format is guessed from the leading bytes and the image is decoded;
/// whether that succeeds depends on the bytes alone.
#[verifier::external_body]
fn decode(bytes: &[u8]) -> (r: Option<image::DynamicImage>)
    ensures
        r is Some <==> decodes_as_image(bytes@),
{
    image::io::Reader::new(std::io::Cursor::new(bytes)).with_guessed_format().ok()?.decode().ok()
}

/// Decodes the body of an image fetch; `None` stands for a fetch that
/// failed in transport.
pub fn decode_fetched(body: Option<Vec<u8>>) -> (r: Option<image::DynamicImage>)
    ensures
        r is Some <==> (body is Some && decodes_as_image(body->0@)),
{
    match body {
        Some(bytes) => decode(bytes.as_slice()),
        None => None,
    }
}

/// Hands out resource ids `1, 2, 3, ...`, each once; 0 is never handed out.
pub struct ResourceIds {
    issued: u32,
}

impl ResourceIds {
    /// The id the next allocation hands out.
    pub closed spec fn next_id(&self) -> int {
        self.issued + 1
    }

    /// Every id has been handed out.
    pub open spec fn exhausted(&self) -> bool {
        self.next_id() > u32::MAX
    }

    pub fn new() -> (r: ResourceIds)
        ensures
            r.next_id() == 1,
    {
        ResourceIds { issued: 0 }
    }

    /// A fresh id, greater than every id handed out before, or `None` once
    /// all are used.
    pub fn allocate(&mut self) -> (r: Option<u32>)
        ensures
            old(self).next_id() >= 1,
            !old(self).exhausted() ==> r == Some(old(self).next_id() as u32) && final(self).next_id()
                == old(self).next_id() + 1,
            old(self).exhausted() ==> r is None && final(self).next_id() == old(self).next_id(),
    {
        if self.issued < u32::MAX {
            self.issued = self.issued + 1;
            Some(self.issued)
        } else {
            None
        }
    }
}

/// A card image to fetch: from `uri`, for the card at `(row, card)`, to be
/// registered under `resource_id`.
pub struct FetchTask {
    pub row: usize,
    pub card: usize,
    pub resource_id: u32,
    pub uri: String,
}

/// Card `card` of row `row` exists in `s`.
pub open spec fn card_exists(s: State, row: int, card: int) -> bool {
    &&& 0 <= row < s.rows.len()
    &&& 0 <= card < s.rows[row].cards.len()
}

/// The image of card `card` of row `row` in `s`.
pub open spec fn image_at(s: State, row: int, card: int) -> CardImage {
    s.rows[row].cards[card].image
}

/// `b` is `a` with one card replaced by `c`.
pub open spec fn card_replaced(a: State, b: State, row: int, card: int, c: Card) -> bool {
    &&& card_exists(a, row, card)
    &&& same_but_rows(a, b)
    &&& b.rows.len() == a.rows.len()
    &&& forall|r: int| 0 <= r < a.rows.len() && r != row ==> b.rows[r] == a.rows[r]
    &&& b.rows[row].scroll == a.rows[row].scroll
    &&& b.rows[row].scroll_target == a.rows[row].scroll_target
    &&& b.rows[row].text_height == a.rows[row].text_height
    &&& b.rows[row].text_height_target == a.rows[row].text_height_target
    &&& b.rows[row].title == a.rows[row].title
    &&& b.rows[row].cards@ == a.rows[row].cards@.update(card, c)
}

/// `b` is `a` with the image of one card replaced by `img`.
pub open spec fn image_replaced(a: State, b: State, row: int, card: int, img: CardImage) -> bool {
    card_replaced(a, b, row, card, Card { image: img, ..a.rows[row].cards[card] })
}

/// One allowed move of a card image, or none: `Remote` to `Pending`,
/// `Pending(id)` to `Ready(id)` or to `Failed`.
pub open spec fn image_moves(a: CardImage, b: CardImage) -> bool {
    ||| a == b
    ||| a is Remote && b is Pending
    ||| a is Pending && (b == CardImage::Ready(a->Pending_0) || b is Failed)
}

/// Every card of `a` is still in `b`, its image moved as `image_moves`
/// allows.
pub open spec fn images_move_forward(a: State, b: State) -> bool {
    forall|y: int, x: int|
        #![trigger image_at(b, y, x)]
        card_exists(a, y, x) ==> card_exists(b, y, x) && image_moves(image_at(a, y, x), image_at(b, y, x))
}

/// Every card of `a` is still in `b`, with the same image.
pub open spec fn images_kept(a: State, b: State) -> bool {
    forall|y: int, x: int|
        #![trigger image_at(b, y, x)]
        card_exists(a, y, x) ==> card_exists(b, y, x) && image_at(b, y, x) == image_at(a, y, x)
}

/// Keeping images and then moving them forward moves them forward.
pub proof fn lemma_kept_then_forward(a: State, m: State, b: State)
    requires
        images_kept(a, m),
        images_move_forward(m, b),
    ensures
        images_move_forward(a, b),
{
    assert forall|y: int, x: int| card_exists(a, y, x) implies card_exists(b, y, x) && image_moves(
        image_at(a, y, x),
        #[trigger] image_at(b, y, x),
    ) by {
        assert(image_at(m, y, x) == image_at(a, y, x));
    }
}

/// Replacing one card's image by an allowed move moves every image forward.
pub proof fn lemma_replaced_moves_forward(a: State, b: State, row: int, card: int, img: CardImage)
    requires
        image_replaced(a, b, row, card, img),
        image_moves(image_at(a, row, card), img),
    ensures
        images_move_forward(a, b),
{
    assert forall|y: int, x: int| card_exists(a, y, x) implies card_exists(b, y, x) && image_moves(
        image_at(a, y, x),
        #[trigger] image_at(b, y, x),
    ) by {
        if y == row {
            assert(b.rows[y].cards[x] == a.rows[y].cards@.update(card, Card { image: img, ..a.rows[row].cards[card] })[x]);
        }
    }
}

/// `ensure_loading` starts a fetch: the card exists, is `Remote`, and an id
/// is left.
pub open spec fn starts_fetch(s: State, ids: ResourceIds, row: int, card: int) -> bool {
    &&& card_exists(s, row, card)
    &&& image_at(s, row, card) is Remote
    &&& !ids.exhausted()
}

/// A completion for `resource_id` lands: the card exists and still waits
/// for that id.
pub open spec fn completion_lands(s: State, row: int, card: int, resource_id: u32) -> bool {
    &&& card_exists(s, row, card)
    &&& image_at(s, row, card) == CardImage::Pending(resource_id)
}

/// Once `ensure_loading` has started the fetch of a card, asking again for
/// the same card starts nothing, whatever ids are left.
pub proof fn lemma_fetch_started_once(a: State, b: State, ids: ResourceIds, row: int, card: int, id: u32)
    requires
        image_replaced(a, b, row, card, CardImage::Pending(id)),
    ensures
        !starts_fetch(b, ids, row, card),
{
    assert(b.rows[row].cards[card] == Card { image: CardImage::Pending(id), ..a.rows[row].cards[card] });
}

/// A completion whose id is not the one the card waits for never lands, so
/// `finish_image_fetch` leaves the library as it was.
pub proof fn lemma_stale_completion_ignored(s: State, row: int, card: int, resource_id: u32)
    requires
        card_exists(s, row, card) ==> image_at(s, row, card) != CardImage::Pending(resource_id),
    ensures
        !completion_lands(s, row, card, resource_id),
{
}

impl State {
    fn set_card_image(&mut self, row: usize, card: usize, img: CardImage)
        requires
            old(self).wf(),
            card_exists(*old(self), row as int, card as int),
        ensures
            final(self).wf(),
            image_replaced(*old(self), *final(self), row as int, card as int, img),
    {
        let ghost prev = *self;
        self.rows[row].cards[card].image = img;
        assert(self.rows[row as int].cards@ =~= prev.rows[row as int].cards@.update(
            card as int,
            Card { image: img, ..prev.rows[row as int].cards[card as int] },
        ));
        assert forall|i: int| 0 <= i < self.rows.len() implies (#[trigger] self.rows[i]).wf() by {
            if i != row {
                assert(self.rows[i] == prev.rows[i]);
            } else {
                assert(prev.rows[i].wf());
                assert forall|k: int| 0 <= k < self.rows[i].cards.len() implies (
                #[trigger] self.rows[i].cards[k]).wf() by {
                    if k != card {
                        assert(self.rows[i].cards[k] == prev.rows[i].cards[k]);
                    }
                }
            }
        }
    }

    /// Makes sure the image of a visible card is on its way: a `Remote` card
    /// becomes `Pending` under a fresh id and the fetch to run is returned;
    /// any other card is left alone and nothing is returned.
    pub fn ensure_loading(&mut self, row: usize, card: usize, ids: &mut ResourceIds) -> (r: Option<
        FetchTask,
    >)
        requires
            old(self).wf(),
        ensures
            final(self).wf(),
            r is Some <==> starts_fetch(*old(self), *old(ids), row as int, card as int),
            r is Some ==> {
                let t = r->0;
                &&& t.row == row
                &&& t.card == card
                &&& t.resource_id == old(ids).next_id()
                &&& t.resource_id != 0
                &&& t.uri@ == image_at(*old(self), row as int, card as int)->Remote_0@
                &&& final(ids).next_id() == old(ids).next_id() + 1
                &&& image_replaced(
                    *old(self),
                    *final(self),
                    row as int,
                    card as int,
                    CardImage::Pending(t.resource_id),
                )
            },
            r is None ==> *final(self) == *old(self) && final(ids).next_id() == old(ids).next_id(),
            images_move_forward(*old(self), *final(self)),
    {
        if row >= self.rows.len() || card >= self.rows[row].cards.len() {
            return None;
        }
        let uri = match &self.rows[row].cards[card].image {
            CardImage::Remote(uri) => uri.clone(),
            _ => {
                return None;
            },
        };
        let id = match ids.allocate() {
            Some(id) => id,
            None => {
                return None;
            },
        };
        self.set_card_image(row, card, CardImage::Pending(id));
        proof {
            lemma_replaced_moves_forward(*old(self), *self, row as int, card as int, CardImage::Pending(id));
        }
        Some(FetchTask { row, card, resource_id: id, uri })
    }

    /// Records the outcome of the fetch for `resource_id`: when the card
    /// still waits for that id it becomes `Ready` (if the image `decoded`)
    /// or `Failed`, and true is returned; a stale completion changes nothing.
    pub fn finish_image_fetch(&mut self, row: usize, card: usize, resource_id: u32, decoded: bool) -> (landed: bool)
        requires
            old(self).wf(),
        ensures
            final(self).wf(),
            landed == completion_lands(*old(self), row as int, card as int, resource_id),
            landed ==> image_replaced(
                *old(self),
                *final(self),
                row as int,
                card as int,
                if decoded {
                    CardImage::Ready(resource_id)
                } else {
                    CardImage::Failed
                },
            ),
            !landed ==> *final(self) == *old(self),
            images_move_forward(*old(self), *final(self)),
    {
        if row >= self.rows.len() || card >= self.rows[row].cards.len() {
            return false;
        }
        let waiting = match self.rows[row].cards[card].image {
            CardImage::Pending(id) => id == resource_id,
            _ => false,
        };
        if !waiting {
            return false;
        }
        let img = if decoded {
            CardImage::Ready(resource_id)
        } else {
            CardImage::Failed
        };
        self.set_card_image(row, card, img);
        proof {
            lemma_replaced_moves_forward(*old(self), *self, row as int, card as int, img);
        }
        true
    }
}

} // verus!
