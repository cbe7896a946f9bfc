use content_grid::collection::{
    ContentSet, Item, ItemText, ItemTextTitle, ItemTextTitleFull, ItemTextTitleFullDefault,
};
use content_grid::input::Direction;
use content_grid::media::{decode_fetched, ResourceIds};
use content_grid::motion::{ease, round_steps, safe_area_step};
use content_grid::state::{Card, CardImage, Row, State};

fn item(title: &str, uri: Option<&str>) -> Item {
    Item {
        content_id: None,
        text: ItemText {
            title: ItemTextTitle {
                full: ItemTextTitleFull::Program {
                    default: ItemTextTitleFullDefault { content: title.to_string() },
                },
            },
        },
        image_uri: uri.map(|u| u.to_string()),
        ratings: vec!["PG".to_string()],
        release_dates: vec!["2020".to_string()],
    }
}

fn curated(title: Option<&str>, n: usize) -> ContentSet {
    let mut items = Vec::new();
    for i in 0..n {
        items.push(item(&format!("card {}", i), Some(&format!("http://img/{}", i))));
    }
    ContentSet::CuratedSet {
        set_id: "set".to_string(),
        title: title.map(|t| t.to_string()),
        items,
    }
}

fn set_ref(id: &str) -> ContentSet {
    ContentSet::SetRef {
        ref_id: id.to_string(),
        ref_id_type: "setId".to_string(),
        ref_type: "CuratedSet".to_string(),
    }
}

fn library(rows: usize, cards: usize) -> State {
    let mut s = State::new();
    let sets: Vec<ContentSet> = (0..rows).map(|r| curated(Some(&format!("row {}", r)), cards)).collect();
    s.apply_home(&sets);
    s
}

fn selection_valid(s: &State) -> bool {
    let (col, row) = s.selected_card;
    row < s.rows.len() && col < s.rows[row].cards.len()
}

#[test]
fn full_step_lands_on_target() {
    assert_eq!(ease(0, 10000, 90, 1000), 10000);
    assert_eq!(ease(-3000, 7000, 70, 1000), 7000);
    assert_eq!(ease(0, 10000, 90, 5000), 10000);
}

#[test]
fn zero_frame_moves_a_tenth_of_the_way() {
    assert_eq!(ease(0, 10000, 90, 0), 1000);
    assert_eq!(ease(10000, 0, 90, 0), 9000);
    assert_eq!(ease(5000, 5000, 90, 0), 5000);
}

#[test]
fn easing_at_frame_rate() {
    // factor 1 - (1 - 0.016) * 0.7 = 0.3112
    assert_eq!(ease(0, 1000, 70, 16), 311);
    assert_eq!(ease(1000, 0, 70, 16), 689);
}

#[test]
fn rounding_to_whole_steps() {
    assert_eq!(round_steps(0), 0);
    assert_eq!(round_steps(1499), 1);
    assert_eq!(round_steps(1500), 2);
    assert_eq!(round_steps(-1500), -2);
    assert_eq!(round_steps(-499), 0);
}

#[test]
fn safe_area_moves_target_forward() {
    assert_eq!(safe_area_step(7500, 0, 4000, 7100), 1);
}

#[test]
fn safe_area_keeps_and_moves_back() {
    assert_eq!(safe_area_step(7000, 0, 4000, 7100), 0);
    assert_eq!(safe_area_step(-7000, 0, 4000, 7100), 0);
    assert_eq!(safe_area_step(-7200, 0, 4000, 7100), -1);
    assert_eq!(safe_area_step(9000, 1, 6000, 7000), 1);
}

#[test]
fn title_of_every_kind() {
    let d = |s: &str| ItemTextTitleFullDefault { content: s.to_string() };
    let series = ItemTextTitleFull::Series { default: d("a") };
    let program = ItemTextTitleFull::Program { default: d("b") };
    let collection = ItemTextTitleFull::Collection { default: d("c") };
    assert_eq!(series.get_default().content, "a");
    assert_eq!(program.get_default().content, "b");
    assert_eq!(collection.get_default().content, "c");
    let text = ItemText { title: ItemTextTitle { full: series } };
    assert_eq!(text.get_name(), Some("a".to_string()));
}

#[test]
fn card_needs_an_image() {
    assert!(Card::from_item(&item("x", None)).is_none());
    let c = Card::from_item(&item("x", Some("http://i"))).unwrap();
    assert_eq!(c.title, "x");
    assert!(matches!(c.image, CardImage::Remote(ref u) if u == "http://i"));
    assert_eq!(c.size, 0);
    assert_eq!(c.ratings, vec!["PG".to_string()]);
}

#[test]
fn row_keeps_items_with_images_in_order() {
    let set = ContentSet::CuratedSet {
        set_id: "s".to_string(),
        title: Some("Row".to_string()),
        items: vec![item("a", Some("u1")), item("b", None), item("c", Some("u3"))],
    };
    let row = Row::from_set(&set).unwrap();
    assert_eq!(row.title, "Row");
    assert_eq!(row.cards.len(), 2);
    assert_eq!(row.cards[0].title, "a");
    assert_eq!(row.cards[1].title, "c");
}

#[test]
fn row_is_dropped_without_title_or_cards() {
    assert!(Row::from_set(&curated(None, 3)).is_none());
    assert!(Row::from_set(&curated(Some("t"), 0)).is_none());
    assert!(Row::from_set(&set_ref("r")).is_none());
}

#[test]
fn home_loads_rows_and_queues_references() {
    let mut s = State::new();
    s.apply_home(&vec![curated(Some("a"), 2), set_ref("r1"), curated(None, 2), set_ref("r2"), curated(Some("b"), 1)]);
    assert_eq!(s.rows.len(), 2);
    assert_eq!(s.rows[0].title, "a");
    assert_eq!(s.rows[1].title, "b");
    assert_eq!(s.queued_row_refs, vec!["r1".to_string(), "r2".to_string()]);
    assert_eq!(s.selected_card, (0, 0));
}

#[test]
fn right_and_left_clamp() {
    let mut s = library(1, 3);
    for _ in 0..5 {
        assert!(s.handle_direction(Direction::Right));
    }
    assert_eq!(s.selected_card, (2, 0));
    for _ in 0..5 {
        s.handle_direction(Direction::Left);
    }
    assert_eq!(s.selected_card, (0, 0));
}

#[test]
fn vertical_move_keeps_screen_column() {
    let mut s = library(2, 10);
    s.selected_card = (5, 0);
    s.rows[0].scroll = 3000;
    s.rows[1].scroll = 1000;
    s.handle_direction(Direction::Down);
    assert_eq!(s.selected_card, (3, 1));
    s.rows[1].scroll = 9600;
    s.handle_direction(Direction::Up);
    // 3 + round(3.0) - round(9.6) = -4, clamped to 0
    assert_eq!(s.selected_card, (0, 0));
    s.handle_direction(Direction::Up);
    assert_eq!(s.selected_card, (0, 0));
}

#[test]
fn vertical_move_clamps_to_short_row() {
    let mut s = State::new();
    s.apply_home(&vec![curated(Some("long"), 8), curated(Some("short"), 2)]);
    s.selected_card = (6, 0);
    s.handle_direction(Direction::Down);
    assert_eq!(s.selected_card, (1, 1));
}

#[test]
fn quit_stops_without_change() {
    let mut s = library(2, 2);
    assert!(!s.handle_direction(Direction::Quit));
    assert_eq!(s.selected_card, (0, 0));
}

#[test]
fn inputs_on_empty_library_do_nothing() {
    let mut s = State::new();
    for d in [Direction::Right, Direction::Down, Direction::Left, Direction::Up, Direction::Confirm] {
        assert!(s.handle_direction(d));
    }
    assert_eq!(s.selected_card, (0, 0));
    assert!(!s.show_modal);
}

#[test]
fn selection_stays_valid_for_any_inputs() {
    let mut s = State::new();
    s.apply_home(&vec![curated(Some("a"), 5), curated(Some("b"), 1), curated(Some("c"), 3)]);
    let dirs = [Direction::Right, Direction::Down, Direction::Up, Direction::Left, Direction::Confirm, Direction::Back];
    let mut seed: u64 = 12345;
    for _ in 0..500 {
        seed = seed.wrapping_mul(6364136223846793005).wrapping_add(1442695040888963407);
        let d = dirs[(seed >> 33) as usize % dirs.len()];
        s.handle_direction(d);
        assert!(selection_valid(&s));
    }
}

#[test]
fn confirm_needs_ready_image_and_back_closes() {
    let mut s = library(1, 1);
    s.handle_direction(Direction::Confirm);
    assert!(!s.show_modal);
    s.rows[0].cards[0].image = CardImage::Ready(4);
    s.handle_direction(Direction::Confirm);
    assert!(s.show_modal);
    s.handle_direction(Direction::Back);
    assert!(!s.show_modal);
}

#[test]
fn ensure_loading_starts_one_fetch() {
    let mut s = library(1, 2);
    let mut ids = ResourceIds::new();
    let t = s.ensure_loading(0, 1, &mut ids).unwrap();
    assert_eq!((t.row, t.card, t.resource_id), (0, 1, 1));
    assert_eq!(t.uri, "http://img/1");
    assert!(matches!(s.rows[0].cards[1].image, CardImage::Pending(1)));
    assert!(s.ensure_loading(0, 1, &mut ids).is_none());
    assert!(s.ensure_loading(0, 5, &mut ids).is_none());
    assert!(s.ensure_loading(3, 0, &mut ids).is_none());
    let t2 = s.ensure_loading(0, 0, &mut ids).unwrap();
    assert_eq!(t2.resource_id, 2);
}

#[test]
fn resource_ids_count_up_from_one() {
    let mut ids = ResourceIds::new();
    assert_eq!(ids.allocate(), Some(1));
    assert_eq!(ids.allocate(), Some(2));
    assert_eq!(ids.allocate(), Some(3));
}

#[test]
fn stale_completion_is_discarded() {
    let mut s = library(1, 1);
    let mut ids = ResourceIds::new();
    let t = s.ensure_loading(0, 0, &mut ids).unwrap();
    assert!(!s.finish_image_fetch(0, 0, t.resource_id + 1, true));
    assert!(matches!(s.rows[0].cards[0].image, CardImage::Pending(1)));
    assert!(!s.finish_image_fetch(2, 0, t.resource_id, true));
    assert!(s.finish_image_fetch(0, 0, t.resource_id, true));
    assert!(matches!(s.rows[0].cards[0].image, CardImage::Ready(1)));
    assert!(!s.finish_image_fetch(0, 0, t.resource_id, false));
    assert!(matches!(s.rows[0].cards[0].image, CardImage::Ready(1)));
}

#[test]
fn failed_fetch_is_terminal() {
    let mut s = library(1, 1);
    let mut ids = ResourceIds::new();
    let t = s.ensure_loading(0, 0, &mut ids).unwrap();
    assert!(s.finish_image_fetch(0, 0, t.resource_id, false));
    assert!(matches!(s.rows[0].cards[0].image, CardImage::Failed));
    assert!(s.ensure_loading(0, 0, &mut ids).is_none());
}

#[test]
fn decoding_checks_the_bytes() {
    assert!(decode_fetched(None).is_none());
    assert!(decode_fetched(Some(vec![1, 2, 3, 4])).is_none());
    let img = image::DynamicImage::new_rgb8(2, 2);
    let mut bytes = std::io::Cursor::new(Vec::new());
    img.write_to(&mut bytes, image::ImageOutputFormat::Png).unwrap();
    let decoded = decode_fetched(Some(bytes.into_inner())).unwrap();
    assert_eq!((decoded.width(), decoded.height()), (2, 2));
}

#[test]
fn one_row_fetch_at_a_time() {
    let mut s = State::new();
    s.apply_home(&vec![curated(Some("a"), 1), set_ref("r1"), set_ref("r2")]);
    assert_eq!(s.maybe_prefetch(), Some("r1".to_string()));
    assert!(s.row_stream_busy);
    for _ in 0..3 {
        assert_eq!(s.maybe_prefetch(), None);
    }
    assert!(s.finish_row_fetch(Some(curated(Some("b"), 2))));
    assert!(!s.row_stream_busy);
    assert_eq!(s.rows.len(), 2);
    assert_eq!(s.rows[1].title, "b");
    assert_eq!(s.maybe_prefetch(), Some("r2".to_string()));
    assert!(!s.finish_row_fetch(None));
    assert!(!s.row_stream_busy);
    assert_eq!(s.maybe_prefetch(), None);
}

#[test]
fn prefetch_waits_for_selection_near_end() {
    let mut s = State::new();
    s.apply_home(&vec![curated(Some("a"), 1), curated(Some("b"), 1), curated(Some("c"), 1), curated(Some("d"), 1), set_ref("r")]);
    assert_eq!(s.maybe_prefetch(), None);
    s.handle_direction(Direction::Down);
    assert_eq!(s.maybe_prefetch(), None);
    s.handle_direction(Direction::Down);
    assert_eq!(s.maybe_prefetch(), Some("r".to_string()));
}

#[test]
fn failed_row_is_dropped() {
    let mut s = State::new();
    s.apply_home(&vec![set_ref("r")]);
    assert_eq!(s.maybe_prefetch(), Some("r".to_string()));
    assert!(!s.finish_row_fetch(Some(curated(None, 2))));
    assert!(s.rows.is_empty());
    assert!(!s.row_stream_busy);
}

#[test]
fn end_to_end_three_cards() {
    let mut s = State::new();
    s.apply_home(&vec![curated(Some("home"), 3)]);
    let mut ids = ResourceIds::new();
    let f = s.frame_tick(16, &mut ids);
    assert_eq!(f.fetches.len(), 3);
    let got: Vec<u32> = f.fetches.iter().map(|t| t.resource_id).collect();
    assert_eq!(got, vec![1, 2, 3]);
    for (x, card) in s.rows[0].cards.iter().enumerate() {
        assert!(matches!(card.image, CardImage::Pending(id) if id == got[x]));
    }
    assert_eq!(f.tiles.len(), 3);
    assert!(f.tiles.iter().all(|t| t.tex_id == 0));
    for t in &f.fetches {
        assert!(s.finish_image_fetch(t.row, t.card, t.resource_id, true));
    }
    let f2 = s.frame_tick(16, &mut ids);
    assert!(f2.fetches.is_empty());
    let tex: Vec<u32> = f2.tiles.iter().map(|t| t.tex_id).collect();
    assert_eq!(tex, vec![1, 2, 3]);
    assert!(s.rows[0].cards.iter().all(|c| matches!(c.image, CardImage::Ready(_))));
}

#[test]
fn tiles_sit_on_the_grid() {
    let mut s = library(1, 2);
    let mut ids = ResourceIds::new();
    let f = s.update_tiles(1000, &mut ids);
    assert_eq!(f.tiles.len(), 2);
    assert_eq!((f.tiles[0].x, f.tiles[0].y), (-7000, 6000));
    assert_eq!((f.tiles[1].x, f.tiles[1].y), (-3000, 6000));
    assert_eq!(f.tiles[0].size, 420);
    assert_eq!(f.tiles[1].size, 320);
    assert_eq!(f.labels.len(), 1);
    assert_eq!(f.labels[0].text, "row 0");
    // the title height eases toward the target it had when the frame began
    assert_eq!(f.labels[0].y, 6000);
    assert!(f.detail.is_none());
    let f2 = s.update_tiles(1000, &mut ids);
    assert_eq!(f2.labels[0].y, 6000 + 10 * 300);
}

#[test]
fn offscreen_cards_are_culled_and_not_fetched() {
    let mut s = library(1, 10);
    let mut ids = ResourceIds::new();
    let f = s.update_tiles(16, &mut ids);
    // x = -0.7 + 0.4 * k stays below 1.5 for k <= 5
    assert_eq!(f.tiles.len(), 6);
    assert_eq!(f.fetches.len(), 6);
    assert!(matches!(s.rows[0].cards[6].image, CardImage::Remote(_)));
}

#[test]
fn row_scroll_follows_selection() {
    let mut s = library(1, 10);
    let mut ids = ResourceIds::new();
    for _ in 0..5 {
        s.handle_direction(Direction::Right);
    }
    s.update_tiles(1000, &mut ids);
    // card 5 sits at 1.3, beyond 0.71: one step; the scroll eased toward
    // the target the frame started with
    assert_eq!(s.rows[0].scroll_target, 1);
    assert_eq!(s.rows[0].scroll, 0);
    s.update_tiles(1000, &mut ids);
    assert_eq!(s.rows[0].scroll, 1000);
    assert_eq!(s.rows[0].scroll_target, 2);
    s.update_tiles(1000, &mut ids);
    assert_eq!(s.rows[0].scroll, 2000);
    assert_eq!(s.rows[0].scroll_target, 2);
}

#[test]
fn scroll_eases_toward_target_held_at_frame_start() {
    let mut s = library(1, 5);
    let mut ids = ResourceIds::new();
    s.selected_card = (4, 0);
    s.update_tiles(1000, &mut ids);
    assert_eq!(s.rows[0].scroll, 0);
    assert_eq!(s.rows[0].scroll_target, 1);
}

#[test]
fn title_target_follows_eased_scroll() {
    let mut s = library(1, 5);
    let mut ids = ResourceIds::new();
    s.rows[0].scroll = 600;
    s.update_tiles(1000, &mut ids);
    assert_eq!(s.rows[0].scroll, 0);
    assert_eq!(s.rows[0].text_height_target, 300);
    // the title height eased toward the target it had at the start
    assert_eq!(s.rows[0].text_height, 0);
}

#[test]
fn vertical_scroll_without_rows_lands_on_target() {
    let mut s = State::new();
    let mut ids = ResourceIds::new();
    s.scroll_target = 10;
    s.update_tiles(1000, &mut ids);
    assert_eq!(s.scroll, 10000);
    assert_eq!(s.scroll_target, 10);
}

#[test]
fn vertical_move_clamps_scrolled_destination() {
    let mut s = State::new();
    s.apply_home(&vec![curated(Some("a"), 5), curated(Some("b"), 2)]);
    s.rows[1].scroll = 3000;
    s.selected_card = (1, 0);
    assert!(s.handle_direction(Direction::Down));
    assert_eq!(s.selected_card, (1, 1));
}

#[test]
fn vertical_scroll_follows_selection() {
    let mut s = library(5, 1);
    let mut ids = ResourceIds::new();
    for _ in 0..3 {
        s.handle_direction(Direction::Down);
    }
    s.update_tiles(1000, &mut ids);
    // row 3 sits at -1.2, below -0.7: one step up
    assert_eq!(s.scroll_target, -1);
    assert_eq!(s.scroll, -1000);
}

#[test]
fn detail_view_replaces_grid() {
    let mut s = library(2, 2);
    let mut ids = ResourceIds::new();
    s.rows[0].cards[0].image = CardImage::Ready(7);
    s.handle_direction(Direction::Confirm);
    let f = s.frame_tick(1000, &mut ids);
    assert_eq!(f.tiles.len(), 1);
    assert_eq!(f.tiles[0].tex_id, 7);
    assert_eq!((f.tiles[0].x, f.tiles[0].y, f.tiles[0].size), (-5000, 0, 750));
    assert!(f.fetches.is_empty());
    let d = f.detail.unwrap();
    assert_eq!(d.title, "card 0");
    assert_eq!(d.ratings, vec!["PG".to_string()]);
    assert!(matches!(s.rows[0].cards[1].image, CardImage::Remote(_)));
}

#[test]
fn queued_inputs_apply_in_order() {
    let mut s = library(3, 4);
    assert!(s.apply_inputs(&vec![Direction::Right, Direction::Right, Direction::Down, Direction::Left]));
    assert_eq!(s.selected_card, (1, 1));
    assert!(!s.apply_inputs(&vec![Direction::Down, Direction::Quit, Direction::Right]));
    assert_eq!(s.selected_card, (1, 2));
    assert!(!s.apply_inputs(&vec![Direction::Quit, Direction::Right]));
    assert_eq!(s.selected_card, (1, 2));
}

#[test]
fn frames_wait_for_outstanding_row_fetch() {
    let mut s = State::new();
    s.apply_home(&vec![curated(Some("a"), 1), set_ref("r1"), set_ref("r2")]);
    let mut ids = ResourceIds::new();
    let f = s.frame_tick(16, &mut ids);
    assert_eq!(f.row_fetch, Some("r1".to_string()));
    for _ in 0..3 {
        let f = s.frame_tick(16, &mut ids);
        assert_eq!(f.row_fetch, None);
        assert!(s.row_stream_busy);
        assert_eq!(s.queued_row_refs, vec!["r2".to_string()]);
    }
    s.finish_row_fetch(None);
    let f = s.frame_tick(16, &mut ids);
    assert_eq!(f.row_fetch, Some("r2".to_string()));
}

#[test]
fn second_frame_fetches_nothing_again() {
    let mut s = library(1, 3);
    let mut ids = ResourceIds::new();
    let f1 = s.frame_tick(16, &mut ids);
    assert_eq!(f1.fetches.len(), 3);
    let f2 = s.frame_tick(16, &mut ids);
    assert!(f2.fetches.is_empty());
    assert_eq!(ids.allocate(), Some(4));
}
