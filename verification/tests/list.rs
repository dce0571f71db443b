use cce_cloud::fuzzel::{FuzzelWidget, LIST_TOP, PAD, ROW, SEARCH};
use cce_cloud::geometry::{px, Rect, Rgb, PX};

fn strings(v: &[&str]) -> Vec<String> {
    v.iter().map(|s| s.to_string()).collect()
}

fn units(n: i64) -> i64 {
    n * PX as i64
}

/// A list with `n` items in an area 300 wide and 200 high.
fn list(n: usize) -> FuzzelWidget {
    let mut f = FuzzelWidget::new("> ".to_string());
    f.rect_assigned(0, 0, units(300), units(200));
    f.set_items((0..n).map(|i| format!("item {i}")).collect());
    f
}

#[test]
fn lengths_are_in_units() {
    assert_eq!(px(3), 3 * PX);
    assert_eq!(ROW, px(25));
    assert_eq!(PAD, px(15));
    assert_eq!(SEARCH, px(35));
    assert_eq!(LIST_TOP, px(60));
}

#[test]
fn the_list_fills_the_area_below_the_search_field() {
    let f = list(10);
    assert_eq!(f.scroll_box.area, Rect { x: px(15), y: px(60), w: px(270), h: px(125) });
    assert_eq!(f.scroll_box.content_h, px(250));
    assert_eq!(f.scroll_box.viewport_y, px(60));
    assert_eq!(f.scroll_box.viewport_h, px(125));
    assert_eq!(f.search_field(), Rect { x: px(15), y: px(15), w: px(270), h: px(35) });
    assert_eq!(
        f.search_border(),
        vec![
            Rect { x: px(15), y: px(15), w: px(270), h: px(1) },
            Rect { x: px(15), y: px(49), w: px(270), h: px(1) },
            Rect { x: px(15), y: px(15), w: px(1), h: px(35) },
            Rect { x: px(284), y: px(15), w: px(1), h: px(35) },
        ]
    );
}

#[test]
fn the_selected_row_is_scrolled_into_view() {
    let mut f = list(10);
    assert_eq!(f.scroll_box.scroll_y, 0);
    f.select(9);
    assert_eq!(f.scroll_box.scroll_y, px(125));
    f.snap_to_selected();
    assert_eq!(f.scroll_box.scroll_y, px(125));
    f.select(5);
    assert_eq!(f.scroll_box.scroll_y, px(125));
    f.select(2);
    assert_eq!(f.scroll_box.scroll_y, px(50));
    f.select(0);
    assert_eq!(f.scroll_box.scroll_y, 0);
}

#[test]
fn a_filter_keeps_the_selection_on_a_row() {
    let mut f = list(10);
    f.select(9);
    f.type_text("item 3");
    assert_eq!(f.filtered_items, strings(&["item 3"]));
    assert_eq!(f.selected, 0);
    f.type_text("x");
    assert!(f.filtered_items.is_empty());
    assert_eq!(f.selected, 0);
    f.erase();
    assert_eq!(f.query, "item 3");
    for _ in 0..10 {
        f.erase();
    }
    assert_eq!(f.query, "");
    assert_eq!(f.filtered_items.len(), 10);
}

#[test]
fn control_characters_are_not_typed() {
    let mut f = list(3);
    f.type_text("\u{1b}2\r\u{7f}");
    assert_eq!(f.query, "2");
    assert_eq!(f.filtered_items, strings(&["item 2"]));
}

#[test]
fn the_selection_moves() {
    let mut f = list(3);
    f.select_next();
    f.select_next();
    f.select_next();
    assert_eq!(f.selected, 2);
    f.select_prev();
    assert_eq!(f.selected, 1);
    f.cycle(5, 0);
    assert_eq!(f.selected, 0);
    f.cycle(0, 1);
    assert_eq!(f.selected, 2);
    f.cycle(1, 0);
    assert_eq!(f.selected, 0);
    f.cycle(2, 7);
    assert_eq!(f.selected, 1);
}

#[test]
fn a_press_selects_the_row_there() {
    let mut f = list(10);
    assert!(f.press(true, units(60 + 25 * 3 + 24)));
    assert_eq!(f.selected, 3);
    assert!(!f.press(false, units(60)));
    assert_eq!(f.selected, 3);
    f.scroll_to(units(125));
    assert!(f.press(true, units(60)));
    assert_eq!(f.selected, 5);
    let mut short = list(2);
    assert!(!short.press(true, units(60 + 50)));
    assert_eq!(short.selected, 0);
    assert!(short.press(true, units(60 + 49)));
    assert_eq!(short.selected, 1);
}

#[test]
fn the_list_is_labelled() {
    let f = list(2);
    let labels = f.own_labels(&vec![Some(units(60)), None]);
    assert_eq!(labels.len(), 2);
    assert_eq!(labels[0].text, "> Type to search...");
    assert_eq!((labels[0].x, labels[0].y, labels[0].font_size), (px(25), px(24), px(14)));
    assert_eq!(labels[0].color, Rgb { r: 0x66, g: 0x66, b: 0x77 });
    assert_eq!(labels[1].text, "item 0");
    assert_eq!((labels[1].x, labels[1].y, labels[1].font_size), (px(25), px(64), px(13)));
    assert_eq!(labels[1].color, Rgb { r: 0xff, g: 0xff, b: 0xff });
    let both = f.own_labels(&vec![Some(units(60)), Some(units(85))]);
    assert_eq!(both[2].color, Rgb { r: 0xbb, g: 0xbb, b: 0xc5 });
}

#[test]
fn an_empty_list_says_so() {
    let mut f = list(1);
    f.type_text("zzz");
    let labels = f.own_labels(&Vec::new());
    assert_eq!(labels[0].text, "> zzz");
    assert_eq!(labels[0].color, Rgb { r: 0xcc, g: 0xff, b: 0xcc });
    assert_eq!(labels[1].text, "No matches found");
    assert_eq!((labels[1].x, labels[1].y), (px(25), px(64)));
    assert_eq!(labels[1].color, Rgb { r: 0x88, g: 0x88, b: 0x99 });
    assert_eq!(f.highlight(0), None);
}

#[test]
fn the_highlight_leaves_room_for_the_scroll_bar() {
    assert_eq!(
        list(2).highlight(units(60)),
        Some(Rect { x: px(17), y: px(60), w: px(266), h: px(23) })
    );
    assert_eq!(
        list(10).highlight(units(60)),
        Some(Rect { x: px(17), y: px(60), w: px(256), h: px(23) })
    );
}
