use cce_cloud::geometry::{px, Rect, Rgb, TextLabel, PX};
use cce_cloud::json_events::{
    LayoutEvent, Outcome, Replies, Routed, ScrollCommand, ScrollKey, ScrollReply,
};
use cce_cloud::json_layout::{
    find_kind, JsonControl, JsonLayoutConfig, JsonLayoutWidget, JsonPageConfig, JsonWidgetConfig,
    Justification, Kind, Metrics, ONE_BITS, PAGES,
};
use cce_cloud::json_paint::{DrawStep, Run};

fn units(n: i64) -> i64 {
    n * PX as i64
}

fn config(kind: &str, text: &str) -> JsonWidgetConfig {
    JsonWidgetConfig {
        widget_type: kind.to_string(),
        text: text.to_string(),
        id: None,
        checked: None,
        value: None,
        min: None,
        max: None,
        step: None,
        decimals: None,
        color: None,
        value_f32: None,
        min_f32: None,
        max_f32: None,
        target_page: None,
    }
}

fn plain(widgets: Vec<JsonWidgetConfig>) -> JsonLayoutConfig {
    JsonLayoutConfig { width: None, height: None, widgets: Some(widgets), pages: None, justify: None }
}

fn paged(pages: Vec<Vec<JsonWidgetConfig>>) -> JsonLayoutConfig {
    let pages = pages
        .into_iter()
        .map(|widgets| JsonPageConfig { title: "t".to_string(), widgets, justify: None })
        .collect();
    JsonLayoutConfig { width: None, height: None, widgets: None, pages: Some(pages), justify: None }
}

fn metrics(n: usize) -> Metrics {
    Metrics { label_strips: vec![0; n], spinbox_height: 20 * 1024, color_height: 26 * 1024 }
}

fn quiet(n: usize) -> Replies {
    Replies { dragged: false, handled: vec![false; n], clicked: vec![false; n] }
}

/// A layout of these kinds on one page, 300 wide and 400 high.
fn shown(kinds: &[&str]) -> JsonLayoutWidget {
    let mut l = JsonLayoutWidget::new(&plain(kinds.iter().map(|k| config(k, "text")).collect()));
    l.rect_assigned(0, 0, units(300), units(400), &metrics(kinds.len()));
    l
}

fn route(l: &mut JsonLayoutWidget, e: LayoutEvent, r: &Replies) -> Outcome {
    let n = l.widgets.len();
    let routed = l.route_event(e, r, &metrics(n));
    l.finish_event(e, routed, None, &vec![false; n], &metrics(n))
}

fn left(pressed: bool, x: i64, y: i64) -> LayoutEvent {
    LayoutEvent::Button { left: true, pressed, x: units(x), y: units(y) }
}

fn checked(l: &JsonLayoutWidget, i: usize) -> bool {
    match l.widgets[i].widget {
        JsonControl::Checkbox { checked, .. } => checked,
        _ => panic!("no checkbox"),
    }
}

fn hovered(l: &JsonLayoutWidget, i: usize) -> bool {
    match l.widgets[i].widget {
        JsonControl::Checkbox { hovered, .. } => hovered,
        _ => panic!("no checkbox"),
    }
}

#[test]
fn test_json_layout_widget_flow() {
    let mut chk = config("checkbox", "Check 1");
    chk.id = Some("chk".to_string());
    chk.checked = Some(false);
    let mut btn = config("button", "Click 1");
    btn.id = Some("btn".to_string());
    let config = JsonLayoutConfig {
        width: Some(300),
        height: Some(400),
        widgets: Some(vec![config("label", "Label 1"), chk, btn]),
        pages: None,
        justify: None,
    };

    let mut layout = JsonLayoutWidget::new(&config);
    let m = metrics(3);
    layout.rect_assigned(0, 0, units(300), units(400), &m);

    // Verify sub-widgets are populated and positioned correctly
    assert_eq!(layout.widgets.len(), 3);

    let w_label_y = layout.widgets[0].y;
    let w_label_h = layout.widgets[0].h;
    let w_label_x = layout.widgets[0].x;
    let w_label_w = layout.widgets[0].w;

    let w_check_y = layout.widgets[1].y;
    let w_check_h = layout.widgets[1].h;
    let w_check_x = layout.widgets[1].x;
    let w_check_w = layout.widgets[1].w;

    let w_btn_y = layout.widgets[2].y;
    let w_btn_h = layout.widgets[2].h;
    let w_btn_x = layout.widgets[2].x;
    let w_btn_w = layout.widgets[2].w;

    assert!(matches!(layout.widgets[0].widget, JsonControl::Label));
    assert!(matches!(layout.widgets[1].widget, JsonControl::Checkbox { .. }));
    assert!(matches!(layout.widgets[2].widget, JsonControl::Button { .. }));

    // Check vertical sequence positions
    assert_eq!(w_label_y, px(16));
    assert_eq!(w_label_h, px(18));

    assert_eq!(w_check_y, px(16) + px(18) + px(12)); // y_prev + h_prev + spacing
    assert_eq!(w_check_h, px(22));

    assert_eq!(w_btn_y, w_check_y + px(22) + px(12));
    assert_eq!(w_btn_h, px(24));

    // Check horizontal positioning (should match usable width: 300 - 2 * 16 = 268)
    assert_eq!(w_label_x, px(16));
    assert_eq!(w_label_w, px(268));
    assert_eq!(w_check_x, px(16));
    assert_eq!(w_check_w, px(268));
    assert_eq!(w_btn_x, px(16));
    assert_eq!(w_btn_w, px(268));

    // Verify Checkbox initial state
    assert_eq!(checked(&layout, 1), false);

    // Simulate click on Checkbox row
    let x = (w_check_x + px(5)) as i64;
    let y = (w_check_y + px(5)) as i64;
    let e = LayoutEvent::Button { left: true, pressed: false, x, y };
    let changed = layout.route_event(e, &quiet(3), &m).changed;
    assert!(changed);
    assert_eq!(checked(&layout, 1), true);

    // Simulate hover on button: the button is told, and its reply counts
    let e = LayoutEvent::Move { x: (w_btn_x + px(10)) as i64, y: (w_btn_y + px(10)) as i64 };
    assert_eq!(layout.receivers(e), vec![0, 2]);
    let mut replies = quiet(3);
    replies.handled[2] = true;
    let changed_hover = layout.route_event(e, &replies, &m).changed;
    assert!(changed_hover);
    assert!(layout.widgets[2].covers((w_btn_x + px(10)) as i64, (w_btn_y + px(10)) as i64));
}

#[test]
fn names_stand_for_kinds() {
    for (name, kind) in [
        ("checkbox", Kind::Checkbox),
        ("button", Kind::Button),
        ("label", Kind::Label),
        ("spinbox", Kind::Spinbox),
        ("color", Kind::Color),
        ("rgb", Kind::Color),
        ("rgba", Kind::Color),
        ("slider", Kind::Slider),
        ("Button", Kind::Other),
        ("", Kind::Other),
    ] {
        assert_eq!(find_kind(name), kind);
    }
}

#[test]
fn controls_are_made_as_described() {
    let mut spin = config("spinbox", "s");
    spin.value = Some(7);
    spin.max = Some(9);
    spin.decimals = Some(2);
    let mut color = config("rgb", "c");
    color.color = Some(Rgb { r: 1, g: 2, b: 3 });
    let mut slide = config("slider", "l");
    slide.value_f32 = Some(0.25f32.to_bits());
    slide.min_f32 = Some((-1.0f32).to_bits());
    let mut check = config("checkbox", "k");
    check.checked = Some(true);
    let l = JsonLayoutWidget::new(&plain(vec![
        spin,
        config("spinbox", ""),
        color,
        config("color", ""),
        slide,
        config("slider", ""),
        check,
        config("button", "b"),
        config("what", "w"),
    ]));
    let controls: Vec<JsonControl> = l.widgets.iter().map(|w| w.widget).collect();
    assert_eq!(
        controls,
        vec![
            JsonControl::Spinbox { value: 7, min: 0, max: 9, step: 1, decimals: Some(2) },
            JsonControl::Spinbox { value: 0, min: 0, max: 100, step: 1, decimals: None },
            JsonControl::Color { color: Rgb { r: 1, g: 2, b: 3 } },
            JsonControl::Color { color: Rgb { r: 255, g: 255, b: 255 } },
            JsonControl::Slider {
                low_bits: (-1.0f32).to_bits(),
                high_bits: 1.0f32.to_bits(),
                value_bits: Some(0.25f32.to_bits()),
            },
            JsonControl::Slider { low_bits: 0.0f32.to_bits(), high_bits: ONE_BITS, value_bits: None },
            JsonControl::Checkbox { checked: true, hovered: false },
            JsonControl::Button { menu_row: true, justify: Justification::Center, clicked: false },
            JsonControl::Button { menu_row: false, justify: Justification::Center, clicked: false },
        ]
    );
    assert_eq!(l.page_scroll_y.len(), PAGES);
    assert_eq!(l.active_page, 0);
}

#[test]
fn controls_without_an_id_get_one() {
    let mut named = config("label", "");
    named.id = Some("mine".to_string());
    let l = JsonLayoutWidget::new(&plain(vec![config("label", ""), named, config("label", "")]));
    let ids: Vec<&str> = l.widgets.iter().map(|w| w.id.as_str()).collect();
    assert_eq!(ids, vec!["widget_0", "mine", "widget_2"]);
    let l = JsonLayoutWidget::new(&paged(vec![
        vec![config("label", "")],
        vec![config("label", ""), config("label", "")],
    ]));
    let ids: Vec<&str> = l.widgets.iter().map(|w| w.id.as_str()).collect();
    assert_eq!(ids, vec!["widget_0_0", "widget_1_0", "widget_1_1"]);
    let pages: Vec<usize> = l.widgets.iter().map(|w| w.page_idx).collect();
    assert_eq!(pages, vec![0, 1, 1]);
}

#[test]
fn pages_go_before_single_controls() {
    let mut both = paged(vec![vec![config("label", "paged")]]);
    both.widgets = Some(vec![config("label", "single"), config("label", "single")]);
    both.pages.as_mut().unwrap()[0].justify = Some(Justification::Left);
    both.justify = Some(Justification::Right);
    let l = JsonLayoutWidget::new(&both);
    assert_eq!(l.widgets.len(), 1);
    assert_eq!(l.widgets[0].text, "paged");
    let mut buttons = paged(vec![vec![config("button", "")]]);
    buttons.pages.as_mut().unwrap()[0].justify = Some(Justification::Left);
    assert!(matches!(
        JsonLayoutWidget::new(&buttons).widgets[0].widget,
        JsonControl::Button { justify: Justification::Left, .. }
    ));
    let mut single = plain(vec![config("button", "")]);
    single.justify = Some(Justification::Right);
    assert!(matches!(
        JsonLayoutWidget::new(&single).widgets[0].widget,
        JsonControl::Button { justify: Justification::Right, .. }
    ));
    let none = JsonLayoutConfig { width: None, height: None, widgets: None, pages: None, justify: None };
    assert!(JsonLayoutWidget::new(&none).widgets.is_empty());
}

#[test]
fn rows_are_as_high_as_their_kind() {
    let kinds = ["checkbox", "button", "label", "spinbox", "color", "slider", "what"];
    let mut l = JsonLayoutWidget::new(&plain(kinds.iter().map(|k| config(k, "")).collect()));
    let mut m = metrics(kinds.len());
    m.label_strips = vec![5 * 1024; kinds.len()];
    l.rect_assigned(units(7), units(9), units(100), units(50), &m);
    let heights: Vec<i128> = l.widgets.iter().map(|w| w.h).collect();
    assert_eq!(heights, vec![px(22), px(29), px(23), px(25), px(31), px(27), px(24)]);
    assert_eq!(l.widgets[0].x, px(23));
    assert_eq!(l.widgets[0].y, px(25));
    assert_eq!(l.widgets[0].w, px(68));
    let total: i128 = heights.iter().sum();
    assert_eq!(l.page_total_heights[0], px(16) + total + 7 * px(12) + px(4));
    assert_eq!(l.page_total_heights[1], px(20));
    let label = l.widgets[0].label_text.as_ref().unwrap();
    assert_eq!((label.x, label.y, label.font_size), (px(51), px(27), px(13)));
    assert_eq!(label.color, Rgb { r: 0xcc, g: 0xcc, b: 0xd4 });
    assert!(l.widgets[1].label_text.is_none());
    assert_eq!(l.control_area(0), Rect { x: px(23), y: px(27), w: px(18), h: px(18) });
    assert_eq!(l.control_area(1), Rect { x: px(23), y: l.widgets[1].y, w: px(68), h: px(29) });
}

#[test]
fn buttons_in_a_row_butt_together() {
    let l = shown(&["button", "button", "label", "button"]);
    let ys: Vec<i128> = l.widgets.iter().map(|w| w.y).collect();
    assert_eq!(ys, vec![px(16), px(40), px(76), px(106)]);
    for i in 0..3 {
        assert!(l.widgets[i].y + l.widgets[i].h <= l.widgets[i + 1].y);
    }
}

#[test]
fn every_page_begins_at_the_top() {
    let mut l = JsonLayoutWidget::new(&paged(vec![
        vec![config("button", ""), config("button", "")],
        vec![config("button", "")],
    ]));
    l.rect_assigned(0, 0, units(100), units(30), &metrics(3));
    let ys: Vec<i128> = l.widgets.iter().map(|w| w.y).collect();
    // The second button ends the run of its page.
    assert_eq!(ys, vec![px(16), px(40), px(16)]);
    assert_eq!(l.page_total_heights[0], px(80));
    assert_eq!(l.page_total_heights[1], px(56));
}

#[test]
fn a_page_too_many_is_not_laid_out() {
    let mut l = JsonLayoutWidget::new(&paged((0..17).map(|_| vec![config("label", "")]).collect()));
    l.rect_assigned(units(1), units(1), units(100), units(100), &metrics(17));
    assert_eq!(l.widgets[15].y, px(17));
    assert_eq!((l.widgets[16].x, l.widgets[16].y, l.widgets[16].h), (0, 0, 0));
}

#[test]
fn laying_out_twice_changes_nothing() {
    let mut l = shown(&["label", "checkbox", "button", "button"]);
    let before = format!("{l:?}");
    l.layout_children(&metrics(4));
    assert_eq!(format!("{l:?}"), before);
}

#[test]
fn scrolling_moves_the_rows_of_a_page() {
    let mut l = JsonLayoutWidget::new(&paged(vec![vec![config("label", "")], vec![config("label", "")]]));
    let m = metrics(2);
    l.rect_assigned(0, 0, units(100), units(10), &m);
    assert!(l.sync_page_scroll(1, units(5), &m));
    assert!(!l.sync_page_scroll(1, units(5), &m));
    assert_eq!(l.widgets[0].y, px(16));
    assert_eq!(l.widgets[1].y, px(11));
}

#[test]
fn a_click_is_taken_once() {
    let mut b = JsonControl::Button { menu_row: true, justify: Justification::Center, clicked: false };
    assert!(!b.take_click());
    b.latch(true);
    b.latch(false);
    assert!(b.take_click());
    assert!(!b.take_click());
    let mut label = JsonControl::Label;
    label.latch(true);
    assert!(!label.take_click());
}

#[test]
fn a_checkbox_toggles_and_toggles_back() {
    let mut l = shown(&["checkbox"]);
    let on = left(false, 20, 20);
    assert!(route(&mut l, on, &quiet(1)).changed);
    assert!(checked(&l, 0));
    assert!(route(&mut l, on, &quiet(1)).changed);
    assert!(!checked(&l, 0));
    // The edges belong to the row; a pixel further nothing happens.
    assert!(route(&mut l, left(false, 16, 38), &quiet(1)).changed);
    assert!(checked(&l, 0));
    assert!(!route(&mut l, left(false, 16, 39), &quiet(1)).changed);
    // A press changes no state, but is no miss.
    let out = route(&mut l, left(true, 20, 20), &quiet(1));
    assert!(out.changed && !out.clear_focus && checked(&l, 0));
    let right = LayoutEvent::Button { left: false, pressed: false, x: units(20), y: units(20) };
    assert!(!route(&mut l, right, &quiet(1)).changed);
}

#[test]
fn a_checkbox_knows_the_pointer() {
    let mut l = shown(&["checkbox"]);
    let on = LayoutEvent::Move { x: units(20), y: units(20) };
    let off = LayoutEvent::Move { x: units(20), y: units(90) };
    assert!(route(&mut l, on, &quiet(1)).changed);
    assert!(hovered(&l, 0));
    assert!(!route(&mut l, on, &quiet(1)).changed);
    assert!(route(&mut l, off, &quiet(1)).changed);
    assert!(!hovered(&l, 0));
}

#[test]
fn a_press_that_misses_takes_the_focus_away() {
    let mut l = shown(&["label"]);
    assert!(route(&mut l, left(true, 1, 1), &quiet(1)).clear_focus);
    let right = LayoutEvent::Button { left: false, pressed: true, x: 0, y: 0 };
    assert!(route(&mut l, right, &quiet(1)).clear_focus);
    assert!(!route(&mut l, left(false, 1, 1), &quiet(1)).clear_focus);
    let mut r = quiet(1);
    r.handled[0] = true;
    let out = route(&mut l, left(true, 1, 1), &r);
    assert!(out.changed && !out.clear_focus);
}

#[test]
fn entering_the_page_is_no_news_to_controls() {
    let mut l = shown(&["button", "checkbox"]);
    assert!(l.receivers(LayoutEvent::Enter).is_empty());
    let before = format!("{l:?}");
    let mut r = quiet(2);
    r.handled[0] = true;
    r.clicked[0] = true;
    assert_eq!(l.route_event(LayoutEvent::Enter, &r, &metrics(2)), Routed { changed: false, page: 0 });
    assert_eq!(format!("{l:?}"), before);
}

#[test]
fn a_slider_is_dragged_until_the_release() {
    let mut l = shown(&["slider", "slider"]);
    let inside = left(true, 20, 20);
    route(&mut l, inside, &quiet(2));
    assert_eq!(l.dragging_slider_idx, Some(0));
    let away = LayoutEvent::Move { x: units(200), y: units(300) };
    assert_eq!(l.drag_target(away), Some(0));
    assert!(!route(&mut l, away, &quiet(2)).changed);
    let mut r = quiet(2);
    r.dragged = true;
    assert!(route(&mut l, away, &r).changed);
    let release = left(false, 200, 300);
    assert_eq!(l.drag_target(release), Some(0));
    assert!(route(&mut l, release, &quiet(2)).changed);
    assert_eq!(l.dragging_slider_idx, None);
    assert_eq!(l.drag_target(away), None);
    route(&mut l, left(true, 200, 300), &quiet(2));
    assert_eq!(l.dragging_slider_idx, None);
}

#[test]
fn a_button_can_lead_to_a_page() {
    let mut leads = config("button", "next");
    leads.target_page = Some(1);
    let mut l = JsonLayoutWidget::new(&paged(vec![
        vec![leads, config("button", "stay")],
        vec![config("checkbox", "c")],
    ]));
    let m = metrics(3);
    l.rect_assigned(0, 0, units(300), units(400), &m);
    let mut r = quiet(3);
    r.clicked[1] = true;
    let out = route(&mut l, left(false, 20, 20), &r);
    assert!(!out.changed && l.active_page == 0);
    assert_eq!(l.take_clicked_button(), Some("widget_0_1".to_string()));
    assert_eq!(l.take_clicked_button(), None);
    let mut r = quiet(3);
    r.clicked[0] = true;
    let routed = l.route_event(left(false, 20, 20), &r, &m);
    assert_eq!(routed, Routed { changed: true, page: 0 });
    assert_eq!(l.active_page, 1);
    // The jump has used the click up, and the hidden checkbox was not touched.
    assert_eq!(l.take_clicked_button(), None);
    assert!(!checked(&l, 2));
    assert_eq!(l.receivers(LayoutEvent::Other), Vec::<usize>::new());
    route(&mut l, left(false, 20, 20), &quiet(3));
    assert!(checked(&l, 2));
}

#[test]
fn only_what_does_not_fit_is_scrolled() {
    let m = metrics(1);
    let mut l = JsonLayoutWidget::new(&plain(vec![config("label", "")]));
    l.rect_assigned(0, 0, units(100), units(40), &m);
    // The page is 50 high.
    let wheel = LayoutEvent::Wheel { x: units(100), y: units(40) };
    assert_eq!(l.scroll_command(wheel, 0), Some(ScrollCommand::Wheel { max: px(10) }));
    let beside = LayoutEvent::Wheel { x: units(101), y: units(40) };
    assert_eq!(l.scroll_command(beside, 0), None);
    assert_eq!(l.scroll_command(wheel, PAGES), None);
    assert_eq!(l.page_scroll_bounds(0), px(10));
    assert_eq!(l.page_scroll_bounds(PAGES), -px(40));
    let press = |key| LayoutEvent::Key { pressed: true, key };
    let max = px(10);
    for (key, want) in [
        (ScrollKey::PageDown, ScrollCommand::By { distance: px(40), max }),
        (ScrollKey::PageUp, ScrollCommand::By { distance: -px(40), max }),
        (ScrollKey::Home, ScrollCommand::To { place: 0, max }),
        (ScrollKey::End, ScrollCommand::To { place: max, max }),
        (ScrollKey::ArrowDown, ScrollCommand::Line { down: true, max }),
        (ScrollKey::ArrowUp, ScrollCommand::Line { down: false, max }),
        (ScrollKey::Other, ScrollCommand::Settle),
    ] {
        assert_eq!(l.scroll_command(press(key), 0), Some(want));
    }
    assert_eq!(l.scroll_command(LayoutEvent::Key { pressed: false, key: ScrollKey::End }, 0), None);
    assert_eq!(l.scroll_command(LayoutEvent::Tick, 0), None);
    l.rect_assigned(0, 0, units(100), units(50), &m);
    assert_eq!(l.scroll_command(wheel, 0), None);
    assert_eq!(l.scroll_command(press(ScrollKey::End), 0), None);
}

#[test]
fn an_event_ends_with_the_scrolling() {
    let m = metrics(1);
    let mut l = JsonLayoutWidget::new(&plain(vec![config("label", "")]));
    l.rect_assigned(0, 0, units(100), units(40), &m);
    let wheel = LayoutEvent::Wheel { x: 0, y: 0 };
    let routed = l.route_event(wheel, &quiet(1), &m);
    let reply = Some(ScrollReply { moved: true, place: units(3) });
    let out = l.finish_event(wheel, routed, reply, &vec![false], &m);
    assert!(out.changed && !out.clear_focus);
    assert_eq!(l.widgets[0].y, px(13));
    let still = Some(ScrollReply { moved: false, place: units(3) });
    assert!(!l.tick_children(still, &vec![false], &m));
    assert!(l.tick_children(None, &vec![true], &m));
    assert!(l.tick_children(Some(ScrollReply { moved: true, place: units(4) }), &vec![false], &m));
    assert_eq!(l.page_scroll_y[0], units(4));
    let routed = l.route_event(LayoutEvent::Tick, &quiet(1), &m);
    assert!(l.finish_event(LayoutEvent::Tick, routed, None, &vec![true], &m).changed);
    l.active_page = 20;
    assert!(!l.tick_children(reply, &vec![true], &m));
}

#[test]
fn menu_rows_share_a_well() {
    let l = shown(&["button", "button", "button", "label", "button", "what"]);
    let runs = l.button_runs();
    assert_eq!(runs, vec![Run { start: 0, end: 3 }, Run { start: 4, end: 5 }]);
    assert_eq!(l.well(runs[0]), Rect { x: px(16), y: px(16), w: px(268), h: px(72) });
    assert_eq!(l.seams(runs[0]), vec![px(40), px(64)]);
    assert_eq!(l.well(runs[1]).h, px(24));
    assert!(l.seams(runs[1]).is_empty());
    assert_eq!(l.groove(runs[0], 4 * 1024), 5 * px(4));
    assert_eq!(l.groove(runs[0], 10 * 1024), px(24));
    assert_eq!(l.clip(), Rect { x: px(12), y: 0, w: px(288), h: px(400) });
}

#[test]
fn only_the_active_page_is_drawn() {
    let mut l = JsonLayoutWidget::new(&paged(vec![
        vec![config("checkbox", "side"), config("label", "own")],
        vec![config("button", "hidden")],
    ]));
    l.rect_assigned(0, 0, units(300), units(400), &metrics(3));
    let text = |t: &str| TextLabel {
        text: t.to_string(),
        x: 0,
        y: 0,
        font_size: px(13),
        color: Rgb { r: 0, g: 0, b: 0 },
    };
    let own = vec![vec![text("not this")], vec![text("a"), text("b")], vec![text("hidden")]];
    let texts: Vec<String> =
        l.own_labels_with_bounds(&own).into_iter().map(|t| t.text).collect();
    assert_eq!(texts, vec!["side", "a", "b"]);
    assert!(l.button_runs().is_empty());
    l.active_page = 1;
    assert_eq!(l.button_runs(), vec![Run { start: 2, end: 3 }]);
    assert_eq!(l.own_labels_with_bounds(&own).len(), 1);
}

#[test]
fn a_page_is_drawn_from_the_wells_up() {
    let mut l = JsonLayoutWidget::new(&paged(vec![
        vec![config("button", "a"), config("button", "b"), config("checkbox", "side")],
        vec![config("button", "hidden")],
    ]));
    l.rect_assigned(0, 0, units(300), units(400), &metrics(4));
    let own = vec![Vec::new(), Vec::new(), Vec::new(), Vec::new()];
    let steps = l.draw_steps(&own);
    let run = Run { start: 0, end: 2 };
    assert_eq!(steps.len(), 6);
    assert!(matches!(steps[0], DrawStep::Well { run: r } if r == run));
    assert!(matches!(steps[1], DrawStep::Control { index: 0 }));
    assert!(matches!(steps[2], DrawStep::Control { index: 1 }));
    assert!(matches!(steps[3], DrawStep::Control { index: 2 }));
    assert!(matches!(steps[4], DrawStep::Seam { run: r, y } if r == run && y == px(40)));
    assert!(matches!(&steps[5], DrawStep::Text { label } if label.text == "side"));
    l.active_page = 1;
    let steps = l.draw_steps(&own);
    assert_eq!(steps.len(), 2);
    assert!(matches!(steps[1], DrawStep::Control { index: 3 }));
}
