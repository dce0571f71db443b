use cce_cloud::fuzzel::FuzzelWidget;
use cce_cloud::geometry::{px, PX};
use cce_cloud::json_layout::{
    JsonLayoutConfig, JsonLayoutWidget, JsonPageConfig, JsonWidgetConfig, Metrics,
};
use cce_cloud::options::LauncherMode;
use cce_cloud::sizing::{
    find_measure, initial_size, json_size, json_widget_desired_width, list_controls, list_size,
    size_change, sizing_texts, Measure,
};

fn config(kind: &str) -> JsonWidgetConfig {
    JsonWidgetConfig {
        widget_type: kind.to_string(),
        text: String::new(),
        id: None,
        checked: None,
        value: None,
        min: None,
        max: None,
        step: None,
        decimals: None,
        color: None,
        value_f32: None,
        min_f32: None,
        max_f32: None,
        target_page: None,
    }
}

fn layout(widgets: Option<Vec<&str>>, pages: Option<Vec<Vec<&str>>>) -> JsonLayoutConfig {
    JsonLayoutConfig {
        width: None,
        height: None,
        widgets: widgets.map(|v| v.into_iter().map(config).collect()),
        pages: pages.map(|v| {
            v.into_iter()
                .map(|p| JsonPageConfig {
                    title: String::new(),
                    widgets: p.into_iter().map(config).collect(),
                    justify: None,
                })
                .collect()
        }),
        justify: None,
    }
}

fn first(c: JsonLayoutConfig, measured: Vec<u32>) -> (u32, u32) {
    initial_size(LauncherMode::Json, &Some(c), &measured)
}

#[test]
fn button_width_covers_label_inset() {
    // Every desktop-menu label must fit within the row of its button, with the inset of the
    // button at each side. The widths stand for whatever the button font gives.
    for (label, label_w) in [
        ("Terminal", 52_300u32),
        ("Files", 28_900),
        ("Data Editor", 70_100),
        ("Applications", 77_777),
        ("System Settings", 99_001),
        ("Expose Windows", 98_304),
        ("Reload Config", 86_016),
        ("Logout", 43_008),
    ] {
        let popup_w = json_widget_desired_width("button", label_w);
        let usable_w = popup_w - px(32); // container margins, per layout_children
        // 8px left inset + label + 8px right breathing room must fit the button.
        assert!(
            usable_w >= label_w as i128 + px(16),
            "button '{label}': usable_w {usable_w} < label {label_w} + 16 inset",
        );
    }
}

#[test]
fn controls_need_room_beside_their_text() {
    let m = 10 * 1024;
    for (kind, want) in [
        ("button", 58),
        ("label", 42),
        ("checkbox", 54),
        ("spinbox", 130),
        ("color", 130),
        ("slider", 170),
        ("rgb", 150),
        ("what", 150),
    ] {
        assert_eq!(json_widget_desired_width(kind, m), px(want), "{kind}");
    }
    assert_eq!(find_measure("button"), Measure::ButtonFont);
    for kind in ["label", "checkbox", "spinbox", "color", "slider"] {
        assert_eq!(find_measure(kind), Measure::ControlFont);
    }
    assert_eq!(find_measure("rgba"), Measure::Nothing);
}

#[test]
fn the_first_size_is_what_the_description_says() {
    let mut c = layout(Some(vec!["label"]), None);
    c.width = Some(77);
    c.height = Some(1000);
    assert_eq!(initial_size(LauncherMode::Json, &Some(c), &Vec::new()), (77, 1000));
    assert_eq!(initial_size(LauncherMode::Json, &None, &Vec::new()), (300, 400));
    assert_eq!(initial_size(LauncherMode::Apps, &None, &Vec::new()), (600, 800));
    assert_eq!(initial_size(LauncherMode::Dmenu, &None, &Vec::new()), (600, 800));
}

#[test]
fn the_first_size_is_what_the_controls_need() {
    // Half a pixel is rounded up.
    let c = layout(Some(vec!["label", "button"]), None);
    assert_eq!(first(c, vec![100 * 1024 + 512, 1024]), (133, 16 + 18 + 12 + 24 + 12 + 4));
    let c = layout(Some(vec!["label", "button"]), None);
    assert_eq!(first(c, vec![100 * 1024 + 511, 1024]).0, 132);
    assert_eq!(first(layout(Some(vec!["label"]), None), vec![0]), (120, 50));
    assert_eq!(first(layout(None, None), Vec::new()), (120, 20));
    let all = vec!["label", "checkbox", "button", "spinbox", "color", "slider"];
    let c = layout(Some(all), None);
    assert_eq!(first(c, vec![0; 6]).1, 16 + 18 + 22 + 24 + 22 + 24 + 20 + 6 * 12 + 4);
    assert_eq!(first(layout(Some(vec!["label"; 50]), None), vec![0; 50]).1, 600);
}

#[test]
fn the_highest_page_counts() {
    let c = layout(None, Some(vec![vec!["button"], vec!["label", "label"], vec![]]));
    assert_eq!(list_controls(&c).types, vec!["button", "label", "label"]);
    assert_eq!(first(c, vec![0, 0, 90 * 1024]), (122, 16 + 2 * 30 + 4));
    // The texts come in the same order; the controls of a single page go before pages.
    let mut c = layout(None, Some(vec![vec!["button"], vec!["label"]]));
    c.pages.as_mut().unwrap()[1].widgets[0].text = "second".to_string();
    assert_eq!(list_controls(&c).labels, vec!["", "second"]);
    let c = layout(Some(vec!["button"]), Some(vec![vec!["slider"; 3]]));
    assert_eq!(list_controls(&c).types, vec!["button"]);
    assert_eq!(first(c, vec![0]).1, 56);
}

#[test]
fn a_page_is_fitted() {
    let mut c = layout(None, Some(vec![vec!["label", "label"], vec!["slider"]]));
    c.width = Some(500);
    let mut l = JsonLayoutWidget::new(&c);
    let m = Metrics { label_strips: vec![0; 3], spinbox_height: 0, color_height: 0 };
    l.rect_assigned(0, 0, 500 * PX as i64, 600 * PX as i64, &m);
    let measured = vec![100 * 1024, 200 * 1024, 400 * 1024];
    assert_eq!(json_size(&l, &measured, 500, 600), (232, 80));
    assert_eq!(json_size(&l, &measured, 200, 50), (200, 50));
    assert_eq!(json_size(&l, &vec![0; 3], 500, 600), (120, 80));
    l.active_page = 1;
    assert_eq!(json_size(&l, &measured, 500, 600), (500, 54));
    assert_eq!(json_size(&l, &vec![0, 0, 40 * 1024], 500, 600), (200, 54));
}

#[test]
fn a_list_is_fitted() {
    assert_eq!(list_size(3, &vec![1024], 600, 800), (300, 150));
    assert_eq!(list_size(0, &vec![1024], 600, 800), (300, 100));
    assert_eq!(list_size(1, &vec![1024], 600, 800), (300, 100));
    let wide = vec![400 * 1024, 1024];
    assert_eq!(list_size(29, &wide, 600, 800), (450, 800));
    assert_eq!(list_size(30, &wide, 600, 800), (460, 800));
    assert_eq!(list_size(1, &vec![900 * 1024], 600, 800), (600, 100));
    assert_eq!(list_size(1, &vec![300 * 1024 + 512], 600, 800), (351, 100));
}

#[test]
fn the_texts_that_count_are_listed() {
    let mut f = FuzzelWidget::new("> ".to_string());
    assert_eq!(sizing_texts(&f), vec!["> Type to search...", "No matches found"]);
    f.set_items(vec!["a".to_string(), "b".to_string()]);
    f.type_text("a");
    assert_eq!(sizing_texts(&f), vec!["> a", "a"]);
}

#[test]
fn the_size_changes_where_it_differs() {
    assert_eq!(size_change((1, 2), (1, 2)), None);
    assert_eq!(size_change((1, 2), (1, 3)), Some((1, 3)));
    assert_eq!(size_change((1, 2), (2, 2)), Some((2, 2)));
}
