use cce_cloud::desktop::AppInfo;
use cce_cloud::geometry::PX;
use cce_cloud::keys::{
    chord_ctrl_char, Key, NavKeys, SYM_BACKSPACE, SYM_DOWN, SYM_ESCAPE, SYM_ISO_LEFT_TAB,
    SYM_RETURN, SYM_TAB, SYM_UP,
};
use cce_cloud::launcher::{
    fade_left, find_launch, find_place, frame_step, frame_timeout_ms, Choice, FrameStep, KeyStep,
    Launch, Launcher, FADE_NS,
};
use cce_cloud::options::LauncherMode;
use cce_cloud::stdin_state::StdinState;

fn strings(v: &[&str]) -> Vec<String> {
    v.iter().map(|s| s.to_string()).collect()
}

fn nav() -> NavKeys {
    NavKeys {
        select_next: chord_ctrl_char("ctrl+n"),
        select_prev: chord_ctrl_char("ctrl+p"),
    }
}

fn apps() -> Vec<AppInfo> {
    vec![
        AppInfo { name: "One".to_string(), command: "one --run".to_string() },
        AppInfo { name: "Two".to_string(), command: "two".to_string() },
    ]
}

/// A launcher that shows items.
fn showing(mode: LauncherMode, items: &[&str], switcher: bool) -> Launcher {
    let mut l = Launcher::new();
    l.begin(mode, "> ".to_string(), apps(), None, switcher);
    l.fuzzel.rect_assigned(0, 0, 600 * PX as i64, 800 * PX as i64);
    let mut s = StdinState::new(strings(items), true);
    assert!(l.check_stdin_updates(&mut s));
    assert!(!s.new_data);
    l
}

fn key(l: &mut Launcher, sym: u32, text: Option<&str>) -> KeyStep {
    l.handle_key(true, sym, &text.map(|t| t.to_string()), nav())
}

fn choice_of(step: KeyStep) -> Option<Choice> {
    match step {
        KeyStep::Taken(out) => out.choice,
        _ => None,
    }
}

#[test]
fn a_session_begins_fresh() {
    let mut l = showing(LauncherMode::Path, &["a", "b"], false);
    l.exit = true;
    l.redraw = true;
    l.ctrl_pressed = true;
    l.trigger_close();
    l.begin(LauncherMode::Dmenu, "p".to_string(), Vec::new(), Some("x".to_string()), true);
    assert!(!l.exit && !l.fade_out);
    assert!(l.redraw && l.ctrl_pressed && l.super_pressed && l.switcher_mode);
    assert_eq!(l.selected_item, None);
    assert_eq!(l.select_item, Some("x".to_string()));
    assert!(l.fuzzel.all_items.is_empty());
    assert_eq!(l.fuzzel.prompt, "p");
}

#[test]
fn enter_takes_the_selected_item() {
    let mut l = showing(LauncherMode::Path, &["ls", "cat"], false);
    assert!(matches!(key(&mut l, SYM_DOWN, None), KeyStep::Taken(_)));
    let c = choice_of(key(&mut l, SYM_RETURN, Some("\r"))).unwrap();
    assert_eq!(c.item, "cat");
    assert!(matches!(c.launch, Launch::Command(ref s) if s == "cat"));
    assert_eq!(l.selected_item, Some("cat".to_string()));
    assert!(l.fade_out && l.redraw);
}

#[test]
fn enter_on_an_empty_list_does_nothing_but_draw() {
    let mut l = showing(LauncherMode::Path, &["ls"], false);
    key(&mut l, xkeysym::Keysym::q.raw(), Some("q"));
    assert!(l.fuzzel.filtered_items.is_empty());
    l.redraw = false;
    assert!(choice_of(key(&mut l, SYM_RETURN, None)).is_none());
    assert!(!l.fade_out && l.redraw);
    assert_eq!(l.selected_item, None);
}

#[test]
fn what_is_run_depends_on_the_mode() {
    let find = |mode, item: &str| find_launch(mode, &apps(), &item.to_string());
    assert!(matches!(
        find(LauncherMode::Apps, "One"),
        Launch::App { ref name, ref command } if name == "One" && command == "one --run"
    ));
    assert!(matches!(find(LauncherMode::Apps, "Three"), Launch::Nothing));
    assert!(matches!(find(LauncherMode::Path, "x"), Launch::Command(ref s) if s == "x"));
    assert!(matches!(find(LauncherMode::Dmenu, "One"), Launch::Nothing));
    assert!(matches!(find(LauncherMode::Json, "One"), Launch::Nothing));
}

#[test]
fn escape_closes_once() {
    let mut l = showing(LauncherMode::Dmenu, &["a"], false);
    key(&mut l, SYM_ESCAPE, None);
    assert!(l.fade_out && l.redraw);
    assert_eq!(l.selected_item, None);
    assert!(!l.trigger_close());
}

#[test]
fn tabs_go_around() {
    let mut l = showing(LauncherMode::Dmenu, &["a", "b"], false);
    key(&mut l, SYM_TAB, None);
    assert_eq!(l.fuzzel.selected, 1);
    key(&mut l, SYM_TAB, None);
    assert_eq!(l.fuzzel.selected, 0);
    assert!(matches!(key(&mut l, SYM_ISO_LEFT_TAB, None), KeyStep::Back));
    assert_eq!(l.fuzzel.selected, 1);
    key(&mut l, SYM_TAB, None);
    assert_eq!(l.fuzzel.selected, 0);
}

#[test]
fn arrows_stop_at_the_ends() {
    let mut l = showing(LauncherMode::Dmenu, &["a", "b"], false);
    key(&mut l, SYM_UP, None);
    assert_eq!(l.fuzzel.selected, 0);
    for _ in 0..3 {
        key(&mut l, SYM_DOWN, None);
    }
    assert_eq!(l.fuzzel.selected, 1);
    l.ctrl_pressed = true;
    key(&mut l, xkeysym::Keysym::p.raw(), Some("\u{10}"));
    assert_eq!(l.fuzzel.selected, 0);
    key(&mut l, xkeysym::Keysym::n.raw(), Some("\u{e}"));
    assert_eq!(l.fuzzel.selected, 1);
}

#[test]
fn typing_filters() {
    let mut l = showing(LauncherMode::Dmenu, &["alpha", "beta"], false);
    let step = key(&mut l, xkeysym::Keysym::b.raw(), Some("b"));
    assert!(matches!(step, KeyStep::Taken(ref out) if out.resize && out.choice.is_none()));
    assert_eq!(l.fuzzel.filtered_items, strings(&["beta"]));
    let step = key(&mut l, SYM_BACKSPACE, None);
    assert!(matches!(step, KeyStep::Taken(ref out) if out.resize));
    assert_eq!(l.fuzzel.filtered_items.len(), 2);
    assert!(matches!(key(&mut l, xkeysym::Keysym::F1.raw(), None), KeyStep::Ignored));
    assert!(matches!(l.handle_key(false, SYM_ESCAPE, &None, nav()), KeyStep::Ignored));
    assert!(!l.fade_out);
}

#[test]
fn the_character_of_a_key_may_come_from_elsewhere() {
    let mut l = showing(LauncherMode::Dmenu, &["a", "b"], false);
    l.ctrl_pressed = true;
    let step = l.take_key(true, 1, Some('N'), &None, nav());
    assert!(matches!(step, KeyStep::Taken(_)));
    assert_eq!(l.fuzzel.selected, 1);
}

#[test]
fn controls_are_asked_first() {
    let mut l = Launcher::new();
    l.begin(LauncherMode::Json, String::new(), Vec::new(), None, false);
    assert!(matches!(key(&mut l, SYM_ESCAPE, None), KeyStep::AskControls(Key::Escape)));
    assert!(!l.fade_out);
    l.press_widget_key(&Key::Escape, true);
    assert!(l.redraw && !l.fade_out);
    l.redraw = false;
    l.press_widget_key(&Key::Tab, false);
    assert!(!l.redraw && !l.fade_out);
    l.press_widget_key(&Key::Escape, false);
    assert!(l.redraw && l.fade_out);
    assert!(matches!(key(&mut l, SYM_ISO_LEFT_TAB, None), KeyStep::Back));
    l.answer("{}".to_string());
    assert_eq!(l.selected_item, Some("{}".to_string()));
}

#[test]
fn the_switcher_takes_the_item_when_super_is_released() {
    let mut l = showing(LauncherMode::Dmenu, &["current", "last", "other"], true);
    assert_eq!(l.fuzzel.selected, 1);
    assert!(l.update_modifiers(true, true).is_none());
    assert!(l.ctrl_pressed);
    let c = l.update_modifiers(false, false).unwrap();
    assert_eq!(c.item, "last");
    assert!(l.fade_out);
    assert!(l.update_modifiers(false, false).is_none());
    let mut plain = showing(LauncherMode::Dmenu, &["a"], false);
    plain.update_modifiers(false, true);
    assert!(plain.update_modifiers(false, false).is_none());
}

#[test]
fn a_press_takes_the_selected_row() {
    let py = |row: i64| (60 + 25 * row + 3) * PX as i64;
    let mut l = showing(LauncherMode::Path, &["a", "b"], false);
    let (hit, choice) = l.press_list(true, py(1));
    assert!(hit && choice.is_none() && l.redraw && !l.fade_out);
    let (hit, choice) = l.press_list(true, py(1));
    assert!(hit && l.fade_out);
    assert_eq!(choice.unwrap().item, "b");
    let (hit, choice) = l.press_list(false, py(0));
    assert!(!hit && choice.is_none());
    let mut lines = showing(LauncherMode::Dmenu, &["a", "b"], false);
    assert_eq!(lines.press_list(true, py(1)).1.unwrap().item, "b");
    let mut switcher = showing(LauncherMode::Apps, &["a", "One"], true);
    switcher.fuzzel.select(0);
    let c = switcher.press_list(true, py(1)).1.unwrap();
    assert!(matches!(c.launch, Launch::App { .. }));
}

#[test]
fn the_item_to_select_is_found_without_regard_to_case() {
    let mut l = Launcher::new();
    l.begin(LauncherMode::Dmenu, String::new(), Vec::new(), Some("ÜBER".to_string()), true);
    let mut s = StdinState::new(strings(&["a", "b"]), true);
    l.check_stdin_updates(&mut s);
    assert_eq!(l.fuzzel.selected, 0);
    assert_eq!(l.select_item, Some("ÜBER".to_string()));
    s.take_line("über");
    assert!(l.check_stdin_updates(&mut s));
    assert_eq!(l.fuzzel.selected, 2);
    assert_eq!(l.select_item, None);
    assert_eq!(find_place(&strings(&["x", "y", "x"]), "x"), Some(0));
    assert_eq!(find_place(&strings(&["x"]), "z"), None);
}

#[test]
fn steps_of_the_input_go_around() {
    let mut l = showing(LauncherMode::Dmenu, &["a", "b", "c"], false);
    let mut s = StdinState::new(strings(&["a", "b", "c"]), false);
    assert!(!l.check_stdin_updates(&mut s));
    s.take_line("__cce_switcher_prev__");
    assert!(l.check_stdin_updates(&mut s));
    assert_eq!(l.fuzzel.selected, 2);
    s.take_line("__cce_switcher_next__");
    s.take_line("__cce_switcher_next__");
    assert!(l.check_stdin_updates(&mut s));
    assert_eq!(l.fuzzel.selected, 1);
    assert!(!l.check_stdin_updates(&mut s));
    assert_eq!((s.cycle_next, s.cycle_prev), (0, 0));
}

#[test]
fn the_input_can_take_the_item() {
    let mut l = showing(LauncherMode::Dmenu, &["a", "b"], true);
    let mut s = StdinState::new(strings(&["a", "b"]), false);
    s.take_line("__cce_switcher_select_and_close__");
    let (changed, choice) = l.take_input(&mut s);
    assert!(!changed);
    assert_eq!(choice.unwrap().item, "b");
    assert!(l.fade_out && !l.select_and_close_requested && !s.select_and_close);
}

#[test]
fn a_client_that_hangs_up_ends_the_session() {
    let mut l = showing(LauncherMode::Dmenu, &["a"], false);
    l.redraw = false;
    let mut client = StdinState::new(strings(&["a", "b"]), true);
    let mut own = StdinState::new(Vec::new(), false);
    let (changed, choice) = l.take_client_input(&mut client, &mut own);
    assert!(changed && choice.is_none() && l.redraw && !l.exit);
    assert_eq!(l.fuzzel.all_items, strings(&["a", "b"]));
    client.take_line("c");
    client.hang_up();
    let (changed, _) = l.take_client_input(&mut client, &mut own);
    assert!(!changed && l.exit);
    assert_eq!(l.fuzzel.all_items, strings(&["a", "b"]));
}

#[test]
fn the_launcher_fades_before_it_ends() {
    let mut l = Launcher::new();
    l.advance_fade(FADE_NS);
    assert!(!l.exit);
    l.trigger_close();
    l.redraw = false;
    l.advance_fade(FADE_NS - 1);
    assert!(l.redraw && !l.exit);
    l.advance_fade(FADE_NS);
    assert!(l.exit);
    assert_eq!(FADE_NS, 150_000_000);
    assert_eq!(fade_left(0), FADE_NS);
    assert_eq!(fade_left(100_000_000), 50_000_000);
    assert_eq!(fade_left(FADE_NS + 1), 0);
}

#[test]
fn frames_wait_where_nothing_changes() {
    assert_eq!(frame_timeout_ms(true), 0);
    assert_eq!(frame_timeout_ms(false), 16);
    assert_eq!(frame_step(true, true), FrameStep::End);
    assert_eq!(frame_step(false, true), FrameStep::Yield);
    assert_eq!(frame_step(false, false), FrameStep::Draw);
}

#[test]
fn the_selection_always_points_at_a_row() {
    let mut l = showing(LauncherMode::Dmenu, &["alpha", "beta", "gamma"], false);
    let keys = [
        (SYM_UP, None),
        (SYM_ISO_LEFT_TAB, None),
        (SYM_DOWN, None),
        (xkeysym::Keysym::b.raw(), Some("b")),
        (SYM_TAB, None),
        (xkeysym::Keysym::z.raw(), Some("z")),
        (SYM_DOWN, None),
        (SYM_TAB, None),
        (SYM_BACKSPACE, None),
        (SYM_BACKSPACE, None),
        (SYM_ISO_LEFT_TAB, None),
    ];
    for (sym, text) in keys {
        key(&mut l, sym, text);
        let n = l.fuzzel.filtered_items.len();
        assert!(l.fuzzel.selected < n || (n == 0 && l.fuzzel.selected == 0));
    }
    assert_eq!(l.fuzzel.selected, 2);
}
