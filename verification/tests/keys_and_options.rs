use cce_cloud::keys::{
    chord_accepts, chord_ctrl_char, logical_key, nav_matches, resolve_key, Key, NavKeys,
    SYM_BACKSPACE, SYM_DELETE, SYM_DOWN, SYM_ESCAPE, SYM_ISO_LEFT_TAB, SYM_LEFT, SYM_RETURN,
    SYM_RIGHT, SYM_SPACE, SYM_TAB, SYM_UP,
};
use cce_cloud::number::{parse_integer, to_decimal};
use cce_cloud::options::{
    client_needs_stdin, default_mode, initial_items, parse_options, place_surface, uses_popup,
    wants_daemon, window_app_id, LauncherMode, Placement,
};

fn strings(v: &[&str]) -> Vec<String> {
    v.iter().map(|s| s.to_string()).collect()
}

fn emacs() -> NavKeys {
    NavKeys {
        select_next: chord_ctrl_char("ctrl+n"),
        select_prev: chord_ctrl_char("ctrl+p"),
    }
}

#[test]
fn chords_are_read() {
    assert_eq!(chord_ctrl_char("ctrl+n"), Some((true, 'n')));
    assert_eq!(chord_ctrl_char(" Control + N "), Some((true, 'n')));
    assert_eq!(chord_ctrl_char("j"), Some((false, 'j')));
    assert_eq!(chord_ctrl_char("J"), Some((false, 'j')));
    assert_eq!(chord_ctrl_char("ctrl+ctrl+x"), Some((true, 'x')));
    assert_eq!(chord_ctrl_char("alt+n"), None);
    assert_eq!(chord_ctrl_char("ctrl+nn"), None);
    assert_eq!(chord_ctrl_char("ctrl+"), None);
    assert_eq!(chord_ctrl_char(""), None);
    assert_eq!(chord_ctrl_char("Ä"), Some((false, 'Ä')));
}

#[test]
fn key_symbols_have_their_numbers() {
    let named = [
        (xkeysym::Keysym::Escape, SYM_ESCAPE),
        (xkeysym::Keysym::Return, SYM_RETURN),
        (xkeysym::Keysym::BackSpace, SYM_BACKSPACE),
        (xkeysym::Keysym::Down, SYM_DOWN),
        (xkeysym::Keysym::Up, SYM_UP),
        (xkeysym::Keysym::Left, SYM_LEFT),
        (xkeysym::Keysym::Right, SYM_RIGHT),
        (xkeysym::Keysym::Tab, SYM_TAB),
        (xkeysym::Keysym::ISO_Left_Tab, SYM_ISO_LEFT_TAB),
        (xkeysym::Keysym::Delete, SYM_DELETE),
        (xkeysym::Keysym::space, SYM_SPACE),
    ];
    for (sym, number) in named {
        assert_eq!(sym.raw(), number);
    }
}

#[test]
fn chords_match_symbols() {
    let n = xkeysym::Keysym::n.raw();
    let upper = xkeysym::Keysym::N.raw();
    assert!(nav_matches(Some((true, 'n')), true, n));
    assert!(nav_matches(Some((true, 'n')), true, upper));
    assert!(!nav_matches(Some((true, 'n')), false, n));
    assert!(!nav_matches(Some((false, 'n')), true, n));
    assert!(!nav_matches(None, true, n));
    assert!(!nav_matches(Some((true, 'n')), true, xkeysym::Keysym::p.raw()));
    assert!(!nav_matches(Some((true, 'n')), true, xkeysym::Keysym::F1.raw()));
    assert!(chord_accepts(Some((false, 'q')), false, Some('Q')));
    assert!(!chord_accepts(Some((false, 'q')), false, None));
}

#[test]
fn keys_have_meanings() {
    let nav = emacs();
    let text = Some("x".to_string());
    assert!(matches!(logical_key(SYM_ESCAPE, &text, false, nav), Some(Key::Escape)));
    assert!(matches!(logical_key(SYM_RETURN, &None, false, nav), Some(Key::Enter)));
    assert!(matches!(logical_key(SYM_BACKSPACE, &None, false, nav), Some(Key::Backspace)));
    assert!(matches!(logical_key(SYM_DOWN, &None, false, nav), Some(Key::ArrowDown)));
    assert!(matches!(logical_key(SYM_UP, &None, false, nav), Some(Key::ArrowUp)));
    assert!(matches!(logical_key(SYM_LEFT, &None, false, nav), Some(Key::ArrowLeft)));
    assert!(matches!(logical_key(SYM_RIGHT, &None, false, nav), Some(Key::ArrowRight)));
    assert!(matches!(logical_key(SYM_TAB, &None, false, nav), Some(Key::Tab)));
    assert!(matches!(logical_key(SYM_DELETE, &None, false, nav), Some(Key::Delete)));
    assert!(matches!(logical_key(SYM_SPACE, &None, false, nav), Some(Key::Space)));
    let n = xkeysym::Keysym::n.raw();
    let p = xkeysym::Keysym::p.raw();
    assert!(matches!(logical_key(n, &text, true, nav), Some(Key::ArrowDown)));
    assert!(matches!(logical_key(p, &text, true, nav), Some(Key::ArrowUp)));
    assert!(matches!(logical_key(n, &text, false, nav), Some(Key::Character(t)) if t == "x"));
    assert!(logical_key(n, &None, false, nav).is_none());
    assert!(matches!(resolve_key(1, Some('P'), &None, true, nav), Some(Key::ArrowUp)));
}

#[test]
fn numbers_are_read_and_written() {
    let read = |s: &str| parse_integer(&s.chars().collect());
    for s in [
        "0", "-0", "+5", "007", "-12", "2147483647", "2147483648", "-2147483648", "-2147483649",
        "", "-", "+", "1x", " 1", "99999999999999999999", "٣",
    ] {
        assert_eq!(read(s), s.parse::<i32>().ok(), "{s}");
    }
    for n in [0u64, 9, 10, 12345, u64::MAX] {
        assert_eq!(to_decimal(n), n.to_string());
    }
}

#[test]
fn options_are_read() {
    let o = parse_options(
        &strings(&[
            "cce-cloud", "-p", "Run: ", "--select", "two", "-x", "10", "--y-pos", "-3",
            "--parent-app-id", "bar", "--align-right", "--apps", "whatever",
        ]),
        LauncherMode::Path,
    );
    assert_eq!(o.prompt, "Run: ");
    assert_eq!(o.select_item, Some("two".to_string()));
    assert_eq!((o.x_pos, o.y_pos), (Some(10), Some(-3)));
    assert_eq!(o.parent_app_id, Some("bar".to_string()));
    assert!(o.align_right);
    assert!(!o.switcher_mode);
    assert_eq!(o.mode, LauncherMode::Apps);
    assert!(o.unknown_modes.is_empty());
}

#[test]
fn without_options_the_defaults_hold() {
    let o = parse_options(&strings(&["cce-cloud"]), LauncherMode::Dmenu);
    assert_eq!(o.prompt, "Search: ");
    assert_eq!(o.mode, LauncherMode::Dmenu);
    assert_eq!((o.x_pos, o.y_pos), (None, None));
    assert_eq!(o.select_item, None);
    assert_eq!(default_mode(true), LauncherMode::Dmenu);
    assert_eq!(default_mode(false), LauncherMode::Path);
}

#[test]
fn a_missing_or_wrong_value_is_passed_over() {
    let o = parse_options(&strings(&["c", "-x", "ten", "--mode", "moon", "-p"]), LauncherMode::Path);
    assert_eq!(o.x_pos, None);
    assert_eq!(o.unknown_modes, strings(&["moon"]));
    assert_eq!(o.prompt, "Search: ");
    assert_eq!(o.mode, LauncherMode::Path);
}

#[test]
fn the_last_option_counts() {
    let o = parse_options(&strings(&["c", "--path", "--json", "-p", "a", "-p", "b"]), LauncherMode::Apps);
    assert_eq!(o.mode, LauncherMode::Json);
    assert_eq!(o.prompt, "b");
    let o = parse_options(&strings(&["c", "--json", "--switcher"]), LauncherMode::Apps);
    assert_eq!(o.mode, LauncherMode::Dmenu);
    assert!(o.switcher_mode);
    for (name, mode) in [
        ("apps", LauncherMode::Apps),
        ("app", LauncherMode::Apps),
        ("path", LauncherMode::Path),
        ("dmenu", LauncherMode::Dmenu),
    ] {
        let o = parse_options(&strings(&["c", "--mode", name]), LauncherMode::Json);
        assert_eq!(o.mode, mode);
    }
}

#[test]
fn a_value_is_no_option() {
    let o = parse_options(&strings(&["c", "-p", "--apps"]), LauncherMode::Path);
    assert_eq!(o.prompt, "--apps");
    assert_eq!(o.mode, LauncherMode::Path);
}

#[test]
fn the_client_reads_first_where_the_mode_needs_it() {
    let needs = |v: &[&str], terminal: bool| client_needs_stdin(&strings(v), terminal);
    assert!(needs(&["c", "--dmenu"], true));
    assert!(needs(&["c", "--mode", "json"], true));
    assert!(!needs(&["c", "--apps"], false));
    assert!(!needs(&["c", "--mode", "path"], false));
    assert!(!needs(&["c", "--dmenu", "--switcher"], false));
    assert!(needs(&["c", "--switcher", "--layout"], true));
    assert!(needs(&["c"], false));
    assert!(!needs(&["c"], true));
    assert!(needs(&["c", "--mode", "moon"], false));
    assert!(wants_daemon(&strings(&["c", "x", "--daemon"])));
    assert!(!wants_daemon(&strings(&["c", "--daemons"])));
}

#[test]
fn surfaces_are_placed() {
    assert_eq!(place_surface(None, None, true), Placement::Centered);
    assert_eq!(place_surface(Some(3), None, false), Placement::TopLeft { top: 0, left: 3 });
    assert_eq!(place_surface(Some(3), Some(4), true), Placement::TopRight { top: 4, right: 3 });
    assert!(uses_popup(true, true, None, None));
    assert!(!uses_popup(true, true, Some(1), None));
    assert!(!uses_popup(true, true, None, Some(1)));
    assert!(!uses_popup(false, true, None, None));
    assert!(!uses_popup(true, false, None, None));
    assert_eq!(window_app_id(&Some("bar".to_string())), "cce-cloud:bar");
    assert_eq!(window_app_id(&None), "cce-cloud");
}

#[test]
fn the_first_items_are_the_lines_of_the_input() {
    let text = "one\ntwo\r\n\nthree";
    assert_eq!(initial_items(LauncherMode::Dmenu, text), strings(&["one", "two", "", "three"]));
    let want: Vec<String> = "a\r\r\nb\n".lines().map(|l| l.to_string()).collect();
    assert_eq!(initial_items(LauncherMode::Dmenu, "a\r\r\nb\n"), want);
    assert!(initial_items(LauncherMode::Apps, text).is_empty());
}
