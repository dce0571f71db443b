use cce_cloud::catalog::{
    app_dirs, collect_apps, collect_executables, get_cache_path, is_desktop_entry, is_executable,
    join_path, list_names, path_dirs, runtime_dir, socket_path,
};
use cce_cloud::desktop::{clean_exec_command, parse_desktop_file, AppInfo};
use cce_cloud::history::{
    check_listed_before, record_app_launch, sort_apps_by_history, AppLaunchHistory, HistoryEntry,
    LaunchHistory,
};

fn strings(v: &[&str]) -> Vec<String> {
    v.iter().map(|s| s.to_string()).collect()
}

fn app(name: &str, command: &str) -> AppInfo {
    AppInfo { name: name.to_string(), command: command.to_string() }
}

fn names(apps: &Vec<AppInfo>) -> Vec<String> {
    apps.iter().map(|a| a.name.clone()).collect()
}

#[test]
fn test_app_history_sorting() {
    let mut history = LaunchHistory::new();
    let mut apps = vec![
        app("App A", "exec_a"),
        app("App B", "exec_b"),
        app("App C", "exec_c"),
    ];

    // Initially no history, sorted alphabetically.
    sort_apps_by_history(&mut apps, &history);
    assert_eq!(apps[0].name, "App A");
    assert_eq!(apps[1].name, "App B");
    assert_eq!(apps[2].name, "App C");

    // Record launch for App B once, and App C twice.
    record_app_launch(&mut history, "App B", 1000);
    record_app_launch(&mut history, "App C", 1010);
    record_app_launch(&mut history, "App C", 1020);

    sort_apps_by_history(&mut apps, &history);
    // App C (count 2) -> App B (count 1) -> App A (count 0)
    assert_eq!(apps[0].name, "App C");
    assert_eq!(apps[1].name, "App B");
    assert_eq!(apps[2].name, "App A");

    // Record App A launches 3 times to move it to the top.
    record_app_launch(&mut history, "App A", 1021);
    record_app_launch(&mut history, "App A", 1022);
    record_app_launch(&mut history, "App A", 1023);

    sort_apps_by_history(&mut apps, &history);
    // App A (count 3) -> App C (count 2) -> App B (count 1)
    assert_eq!(apps[0].name, "App A");
    assert_eq!(apps[1].name, "App C");
    assert_eq!(apps[2].name, "App B");

    // Record App B launch once, now both App B and App C have count 2.
    // App B was launched most recently, so it should rank higher than App C.
    record_app_launch(&mut history, "App B", 1024);
    sort_apps_by_history(&mut apps, &history);
    // App A (count 3) -> App B (count 2, recent) -> App C (count 2, older)
    assert_eq!(apps[0].name, "App A");
    assert_eq!(apps[1].name, "App B");
    assert_eq!(apps[2].name, "App C");
}

#[test]
fn equal_counts_and_times_fall_back_to_names() {
    let mut history = LaunchHistory::new();
    record_app_launch(&mut history, "z", 5);
    record_app_launch(&mut history, "b", 5);
    let mut apps = vec![app("z", ""), app("a", ""), app("b", "")];
    sort_apps_by_history(&mut apps, &history);
    assert_eq!(names(&apps), strings(&["b", "z", "a"]));
}

#[test]
fn a_launch_never_lowers_an_application() {
    let mut history = LaunchHistory::new();
    record_app_launch(&mut history, "b", 10);
    let mut apps = vec![app("a", ""), app("b", ""), app("c", "")];
    sort_apps_by_history(&mut apps, &history);
    assert_eq!(names(&apps), strings(&["b", "a", "c"]));
    record_app_launch(&mut history, "b", 11);
    sort_apps_by_history(&mut apps, &history);
    assert_eq!(names(&apps), strings(&["b", "a", "c"]));
}

#[test]
fn applications_with_one_name_keep_their_order() {
    let history = LaunchHistory::new();
    let mut apps = vec![app("b", "1"), app("a", "2"), app("b", "3")];
    sort_apps_by_history(&mut apps, &history);
    let commands: Vec<String> = apps.iter().map(|a| a.command.clone()).collect();
    assert_eq!(commands, strings(&["2", "1", "3"]));
}

#[test]
fn an_application_with_launches_goes_before_one_without() {
    let some = Some(AppLaunchHistory { count: 0, last_launch: 0 });
    assert!(check_listed_before(some, "z", None, "a"));
    assert!(!check_listed_before(None, "a", some, "z"));
    assert!(check_listed_before(None, "a", None, "b"));
}

#[test]
fn launches_are_counted() {
    let mut history = LaunchHistory::new();
    assert_eq!(history.get("x"), None);
    record_app_launch(&mut history, "x", 7);
    record_app_launch(&mut history, "x", 9);
    assert_eq!(history.get("x"), Some(AppLaunchHistory { count: 2, last_launch: 9 }));
}

#[test]
fn a_history_survives_its_list() {
    let mut history = LaunchHistory::new();
    record_app_launch(&mut history, "x", 7);
    record_app_launch(&mut history, "y", 8);
    let again = LaunchHistory::from_entries(&history.to_entries());
    assert_eq!(again.get("x"), history.get("x"));
    assert_eq!(again.get("y"), history.get("y"));
    assert_eq!(again.to_entries().len(), 2);
}

#[test]
fn the_last_of_equal_names_counts_in_a_list() {
    let history = LaunchHistory::from_entries(&vec![
        HistoryEntry { name: "x".to_string(), launches: AppLaunchHistory { count: 1, last_launch: 1 } },
        HistoryEntry { name: "x".to_string(), launches: AppLaunchHistory { count: 5, last_launch: 2 } },
    ]);
    assert_eq!(history.get("x"), Some(AppLaunchHistory { count: 5, last_launch: 2 }));
}

#[test]
fn field_codes_are_removed() {
    assert_eq!(clean_exec_command("firefox %u"), "firefox");
    assert_eq!(clean_exec_command("  vlc   --started-from-file  %U "), "vlc --started-from-file");
    assert_eq!(clean_exec_command("code --file=%F %i %c %k"), "code --file=");
    assert_eq!(clean_exec_command("echo 100%%"), "echo 100%");
    assert_eq!(clean_exec_command("%f%F"), "");
    assert_eq!(clean_exec_command("a\u{2003}b\t%v"), "a b");
    assert_eq!(clean_exec_command("plain command"), "plain command");
}

#[test]
fn removing_a_code_can_leave_another() {
    // The codes go one after the other, so what a removal leaves can be a later code.
    assert_eq!(clean_exec_command("%%uf"), "%f");
    assert_eq!(clean_exec_command("%%fu"), "");
}

#[test]
fn a_desktop_file_is_read() {
    let lines = strings(&[
        "# a comment",
        "[Desktop Action new]",
        "Name=Wrong",
        "",
        " [Desktop Entry] ",
        "Name = Editor",
        "Name=Second",
        "Exec=edit %f --x",
        "Exec=other",
        "Type=Application",
        "NoDisplay=false",
        "[Other]",
        "Type=Link",
    ]);
    let a = parse_desktop_file(&lines).unwrap();
    assert_eq!(a.name, "Editor");
    assert_eq!(a.command, "edit --x");
}

#[test]
fn what_is_no_visible_application_is_left_out() {
    let base = ["[Desktop Entry]", "Name=N", "Exec=e"];
    assert!(parse_desktop_file(&strings(&base)).is_some());
    let mut link = strings(&base);
    link.push("Type=Link".to_string());
    assert!(parse_desktop_file(&link).is_none());
    let mut hidden = strings(&base);
    hidden.push("NoDisplay=true".to_string());
    assert!(parse_desktop_file(&hidden).is_none());
    assert!(parse_desktop_file(&strings(&["[Desktop Entry]", "Name=N"])).is_none());
    assert!(parse_desktop_file(&strings(&["[Desktop Entry]", "Exec=e"])).is_none());
    assert!(parse_desktop_file(&strings(&["Name=N", "Exec=e"])).is_none());
    assert!(parse_desktop_file(&Vec::new()).is_none());
}

#[test]
fn executables_are_listed_once_and_in_order() {
    assert_eq!(
        collect_executables(&strings(&["ls", "cat", "ls", "Zed", "ärger"])),
        strings(&["Zed", "cat", "ls", "ärger"])
    );
    assert!(is_executable(0o100755));
    assert!(is_executable(0o100001));
    assert!(!is_executable(0o100644));
}

#[test]
fn the_earlier_entry_of_a_name_wins() {
    let apps = collect_apps(&vec![app("b", "user"), app("a", "1"), app("b", "system")]);
    assert_eq!(names(&apps), strings(&["a", "b"]));
    assert_eq!(apps[1].command, "user");
    assert_eq!(list_names(&apps), strings(&["a", "b"]));
}

#[test]
fn places_to_look() {
    assert_eq!(path_dirs("/bin:/usr/bin"), strings(&["/bin", "/usr/bin"]));
    assert_eq!(path_dirs(""), strings(&[""]));
    assert_eq!(
        app_dirs(Some("/home/u")),
        strings(&[
            "/home/u/.local/share/applications",
            "/usr/local/share/applications",
            "/usr/share/applications",
        ])
    );
    assert_eq!(
        app_dirs(None),
        strings(&["/usr/local/share/applications", "/usr/share/applications"])
    );
    assert!(is_desktop_entry("editor.desktop"));
    assert!(!is_desktop_entry("editor.desktop.bak"));
    assert!(!is_desktop_entry("desktop"));
    assert!(!is_desktop_entry(".desktop"));
}

#[test]
fn joining_goes_as_with_paths() {
    for base in ["/home/u", "/home/u/", "", "rel"] {
        for rel in [".cache", "a/b", ""] {
            let want = std::path::Path::new(base).join(rel);
            assert_eq!(join_path(base, rel), want.to_str().unwrap(), "{base} + {rel}");
        }
    }
}

#[test]
fn the_cache_is_found() {
    assert_eq!(
        get_cache_path(Some("/tmp/c"), Some("/home/u")),
        Some("/tmp/c/cce-cloud-apps.json".to_string())
    );
    assert_eq!(
        get_cache_path(None, Some("/home/u")),
        Some("/home/u/.cache/cce-cloud-apps.json".to_string())
    );
    assert_eq!(get_cache_path(None, None), None);
}

#[test]
fn the_socket_belongs_to_user_and_display() {
    assert_eq!(runtime_dir(1000), "/run/user/1000");
    assert_eq!(
        socket_path(1000, true, Some("wayland-1")),
        "/run/user/1000/cce-cloud-wayland-1.socket"
    );
    assert_eq!(socket_path(0, false, None), "/tmp/cce-cloud-0-wayland-0.socket");
}

#[test]
fn displays_do_not_share_a_socket() {
    for exists in [true, false] {
        let a = socket_path(1000, exists, Some("wayland-0"));
        let b = socket_path(1000, exists, Some("wayland-1"));
        assert_ne!(a, b);
        assert_eq!(a, socket_path(1000, exists, None));
    }
}

#[test]
fn each_word_of_a_command_is_cleaned_on_its_own() {
    let join = |a: &str, b: &str| match (a, b) {
        ("", b) => b.to_string(),
        (a, "") => a.to_string(),
        (a, b) => format!("{a} {b}"),
    };
    let parts = ["", "run", "%u", "a%f b", " x  %% ", "%", "u", "%%u"];
    for a in parts {
        for b in parts {
            let want = join(&clean_exec_command(a), &clean_exec_command(b));
            for white in [" ", "\t", "\n", "\u{a0}", "\u{3000}"] {
                assert_eq!(clean_exec_command(&format!("{a}{white}{b}")), want);
            }
        }
    }
}

#[test]
fn white_space_is_what_parts_words() {
    let white = |n: u32| {
        matches!(
            n,
            0x09..=0x0d | 0x20 | 0x85 | 0xa0 | 0x1680 | 0x2000..=0x200a | 0x2028 | 0x2029 | 0x202f
                | 0x205f | 0x3000
        )
    };
    for c in '\0'..=char::MAX {
        assert_eq!(c.is_whitespace(), white(c as u32), "{c:?}");
        assert_eq!(c.is_control(), matches!(c as u32, 0..=0x1f | 0x7f..=0x9f), "{c:?}");
    }
}
