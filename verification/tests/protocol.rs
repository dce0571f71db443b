use cce_cloud::json_layout::{
    JsonControl, JsonLayoutConfig, JsonLayoutWidget, JsonWidgetConfig,
};
use cce_cloud::geometry::Rgb;
use cce_cloud::protocol::{decode_request, encode_request, request_from, response_line};
use cce_cloud::report::{report, report_line};
use cce_cloud::options::LauncherMode;
use cce_cloud::session::{plan_for_line, plan_session, refusal_line};
use cce_cloud::stdin_state::StdinState;

fn strings(v: &[&str]) -> Vec<String> {
    v.iter().map(|s| s.to_string()).collect()
}

fn control(kind: &str, id: &str) -> JsonWidgetConfig {
    JsonWidgetConfig {
        widget_type: kind.to_string(),
        text: "t".to_string(),
        id: Some(id.to_string()),
        checked: None,
        value: None,
        min: None,
        max: None,
        step: None,
        decimals: None,
        color: None,
        value_f32: None,
        min_f32: None,
        max_f32: None,
        target_page: None,
    }
}

fn page(widgets: Vec<JsonWidgetConfig>) -> JsonLayoutWidget {
    JsonLayoutWidget::new(&JsonLayoutConfig {
        width: None,
        height: None,
        widgets: Some(widgets),
        pages: None,
        justify: None,
    })
}

#[test]
fn a_request_comes_back_as_it_was_sent() {
    let args = strings(&["cce-cloud", "-p", "say \"hi\"\n", "ü"]);
    let line = encode_request(&args, "a\nb\\");
    assert!(line.ends_with('\n'));
    let body = line.trim_end_matches('\n').to_string();
    assert_eq!(body.len() + 1, line.len());
    assert!(!body.contains('\n'));
    for text in [line, body] {
        let r = decode_request(&text).unwrap();
        assert_eq!(r.args, args);
        assert_eq!(r.initial_stdin, "a\nb\\");
    }
}

#[test]
fn the_members_of_a_request_have_names() {
    let line = encode_request(&strings(&["c"]), "in");
    let v: serde_json::Value = serde_json::from_str(&line).unwrap();
    assert_eq!(v["args"][0], serde_json::Value::from("c"));
    assert_eq!(v["initial_stdin"], serde_json::Value::from("in"));
    assert_eq!(v.as_object().unwrap().len(), 2);
}

#[test]
fn what_is_no_json_is_no_request() {
    assert!(decode_request("not json").is_none());
    assert!(decode_request("").is_none());
    assert!(decode_request("{\"args\": [}").is_none());
}

#[test]
fn what_a_request_lacks_counts_as_empty() {
    let r = decode_request("{}").unwrap();
    assert!(r.args.is_empty());
    assert_eq!(r.initial_stdin, "");
    let r = decode_request("[1, 2]").unwrap();
    assert!(r.args.is_empty());
    let r = decode_request("{\"args\": [\"a\", 1, null, \"b\"], \"initial_stdin\": 7}").unwrap();
    assert_eq!(r.args, strings(&["a", "b"]));
    assert_eq!(r.initial_stdin, "");
    let r = decode_request("{\"args\": \"a\"}").unwrap();
    assert!(r.args.is_empty());
}

#[test]
fn a_request_can_be_read_from_a_value() {
    let mut m = serde_json::Map::new();
    m.insert("args".to_string(), serde_json::Value::from(vec!["x", "y"]));
    m.insert("initial_stdin".to_string(), serde_json::Value::from("z"));
    let r = request_from(&serde_json::Value::from(m));
    assert_eq!(r.args, strings(&["x", "y"]));
    assert_eq!(r.initial_stdin, "z");
}

#[test]
fn the_response_is_a_line() {
    assert_eq!(response_line(&Some("item".to_string())), "item\n");
    assert_eq!(response_line(&None), "\n");
}

#[test]
fn lines_are_items_or_commands() {
    let mut s = StdinState::new(strings(&["first"]), false);
    assert!(!s.new_data);
    s.take_line("second");
    s.take_line("__cce_switcher_next__");
    s.take_line("__cce_switcher_next__");
    s.take_line("__cce_switcher_prev__");
    s.take_line("__cce_switcher_select_and_close__");
    assert_eq!(s.items, strings(&["first", "second"]));
    assert!(s.new_data);
    assert_eq!((s.cycle_next, s.cycle_prev), (2, 1));
    assert!(s.select_and_close);
    assert!(!s.client_gone);
    s.hang_up();
    assert!(s.client_gone);
}

#[test]
fn line_feeds_do_not_count() {
    let mut s = StdinState::new(Vec::new(), false);
    s.take_raw_line("item\n");
    s.take_raw_line("__cce_switcher_prev__\n\n");
    s.take_raw_line("keeps\r\n");
    s.take_raw_line("\n");
    assert_eq!(s.items, strings(&["item", "keeps\r", ""]));
    assert_eq!(s.cycle_prev, 1);
}

#[test]
fn input_is_handed_on_without_losing_steps() {
    let mut from = StdinState::new(strings(&["a"]), true);
    from.take_line("__cce_switcher_next__");
    from.take_line("__cce_switcher_select_and_close__");
    let mut to = StdinState::new(Vec::new(), false);
    to.cycle_next = 4;
    from.transfer(&mut to);
    assert_eq!(to.items, strings(&["a"]));
    assert_eq!((from.cycle_next, to.cycle_next), (0, 5));
    assert!(to.select_and_close && to.new_data && !from.new_data);
    to.new_data = false;
    from.transfer(&mut to);
    assert!(!to.new_data);
    assert_eq!((from.cycle_next, to.cycle_next), (0, 5));
    from.replace_items(strings(&["b", "c"]));
    from.transfer(&mut to);
    assert_eq!(to.items, strings(&["b", "c"]));
}

#[test]
fn a_report_names_every_control() {
    let mut l = page(vec![
        control("checkbox", "chk"),
        control("spinbox", "spin"),
        control("color", "col"),
        control("slider", "slide"),
        control("button", "ok"),
        control("label", "text"),
    ]);
    l.widgets[0].widget = JsonControl::Checkbox { checked: true, hovered: false };
    l.widgets[1].widget = JsonControl::Spinbox { value: -7, min: 0, max: 9, step: 1, decimals: None };
    l.widgets[2].widget = JsonControl::Color { color: Rgb { r: 1, g: 2, b: 255 } };
    let mut sliders = vec![serde_json::Value::Null; 6];
    sliders[3] = serde_json::Value::from(0.5f32);
    let v = report(&l, &sliders, &"ok".to_string());
    assert_eq!(v["button"], serde_json::Value::from("ok"));
    assert_eq!(v["checkboxes"]["chk"], serde_json::Value::from(true));
    assert_eq!(v["spinboxes"]["spin"], serde_json::Value::from(-7));
    assert_eq!(v["colors"]["col"], serde_json::Value::from(vec![1u8, 2, 255]));
    assert_eq!(v["sliders"]["slide"], serde_json::Value::from(0.5f32));
    assert_eq!(v.as_object().unwrap().len(), 5);
    for section in ["checkboxes", "spinboxes", "colors", "sliders"] {
        assert_eq!(v[section].as_object().unwrap().len(), 1);
    }
    let line = report_line(&l, &sliders, &"ok".to_string());
    assert_eq!(
        line,
        "{\"button\":\"ok\",\"checkboxes\":{\"chk\":true},\"colors\":{\"col\":[1,2,255]},\
         \"sliders\":{\"slide\":0.5},\"spinboxes\":{\"spin\":-7}}"
    );
}

#[test]
fn a_report_can_be_read_back() {
    let l = page(vec![control("checkbox", "a\nb"), control("spinbox", "n")]);
    let sliders = vec![serde_json::Value::Null; 2];
    let line = report_line(&l, &sliders, &"go".to_string());
    assert!(!line.contains('\n'));
    let v: serde_json::Value = serde_json::from_str(&line).unwrap();
    assert_eq!(v, report(&l, &sliders, &"go".to_string()));
}

#[test]
fn of_two_controls_with_one_id_the_later_counts() {
    let mut l = page(vec![control("checkbox", "x"), control("checkbox", "x")]);
    l.widgets[1].widget = JsonControl::Checkbox { checked: true, hovered: false };
    let v = report(&l, &vec![serde_json::Value::Null; 2], &"b".to_string());
    assert_eq!(v["checkboxes"]["x"], serde_json::Value::from(true));
}

#[test]
fn a_request_begins_a_session() {
    let line = encode_request(&strings(&["c", "-p", "Pick: "]), "one\ntwo\n");
    let (plan, request) = plan_for_line(&line).unwrap();
    assert_eq!(plan.options.mode, LauncherMode::Dmenu);
    assert_eq!(plan.options.prompt, "Pick: ");
    assert_eq!(plan.input.items, strings(&["one", "two"]));
    assert!(plan.input.new_data);
    assert_eq!(request.initial_stdin, "one\ntwo\n");
    assert!(plan_for_line("{").is_none());
}

#[test]
fn the_input_decides_only_where_no_mode_is_named() {
    let plan = |args: &[&str], stdin: &str| {
        let line = encode_request(&strings(args), stdin);
        plan_session(&decode_request(&line).unwrap())
    };
    let p = plan(&["c"], "");
    assert_eq!(p.options.mode, LauncherMode::Path);
    assert!(p.input.items.is_empty() && !p.input.new_data);
    let p = plan(&["c", "--json"], "{}");
    assert_eq!(p.options.mode, LauncherMode::Json);
    assert!(p.input.items.is_empty() && p.input.new_data);
    let p = plan(&["c", "--switcher"], "");
    assert_eq!(p.options.mode, LauncherMode::Dmenu);
    assert!(p.options.switcher_mode);
}

#[test]
fn a_layout_that_cannot_be_read_is_refused() {
    assert_eq!(refusal_line("why"), "Failed to parse JSON layout: why\n");
}

#[test]
fn a_request_has_two_members_and_no_others() {
    let line = encode_request(&strings(&["c", "x"]), "in");
    let v: serde_json::Value = serde_json::from_str(&line).unwrap();
    let mut m = serde_json::Map::new();
    m.insert("args".to_string(), serde_json::Value::from(vec!["c", "x"]));
    m.insert("initial_stdin".to_string(), serde_json::Value::from("in"));
    assert_eq!(v, serde_json::Value::from(m));
}

#[test]
fn a_fraction_is_read_as_a_fraction() {
    for x in [
        0.1f64, -0.0, 1.0, 1e16, 1e20, 1e21, 123456789012345680.0, 5e-324, f64::MIN_POSITIVE,
        f64::MAX, f64::MIN, 1.7976931348623155e308, 0.1f32 as f64, f32::MAX as f64,
    ] {
        let text = serde_json::Value::from(x).to_string();
        assert!(!text.contains('\n'));
        let v: serde_json::Value = serde_json::from_str(&format!("{text}\n")).unwrap();
        assert!(v.is_f64(), "{text}");
    }
    let l = page(vec![control("slider", "s"), control("slider", "n")]);
    let sliders = vec![serde_json::Value::from(0.1f32), serde_json::Value::from(f32::NAN)];
    let line = report_line(&l, &sliders, &"b".to_string());
    let v: serde_json::Value = serde_json::from_str(&line).unwrap();
    assert!(v["sliders"]["s"].is_f64());
    assert!(v["sliders"]["n"].is_null());
    let swapped = vec![sliders[1].clone(), sliders[0].clone()];
    assert_ne!(report_line(&l, &swapped, &"b".to_string()), line);
}

#[test]
fn a_request_is_written_as_json() {
    let line = encode_request(&strings(&["c", "a\tb"]), "x\"\n");
    assert_eq!(line, "{\"args\":[\"c\",\"a\\tb\"],\"initial_stdin\":\"x\\\"\\n\"}\n");
}

#[test]
fn equal_reports_are_equal_lines() {
    let a = page(vec![control("checkbox", "x"), control("spinbox", "y")]);
    let b = page(vec![control("spinbox", "y"), control("label", "z"), control("checkbox", "x")]);
    let line = report_line(&a, &vec![serde_json::Value::Null; 2], &"go".to_string());
    assert_eq!(line, report_line(&b, &vec![serde_json::Value::Null; 3], &"go".to_string()));
}
