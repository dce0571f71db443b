//! What a page of controls answers when one of its buttons is pressed: the button and the
//! state of every control, as JSON.

use vstd::prelude::*;
use crate::json_layout::JsonControl;
use crate::json_layout::JsonLayoutWidget;
use crate::json_layout::LayoutModel;
use crate::json_layout::WidgetModel;
use crate::protocol::alike;
use crate::protocol::all_leaves;
use crate::protocol::bool_value;
use crate::protocol::bytes_value;
use crate::protocol::copy_value;
use crate::protocol::empty_members;
use crate::protocol::exact_leaf;
use crate::protocol::exact_leaves;
use crate::protocol::exact_member;
use crate::protocol::int_value;
use crate::protocol::is_leaf;
use crate::protocol::is_plain;
use crate::protocol::is_shallow;
use crate::protocol::json_bytes;
use crate::protocol::json_of;
use crate::protocol::lemma_exact_members;
use crate::protocol::members_of;
use crate::protocol::no_members;
use crate::protocol::object_value;
use crate::protocol::parsed;
use crate::protocol::reads_as;
use crate::protocol::set_member;
use crate::protocol::text_value;
use crate::protocol::write_value;
use crate::protocol::written;
use crate::protocol::Json;
use crate::text::owned;

verus! {

/// The sections of a report.
#[derive(Clone, Copy, Debug, PartialEq, Eq, Structural)]
pub enum Section {
    Checkboxes,
    Spinboxes,
    Colors,
    Sliders,
}

/// What a control contributes to a section, if it belongs there. `slider` is the value of the
/// control where it is a slider.
pub open spec fn entry_of(w: WidgetModel, slider: Json, section: Section) -> Option<Json> {
    match (section, w.control) {
        (Section::Checkboxes, JsonControl::Checkbox { checked, .. }) => Some(Json::Bool(checked)),
        (Section::Spinboxes, JsonControl::Spinbox { value, .. }) => Some(Json::Int(value as int)),
        (Section::Colors, JsonControl::Color { color }) => Some(
            Json::List(json_bytes(seq![color.r, color.g, color.b])),
        ),
        (Section::Sliders, JsonControl::Slider { .. }) => Some(slider),
        _ => None,
    }
}

/// A section for the first `n` controls. Of two controls with one id the later counts.
pub open spec fn section_members(
    ws: Seq<WidgetModel>,
    sliders: Seq<serde_json::Value>,
    section: Section,
    n: int,
) -> Map<Seq<char>, Json>
    decreases n,
{
    if n <= 0 {
        empty_members()
    } else {
        match entry_of(ws[n - 1], json_of(sliders[n - 1]), section) {
            Some(j) => section_members(ws, sliders, section, n - 1).insert(ws[n - 1].id, j),
            None => section_members(ws, sliders, section, n - 1),
        }
    }
}

/// A section for all controls.
pub open spec fn section_of(l: LayoutModel, sliders: Seq<serde_json::Value>, section: Section) -> Json {
    Json::Object(section_members(l.widgets, sliders, section, l.widgets.len() as int))
}

/// The report that a button was pressed.
pub open spec fn report_of(l: LayoutModel, sliders: Seq<serde_json::Value>, button: Seq<char>) -> Json {
    Json::Object(
        empty_members().insert("button"@, Json::Text(button)).insert(
            "checkboxes"@,
            section_of(l, sliders, Section::Checkboxes),
        ).insert("spinboxes"@, section_of(l, sliders, Section::Spinboxes)).insert(
            "colors"@,
            section_of(l, sliders, Section::Colors),
        ).insert("sliders"@, section_of(l, sliders, Section::Sliders)),
    )
}

fn make_entry(c: JsonControl, slider: &serde_json::Value, section: Section) -> (r: Option<
    serde_json::Value,
>)
    ensures
        forall|w: WidgetModel|
            w.control == c ==> (#[trigger] entry_of(w, json_of(*slider), section)) == match r {
                Some(v) => Some(json_of(v)),
                None => None,
            },
{
    match (section, c) {
        (Section::Checkboxes, JsonControl::Checkbox { checked, .. }) => Some(bool_value(checked)),
        (Section::Spinboxes, JsonControl::Spinbox { value, .. }) => Some(int_value(value)),
        (Section::Colors, JsonControl::Color { color }) => {
            let bytes = vec![color.r, color.g, color.b];
            proof {
                assert(bytes@ =~= seq![color.r, color.g, color.b]);
            }
            Some(bytes_value(bytes))
        },
        (Section::Sliders, JsonControl::Slider { .. }) => Some(copy_value(slider)),
        _ => None,
    }
}

fn make_section(l: &JsonLayoutWidget, sliders: &Vec<serde_json::Value>, section: Section) -> (r:
    serde_json::Value)
    requires
        sliders@.len() == l.widgets@.len(),
    ensures
        json_of(r) == section_of(l@, sliders@, section),
{
    let n = l.widgets.len();
    let mut m = no_members();
    let mut i: usize = 0;
    while i < n
        invariant
            i <= n,
            n == l.widgets@.len(),
            sliders@.len() == n,
            members_of(m) == section_members(l@.widgets, sliders@, section, i as int),
        decreases n - i,
    {
        let entry = make_entry(l.widgets[i].widget, &sliders[i], section);
        proof {
            assert(l@.widgets[i as int].control == l.widgets@[i as int].widget);
        }
        if let Some(v) = entry {
            set_member(&mut m, l.widgets[i].id.clone(), v);
        }
        i += 1;
    }
    object_value(m)
}

/// The report that a button was pressed. `sliders` are the values of the controls that are
/// sliders; what it holds for other controls does not count.
pub fn report(l: &JsonLayoutWidget, sliders: &Vec<serde_json::Value>, button: &String) -> (r:
    serde_json::Value)
    requires
        sliders@.len() == l.widgets@.len(),
    ensures
        json_of(r) == report_of(l@, sliders@, button@),
{
    let mut m = no_members();
    set_member(&mut m, owned("button"), text_value(button.clone()));
    set_member(&mut m, owned("checkboxes"), make_section(l, sliders, Section::Checkboxes));
    set_member(&mut m, owned("spinboxes"), make_section(l, sliders, Section::Spinboxes));
    set_member(&mut m, owned("colors"), make_section(l, sliders, Section::Colors));
    set_member(&mut m, owned("sliders"), make_section(l, sliders, Section::Sliders));
    object_value(m)
}

/// The values of the sliders hold no others, as numbers do not.
pub open spec fn plain_sliders(l: LayoutModel, sliders: Seq<serde_json::Value>) -> bool {
    forall|i: int|
        0 <= i < l.widgets.len() && (#[trigger] l.widgets[i]).control is Slider ==> is_plain(
            json_of(sliders[i]),
        )
}

proof fn lemma_section_flat(
    ws: Seq<WidgetModel>,
    sliders: Seq<serde_json::Value>,
    section: Section,
    n: int,
)
    requires
        n <= ws.len(),
        forall|i: int|
            0 <= i < ws.len() && (#[trigger] ws[i]).control is Slider ==> is_plain(
                json_of(sliders[i]),
            ),
    ensures
        all_leaves(section_members(ws, sliders, section, n)),
    decreases n,
{
    if n > 0 {
        lemma_section_flat(ws, sliders, section, n - 1);
        let before = section_members(ws, sliders, section, n - 1);
        let after = section_members(ws, sliders, section, n);
        assert forall|k: Seq<char>| #[trigger] after.contains_key(k) implies is_leaf(after[k]) by {
            assert(ws[n - 1].control is Slider ==> is_plain(json_of(sliders[n - 1])));
            if before.contains_key(k) {
                assert(is_leaf(before[k]));
            }
        }
    }
}

/// No control is a slider.
pub open spec fn without_sliders(l: LayoutModel) -> bool {
    forall|i: int| 0 <= i < l.widgets.len() ==> !((#[trigger] l.widgets[i]).control is Slider)
}

proof fn lemma_section_exact(
    ws: Seq<WidgetModel>,
    sliders: Seq<serde_json::Value>,
    section: Section,
    n: int,
)
    requires
        n <= ws.len(),
        forall|i: int| 0 <= i < ws.len() ==> !((#[trigger] ws[i]).control is Slider),
    ensures
        exact_leaves(section_members(ws, sliders, section, n)),
    decreases n,
{
    if n > 0 {
        lemma_section_exact(ws, sliders, section, n - 1);
        let before = section_members(ws, sliders, section, n - 1);
        let after = section_members(ws, sliders, section, n);
        assert forall|k: Seq<char>| #[trigger] after.contains_key(k) implies exact_leaf(
            after[k],
        ) by {
            assert(!(ws[n - 1].control is Slider));
            if before.contains_key(k) {
                assert(exact_leaf(before[k]));
            }
        }
    }
}

proof fn lemma_report_exact(
    l: LayoutModel,
    sliders: Seq<serde_json::Value>,
    button: Seq<char>,
    got: Json,
)
    requires
        without_sliders(l),
        alike(got, report_of(l, sliders, button)),
    ensures
        got == report_of(l, sliders, button),
{
    let n = l.widgets.len() as int;
    lemma_section_exact(l.widgets, sliders, Section::Checkboxes, n);
    lemma_section_exact(l.widgets, sliders, Section::Spinboxes, n);
    lemma_section_exact(l.widgets, sliders, Section::Colors, n);
    lemma_section_exact(l.widgets, sliders, Section::Sliders, n);
    let m = report_of(l, sliders, button)->Object_0;
    assert forall|k: Seq<char>| #[trigger] m.contains_key(k) implies exact_member(m[k]) by {}
    lemma_exact_members(got, m);
}

/// Writes the report that a button was pressed. It is one line, and it is what is written for
/// the report. Reading it gives the report back, as far as the parser gets the digits of
/// fractions right; only the values of sliders, which are to be plain ones, have any.
pub fn report_line(l: &JsonLayoutWidget, sliders: &Vec<serde_json::Value>, button: &String) -> (r:
    String)
    requires
        sliders@.len() == l.widgets@.len(),
    ensures
        r@ == written(report_of(l@, sliders@, button@)),
        !r@.contains('\n'),
        plain_sliders(l@, sliders@) ==> reads_as(r@, report_of(l@, sliders@, button@)),
        without_sliders(l@) ==> parsed(r@) == Some(report_of(l@, sliders@, button@)),
{
    let v = report(l, sliders, button);
    proof {
        if plain_sliders(l@, sliders@) {
            let n = l@.widgets.len() as int;
            lemma_section_flat(l@.widgets, sliders@, Section::Checkboxes, n);
            lemma_section_flat(l@.widgets, sliders@, Section::Spinboxes, n);
            lemma_section_flat(l@.widgets, sliders@, Section::Colors, n);
            lemma_section_flat(l@.widgets, sliders@, Section::Sliders, n);
            assert(is_shallow(report_of(l@, sliders@, button@)));
        }
    }
    let line = write_value(&v);
    proof {
        if without_sliders(l@) {
            lemma_report_exact(l@, sliders@, button@, parsed(line@)->0);
        }
    }
    line
}

/// A report names every checkbox, spin box and colour, under its id; an id that several
/// controls of a section share stands for the last of them.
pub proof fn law_report_names_controls(
    ws: Seq<WidgetModel>,
    sliders: Seq<serde_json::Value>,
    section: Section,
    n: int,
    i: int,
)
    requires
        0 <= i < n <= ws.len(),
        entry_of(ws[i], json_of(sliders[i]), section) is Some,
        forall|k: int|
            i < k < n && entry_of(ws[k], json_of(sliders[k]), section) is Some
                ==> #[trigger] ws[k].id != ws[i].id,
    ensures
        section_members(ws, sliders, section, n).contains_key(ws[i].id),
        Some(section_members(ws, sliders, section, n)[ws[i].id]) == entry_of(
            ws[i],
            json_of(sliders[i]),
            section,
        ),
    decreases n,
{
    if i < n - 1 {
        law_report_names_controls(ws, sliders, section, n - 1, i);
        assert(entry_of(ws[n - 1], json_of(sliders[n - 1]), section) is Some ==> ws[n - 1].id
            != ws[i].id);
    }
}

proof fn lemma_report_members(l: LayoutModel, sliders: Seq<serde_json::Value>, button: Seq<char>)
    ensures
        ({
            let m = report_of(l, sliders, button)->Object_0;
            &&& report_of(l, sliders, button) is Object
            &&& m.dom() =~= set![
                "button"@,
                "checkboxes"@,
                "spinboxes"@,
                "colors"@,
                "sliders"@,
            ]
            &&& m["button"@] == Json::Text(button)
            &&& m["checkboxes"@] == section_of(l, sliders, Section::Checkboxes)
            &&& m["spinboxes"@] == section_of(l, sliders, Section::Spinboxes)
            &&& m["colors"@] == section_of(l, sliders, Section::Colors)
            &&& m["sliders"@] == section_of(l, sliders, Section::Sliders)
        }),
{
    reveal_strlit("button");
    reveal_strlit("checkboxes");
    reveal_strlit("spinboxes");
    reveal_strlit("colors");
    reveal_strlit("sliders");
    assert("button"@[0] == 'b');
    assert("checkboxes"@.len() == 10);
    assert("spinboxes"@.len() == 9);
    assert("colors"@[0] == 'c');
    assert("button"@.len() == 6 && "colors"@.len() == 6);
    assert("sliders"@.len() == 7);
}

/// A report has five members: the button that was pressed, and an object for each kind of
/// control that has a state.
pub proof fn law_report_has_five_members(
    l: LayoutModel,
    sliders: Seq<serde_json::Value>,
    button: Seq<char>,
)
    ensures
        report_of(l, sliders, button) matches Json::Object(m) && {
            &&& m.dom() =~= set![
                "button"@,
                "checkboxes"@,
                "spinboxes"@,
                "colors"@,
                "sliders"@,
            ]
            &&& m["button"@] == Json::Text(button)
            &&& m["checkboxes"@] is Object
            &&& m["spinboxes"@] is Object
            &&& m["colors"@] is Object
            &&& m["sliders"@] is Object
        },
{
    lemma_report_members(l, sliders, button);
}

proof fn lemma_section_at(
    ws: Seq<WidgetModel>,
    sliders: Seq<serde_json::Value>,
    section: Section,
    n: int,
    i: int,
)
    requires
        0 <= i < n <= ws.len(),
        entry_of(ws[i], json_of(sliders[i]), section) is Some,
        forall|k: int|
            #![trigger ws[k]]
            i < k < n && entry_of(ws[k], json_of(sliders[k]), section) is Some ==> ws[k].id
                != ws[i].id,
    ensures
        section_members(ws, sliders, section, n).contains_key(ws[i].id),
        Some(section_members(ws, sliders, section, n)[ws[i].id]) == entry_of(
            ws[i],
            json_of(sliders[i]),
            section,
        ),
    decreases n,
{
    if i < n - 1 {
        lemma_section_at(ws, sliders, section, n - 1, i);
        assert(ws[n - 1].id == ws[n - 1].id);
    }
}

/// Every control of every page stands in the report, whatever page is active: a checkbox with
/// whether it is checked, a spin box with its value, a colour with its three parts, a slider
/// with its value, each under its id. Of controls of one kind with one id the last counts.
pub proof fn law_report_holds_every_control(
    l: LayoutModel,
    sliders: Seq<serde_json::Value>,
    button: Seq<char>,
    i: int,
)
    requires
        0 <= i < l.widgets.len(),
    ensures
        ({
            let m = report_of(l, sliders, button)->Object_0;
            let id = l.widgets[i].id;
            match l.widgets[i].control {
                JsonControl::Checkbox { checked, .. } => (forall|k: int|
                    #![trigger l.widgets[k]]
                    i < k < l.widgets.len() && l.widgets[k].control is Checkbox
                        ==> l.widgets[k].id != id) ==> (m["checkboxes"@]->Object_0).contains_key(
                    id,
                ) && (m["checkboxes"@]->Object_0)[id] == Json::Bool(checked),
                JsonControl::Spinbox { value, .. } => (forall|k: int|
                    #![trigger l.widgets[k]]
                    i < k < l.widgets.len() && l.widgets[k].control is Spinbox ==> l.widgets[k].id
                        != id) ==> (m["spinboxes"@]->Object_0).contains_key(id) && (
                m["spinboxes"@]->Object_0)[id] == Json::Int(value as int),
                JsonControl::Color { color } => (forall|k: int|
                    #![trigger l.widgets[k]]
                    i < k < l.widgets.len() && l.widgets[k].control is Color ==> l.widgets[k].id
                        != id) ==> (m["colors"@]->Object_0).contains_key(id) && (
                m["colors"@]->Object_0)[id] == Json::List(
                    seq![
                        Json::Int(color.r as int),
                        Json::Int(color.g as int),
                        Json::Int(color.b as int),
                    ],
                ),
                JsonControl::Slider { .. } => (forall|k: int|
                    #![trigger l.widgets[k]]
                    i < k < l.widgets.len() && l.widgets[k].control is Slider ==> l.widgets[k].id
                        != id) ==> (m["sliders"@]->Object_0).contains_key(id) && (
                m["sliders"@]->Object_0)[id] == json_of(sliders[i]),
                _ => true,
            }
        }),
{
    lemma_report_members(l, sliders, button);
    let ws = l.widgets;
    let n = ws.len() as int;
    let id = ws[i].id;
    match ws[i].control {
        JsonControl::Checkbox { .. } => {
            if forall|k: int|
                #![trigger l.widgets[k]]
                i < k < n && l.widgets[k].control is Checkbox ==> l.widgets[k].id != id {
                lemma_section_at(ws, sliders, Section::Checkboxes, n, i);
            }
        },
        JsonControl::Spinbox { .. } => {
            if forall|k: int|
                #![trigger l.widgets[k]]
                i < k < n && l.widgets[k].control is Spinbox ==> l.widgets[k].id != id {
                lemma_section_at(ws, sliders, Section::Spinboxes, n, i);
            }
        },
        JsonControl::Color { color } => {
            if forall|k: int|
                #![trigger l.widgets[k]]
                i < k < n && l.widgets[k].control is Color ==> l.widgets[k].id != id {
                lemma_section_at(ws, sliders, Section::Colors, n, i);
                assert(json_bytes(seq![color.r, color.g, color.b]) =~= seq![
                    Json::Int(color.r as int),
                    Json::Int(color.g as int),
                    Json::Int(color.b as int),
                ]);
            }
        },
        JsonControl::Slider { .. } => {
            if forall|k: int|
                #![trigger l.widgets[k]]
                i < k < n && l.widgets[k].control is Slider ==> l.widgets[k].id != id {
                lemma_section_at(ws, sliders, Section::Sliders, n, i);
            }
        },
        _ => {},
    }
}

proof fn lemma_section_source(
    ws: Seq<WidgetModel>,
    sliders: Seq<serde_json::Value>,
    section: Section,
    n: int,
    id: Seq<char>,
) -> (i: int)
    requires
        0 <= n <= ws.len(),
        section_members(ws, sliders, section, n).contains_key(id),
    ensures
        0 <= i < n,
        ws[i].id == id,
        entry_of(ws[i], json_of(sliders[i]), section) is Some,
    decreases n,
{
    if entry_of(ws[n - 1], json_of(sliders[n - 1]), section) is Some && ws[n - 1].id == id {
        n - 1
    } else {
        lemma_section_source(ws, sliders, section, n - 1, id)
    }
}

/// What stands in a section of a report is a control of that kind.
pub proof fn law_report_holds_nothing_else(
    l: LayoutModel,
    sliders: Seq<serde_json::Value>,
    button: Seq<char>,
    id: Seq<char>,
)
    ensures
        ({
            let m = report_of(l, sliders, button)->Object_0;
            &&& (m["checkboxes"@]->Object_0).contains_key(id) ==> exists|i: int|
                0 <= i < l.widgets.len() && (#[trigger] l.widgets[i]).id == id
                    && l.widgets[i].control is Checkbox
            &&& (m["spinboxes"@]->Object_0).contains_key(id) ==> exists|i: int|
                0 <= i < l.widgets.len() && (#[trigger] l.widgets[i]).id == id
                    && l.widgets[i].control is Spinbox
            &&& (m["colors"@]->Object_0).contains_key(id) ==> exists|i: int|
                0 <= i < l.widgets.len() && (#[trigger] l.widgets[i]).id == id
                    && l.widgets[i].control is Color
            &&& (m["sliders"@]->Object_0).contains_key(id) ==> exists|i: int|
                0 <= i < l.widgets.len() && (#[trigger] l.widgets[i]).id == id
                    && l.widgets[i].control is Slider
        }),
{
    lemma_report_members(l, sliders, button);
    let ws = l.widgets;
    let n = ws.len() as int;
    if section_members(ws, sliders, Section::Checkboxes, n).contains_key(id) {
        let i = lemma_section_source(ws, sliders, Section::Checkboxes, n, id);
        assert(ws[i].control is Checkbox);
    }
    if section_members(ws, sliders, Section::Spinboxes, n).contains_key(id) {
        let i = lemma_section_source(ws, sliders, Section::Spinboxes, n, id);
        assert(ws[i].control is Spinbox);
    }
    if section_members(ws, sliders, Section::Colors, n).contains_key(id) {
        let i = lemma_section_source(ws, sliders, Section::Colors, n, id);
        assert(ws[i].control is Color);
    }
    if section_members(ws, sliders, Section::Sliders, n).contains_key(id) {
        let i = lemma_section_source(ws, sliders, Section::Sliders, n, id);
        assert(ws[i].control is Slider);
    }
}

} // verus!
