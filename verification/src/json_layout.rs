//! A page of controls described in JSON: its construction and its layout.

use vstd::prelude::*;
use vstd::string::StringExecFns;
use crate::geometry::LabelModel;
use crate::geometry::Rect;
use crate::geometry::Rgb;
use crate::geometry::TextLabel;
use crate::geometry::PX;
use crate::number::decimal;
use crate::number::to_decimal;
use crate::text::copy_opt;
use crate::text::opt_text;
use crate::text::owned;
use crate::text::same_text;

verus! {

/// How many pages can be laid out.
pub const PAGES: usize = 16;

/// The margin at each side, and above the first row.
pub const MARGIN: i128 = 16384;

/// The gap between rows.
pub const GAP: i128 = 12288;

/// The room below the last gap.
pub const TAIL: i128 = 4096;

/// How a control places its text.
#[derive(Clone, Copy, Debug, PartialEq, Eq, Structural)]
pub enum Justification {
    Left,
    Center,
    Right,
}

/// The description of a control.
#[derive(Debug)]
pub struct JsonWidgetConfig {
    pub widget_type: String,
    pub text: String,
    pub id: Option<String>,
    pub checked: Option<bool>,
    pub value: Option<i32>,
    pub min: Option<i32>,
    pub max: Option<i32>,
    pub step: Option<i32>,
    pub decimals: Option<u32>,
    pub color: Option<Rgb>,
    /// The value of a slider, as the bits of a single-precision number.
    pub value_f32: Option<u32>,
    /// The lower end of a slider, as the bits of a single-precision number.
    pub min_f32: Option<u32>,
    /// The upper end of a slider, as the bits of a single-precision number.
    pub max_f32: Option<u32>,
    pub target_page: Option<usize>,
}

/// The description of a page.
#[derive(Debug)]
pub struct JsonPageConfig {
    pub title: String,
    pub widgets: Vec<JsonWidgetConfig>,
    pub justify: Option<Justification>,
}

/// The description of a layout: pages, or the controls of a single one.
#[derive(Debug)]
pub struct JsonLayoutConfig {
    pub width: Option<u32>,
    pub height: Option<u32>,
    pub widgets: Option<Vec<JsonWidgetConfig>>,
    pub pages: Option<Vec<JsonPageConfig>>,
    pub justify: Option<Justification>,
}

/// What kind of control a name stands for.
#[derive(Clone, Copy, Debug, PartialEq, Eq, Structural)]
pub enum Kind {
    Checkbox,
    Button,
    Label,
    Spinbox,
    Color,
    Slider,
    /// Every other name.
    Other,
}

/// What kind of control a name stands for.
pub open spec fn kind_of(name: Seq<char>) -> Kind {
    if name == "checkbox"@ {
        Kind::Checkbox
    } else if name == "button"@ {
        Kind::Button
    } else if name == "label"@ {
        Kind::Label
    } else if name == "spinbox"@ {
        Kind::Spinbox
    } else if name == "color"@ || name == "rgb"@ || name == "rgba"@ {
        Kind::Color
    } else if name == "slider"@ {
        Kind::Slider
    } else {
        Kind::Other
    }
}

/// What kind of control a name stands for.
pub fn find_kind(name: &str) -> (r: Kind)
    ensures
        r == kind_of(name@),
{
    if same_text(name, "checkbox") {
        Kind::Checkbox
    } else if same_text(name, "button") {
        Kind::Button
    } else if same_text(name, "label") {
        Kind::Label
    } else if same_text(name, "spinbox") {
        Kind::Spinbox
    } else if same_text(name, "color") || same_text(name, "rgb") || same_text(name, "rgba") {
        Kind::Color
    } else if same_text(name, "slider") {
        Kind::Slider
    } else {
        Kind::Other
    }
}

/// The state of a control.
#[derive(Clone, Copy, Debug, PartialEq, Eq, Structural)]
pub enum JsonControl {
    Label,
    Checkbox { checked: bool, hovered: bool },
    /// A menu row has a label, and places it as `justify` says; another button has neither.
    /// `clicked` stays set until somebody takes the click.
    Button { menu_row: bool, justify: Justification, clicked: bool },
    Spinbox { value: i32, min: i32, max: i32, step: i32, decimals: Option<u32> },
    Color { color: Rgb },
    /// The ends and the first value, as the bits of single-precision numbers.
    Slider { low_bits: u32, high_bits: u32, value_bits: Option<u32> },
}

/// The bits of the single-precision number one.
pub const ONE_BITS: u32 = 0x3f80_0000;

/// A value, or another where there is none.
pub open spec fn or_else<T>(v: Option<T>, other: T) -> T {
    match v {
        Some(x) => x,
        None => other,
    }
}

/// The control that a description asks for.
pub open spec fn control_of(c: JsonWidgetConfig, justify: Justification) -> JsonControl {
    match kind_of(c.widget_type@) {
        Kind::Checkbox => JsonControl::Checkbox {
            checked: or_else(c.checked, false),
            hovered: false,
        },
        Kind::Button => JsonControl::Button { menu_row: true, justify, clicked: false },
        Kind::Label => JsonControl::Label,
        Kind::Spinbox => JsonControl::Spinbox {
            value: or_else(c.value, 0i32),
            min: or_else(c.min, 0i32),
            max: or_else(c.max, 100i32),
            step: or_else(c.step, 1i32),
            decimals: c.decimals,
        },
        Kind::Color => JsonControl::Color {
            color: or_else(c.color, Rgb { r: 255, g: 255, b: 255 }),
        },
        Kind::Slider => JsonControl::Slider {
            low_bits: or_else(c.min_f32, 0u32),
            high_bits: or_else(c.max_f32, ONE_BITS),
            value_bits: c.value_f32,
        },
        Kind::Other => JsonControl::Button {
            menu_row: false,
            justify: Justification::Center,
            clicked: false,
        },
    }
}

fn make_control(c: &JsonWidgetConfig, justify: Justification) -> (r: JsonControl)
    ensures
        r == control_of(*c, justify),
{
    match find_kind(c.widget_type.as_str()) {
        Kind::Checkbox => JsonControl::Checkbox {
            checked: match c.checked {
                Some(b) => b,
                None => false,
            },
            hovered: false,
        },
        Kind::Button => JsonControl::Button { menu_row: true, justify, clicked: false },
        Kind::Label => JsonControl::Label,
        Kind::Spinbox => JsonControl::Spinbox {
            value: match c.value {
                Some(n) => n,
                None => 0,
            },
            min: match c.min {
                Some(n) => n,
                None => 0,
            },
            max: match c.max {
                Some(n) => n,
                None => 100,
            },
            step: match c.step {
                Some(n) => n,
                None => 1,
            },
            decimals: c.decimals,
        },
        Kind::Color => JsonControl::Color {
            color: match c.color {
                Some(color) => color,
                None => Rgb { r: 255, g: 255, b: 255 },
            },
        },
        Kind::Slider => JsonControl::Slider {
            low_bits: match c.min_f32 {
                Some(n) => n,
                None => 0,
            },
            high_bits: match c.max_f32 {
                Some(n) => n,
                None => ONE_BITS,
            },
            value_bits: c.value_f32,
        },
        Kind::Other => JsonControl::Button {
            menu_row: false,
            justify: Justification::Center,
            clicked: false,
        },
    }
}

impl JsonControl {
    /// Whether a click waits to be taken.
    pub open spec fn has_click(self) -> bool {
        match self {
            JsonControl::Button { clicked, .. } => clicked,
            _ => false,
        }
    }

    /// The control without a click that waits.
    pub open spec fn drained(self) -> JsonControl {
        match self {
            JsonControl::Button { menu_row, justify, .. } => JsonControl::Button {
                menu_row,
                justify,
                clicked: false,
            },
            _ => self,
        }
    }

    /// The control after somebody has perhaps clicked it. Only a button keeps a click.
    pub open spec fn latched(self, click: bool) -> JsonControl {
        match self {
            JsonControl::Button { menu_row, justify, clicked } => JsonControl::Button {
                menu_row,
                justify,
                clicked: clicked || click,
            },
            _ => self,
        }
    }

    /// Takes the click that waits. Only a button has one, and it is taken once.
    pub fn take_click(&mut self) -> (r: bool)
        ensures
            r == old(self).has_click(),
            *final(self) == old(self).drained(),
    {
        match *self {
            JsonControl::Button { menu_row, justify, clicked } => {
                *self = JsonControl::Button { menu_row, justify, clicked: false };
                clicked
            },
            _ => false,
        }
    }

    /// Notes a click.
    pub fn latch(&mut self, click: bool)
        ensures
            *final(self) == old(self).latched(click),
    {
        match *self {
            JsonControl::Button { menu_row, justify, clicked } => {
                *self = JsonControl::Button { menu_row, justify, clicked: clicked || click };
            },
            _ => {},
        }
    }
}

/// A click is taken once.
pub proof fn law_click_taken_once(c: JsonControl)
    ensures
        !c.drained().has_click(),
        c.drained().drained() == c.drained(),
        c is Button ==> c.latched(true).has_click(),
{
}

/// A control of a layout.
#[derive(Debug)]
pub struct JsonWidget {
    pub id: String,
    pub widget_type: String,
    pub text: String,
    pub widget: JsonControl,
    pub x: i128,
    pub y: i128,
    pub w: i128,
    pub h: i128,
    pub label_text: Option<TextLabel>,
    pub page_idx: usize,
    pub target_page: Option<usize>,
}

/// A control of a layout, in a specification.
#[verifier::ext_equal]
pub struct WidgetModel {
    pub id: Seq<char>,
    pub widget_type: Seq<char>,
    pub text: Seq<char>,
    pub control: JsonControl,
    pub x: int,
    pub y: int,
    pub w: int,
    pub h: int,
    pub label: Option<LabelModel>,
    pub page: int,
    pub target: Option<usize>,
}

impl WidgetModel {
    /// What kind of control this is.
    pub open spec fn kind(self) -> Kind {
        kind_of(self.widget_type)
    }

    /// Whether a point lies in the row of the control, its edges included.
    pub open spec fn hit(self, px: int, py: int) -> bool {
        self.x <= px <= self.x + self.w && self.y <= py <= self.y + self.h
    }
}

impl View for JsonWidget {
    type V = WidgetModel;

    open spec fn view(&self) -> WidgetModel {
        WidgetModel {
            id: self.id@,
            widget_type: self.widget_type@,
            text: self.text@,
            control: self.widget,
            x: self.x as int,
            y: self.y as int,
            w: self.w as int,
            h: self.h as int,
            label: match self.label_text {
                Some(l) => Some(l@),
                None => None,
            },
            page: self.page_idx as int,
            target: self.target_page,
        }
    }
}

/// The models of a list of controls.
pub open spec fn widget_models(v: Seq<JsonWidget>) -> Seq<WidgetModel> {
    v.map_values(|w: JsonWidget| w@)
}

/// The sizes that only the controls themselves know.
#[derive(Debug)]
pub struct Metrics {
    /// The room that each control needs for a label above it.
    pub label_strips: Vec<u32>,
    pub spinbox_height: u32,
    pub color_height: u32,
}

/// A layout.
#[derive(Debug)]
pub struct JsonLayoutWidget {
    pub x: i64,
    pub y: i64,
    pub w: i64,
    pub h: i64,
    pub widgets: Vec<JsonWidget>,
    pub dragging_slider_idx: Option<usize>,
    /// How far each page is scrolled, as it is drawn.
    pub page_scroll_y: Vec<i64>,
    pub page_total_heights: Vec<i128>,
    pub active_page: usize,
}

/// A layout, in a specification.
#[verifier::ext_equal]
pub struct LayoutModel {
    pub x: int,
    pub y: int,
    pub w: int,
    pub h: int,
    pub widgets: Seq<WidgetModel>,
    pub dragging: Option<usize>,
    pub scroll: Seq<int>,
    pub totals: Seq<int>,
    pub active: int,
}

/// The whole numbers in a list of 64-bit numbers.
pub open spec fn ints64(v: Seq<i64>) -> Seq<int> {
    v.map_values(|n: i64| n as int)
}

/// The whole numbers in a list of 128-bit numbers.
pub open spec fn ints128(v: Seq<i128>) -> Seq<int> {
    v.map_values(|n: i128| n as int)
}

impl View for JsonLayoutWidget {
    type V = LayoutModel;

    open spec fn view(&self) -> LayoutModel {
        LayoutModel {
            x: self.x as int,
            y: self.y as int,
            w: self.w as int,
            h: self.h as int,
            widgets: widget_models(self.widgets@),
            dragging: self.dragging_slider_idx,
            scroll: ints64(self.page_scroll_y@),
            totals: ints128(self.page_total_heights@),
            active: self.active_page as int,
        }
    }
}

// ---------------------------------------------------------------------------------------
// Construction
// ---------------------------------------------------------------------------------------

/// The id of a control without one, on a page of several.
pub open spec fn page_id(page: int, idx: int) -> Seq<char> {
    "widget_"@ + decimal(page as nat) + "_"@ + decimal(idx as nat)
}

/// The id of a control without one, on the only page.
pub open spec fn plain_id(idx: int) -> Seq<char> {
    "widget_"@ + decimal(idx as nat)
}

/// A control as a description asks for it, before it is laid out.
pub open spec fn fresh(
    c: JsonWidgetConfig,
    fallback: Seq<char>,
    page: int,
    justify: Justification,
) -> WidgetModel {
    WidgetModel {
        id: or_else(opt_text(c.id), fallback),
        widget_type: c.widget_type@,
        text: c.text@,
        control: control_of(c, justify),
        x: 0,
        y: 0,
        w: 0,
        h: 0,
        label: None,
        page,
        target: c.target_page,
    }
}

/// The controls of a page.
pub open spec fn page_controls(p: JsonPageConfig, page: int) -> Seq<WidgetModel> {
    Seq::new(
        p.widgets@.len(),
        |i: int|
            fresh(
                p.widgets@[i],
                page_id(page, i),
                page,
                or_else(p.justify, Justification::Center),
            ),
    )
}

/// The controls of all pages, page by page.
pub open spec fn pages_controls(pages: Seq<JsonPageConfig>) -> Seq<WidgetModel>
    decreases pages.len(),
{
    if pages.len() == 0 {
        Seq::empty()
    } else {
        pages_controls(pages.drop_last()) + page_controls(pages.last(), pages.len() - 1)
    }
}

/// The controls of the only page.
pub open spec fn plain_controls(v: Seq<JsonWidgetConfig>, justify: Justification) -> Seq<WidgetModel> {
    Seq::new(v.len(), |i: int| fresh(v[i], plain_id(i), 0, justify))
}

/// The controls that a description asks for. Pages go before the controls of a single one.
pub open spec fn controls_of(c: JsonLayoutConfig) -> Seq<WidgetModel> {
    match c.pages {
        Some(pages) => pages_controls(pages@),
        None => match c.widgets {
            Some(v) => plain_controls(v@, or_else(c.justify, Justification::Center)),
            None => Seq::empty(),
        },
    }
}

proof fn lemma_pages_unplaced(pages: Seq<JsonPageConfig>, i: int)
    requires
        0 <= i < pages_controls(pages).len(),
    ensures
        pages_controls(pages)[i].y == 0,
        pages_controls(pages)[i].h == 0,
    decreases pages.len(),
{
    if pages.len() > 0 && i < pages_controls(pages.drop_last()).len() {
        lemma_pages_unplaced(pages.drop_last(), i);
    }
}

fn make_widget(c: &JsonWidgetConfig, fallback: String, page: usize, justify: Justification) -> (r:
    JsonWidget)
    ensures
        r@ == fresh(*c, fallback@, page as int, justify),
{
    let id = match copy_opt(&c.id) {
        Some(id) => id,
        None => fallback,
    };
    JsonWidget {
        id,
        widget_type: c.widget_type.clone(),
        text: c.text.clone(),
        widget: make_control(c, justify),
        x: 0,
        y: 0,
        w: 0,
        h: 0,
        label_text: None,
        page_idx: page,
        target_page: c.target_page,
    }
}

fn make_page_id(page: usize, idx: usize) -> (r: String)
    ensures
        r@ == page_id(page as int, idx as int),
{
    let mut s = owned("widget_");
    let p = to_decimal(page as u64);
    let i = to_decimal(idx as u64);
    s.append(p.as_str());
    s.append("_");
    s.append(i.as_str());
    s
}

fn make_plain_id(idx: usize) -> (r: String)
    ensures
        r@ == plain_id(idx as int),
{
    let mut s = owned("widget_");
    let i = to_decimal(idx as u64);
    s.append(i.as_str());
    s
}

fn choose_justify(j: Option<Justification>) -> (r: Justification)
    ensures
        r == or_else(j, Justification::Center),
{
    match j {
        Some(j) => j,
        None => Justification::Center,
    }
}

fn make_pages(pages: &Vec<JsonPageConfig>) -> (r: Vec<JsonWidget>)
    ensures
        widget_models(r@) == pages_controls(pages@),
{
    let mut out: Vec<JsonWidget> = Vec::new();
    let mut p: usize = 0;
    proof {
        assert(widget_models(out@) =~= pages_controls(pages@.take(0)));
    }
    while p < pages.len()
        invariant
            p <= pages@.len(),
            widget_models(out@) == pages_controls(pages@.take(p as int)),
        decreases pages@.len() - p,
    {
        let justify = choose_justify(pages[p].justify);
        let ghost done = widget_models(out@);
        let ghost here = page_controls(pages@[p as int], p as int);
        let mut i: usize = 0;
        proof {
            assert(done + here.take(0) =~= done);
        }
        while i < pages[p].widgets.len()
            invariant
                p < pages@.len(),
                i <= pages@[p as int].widgets@.len(),
                justify == or_else(pages@[p as int].justify, Justification::Center),
                here == page_controls(pages@[p as int], p as int),
                widget_models(out@) == done + here.take(i as int),
            decreases pages@[p as int].widgets@.len() - i,
        {
            let id = make_page_id(p, i);
            let w = make_widget(&pages[p].widgets[i], id, p, justify);
            out.push(w);
            proof {
                assert(widget_models(out@) =~= (done + here.take(i as int)).push(w@));
                assert((done + here.take(i as int)).push(here[i as int]) =~= done + here.take(
                    i + 1,
                ));
            }
            i += 1;
        }
        proof {
            assert(here.take(i as int) =~= here);
            assert(pages@.take(p + 1).drop_last() =~= pages@.take(p as int));
            assert(pages@.take(p + 1).last() == pages@[p as int]);
        }
        p += 1;
    }
    proof {
        assert(pages@.take(p as int) =~= pages@);
    }
    out
}

fn make_plain(v: &Vec<JsonWidgetConfig>, justify: Justification) -> (r: Vec<JsonWidget>)
    ensures
        widget_models(r@) == plain_controls(v@, justify),
{
    let mut out: Vec<JsonWidget> = Vec::new();
    let ghost all = plain_controls(v@, justify);
    let mut i: usize = 0;
    while i < v.len()
        invariant
            i <= v@.len(),
            all == plain_controls(v@, justify),
            widget_models(out@) =~= all.take(i as int),
        decreases v@.len() - i,
    {
        let id = make_plain_id(i);
        let w = make_widget(&v[i], id, 0, justify);
        out.push(w);
        proof {
            assert(widget_models(out@) =~= all.take(i as int).push(w@));
        }
        i += 1;
    }
    proof {
        assert(all.take(i as int) =~= all);
    }
    out
}

/// A bound on heights that no page comes near.
pub const HEIGHT_LIMIT: i128 = 0x100_0000_0000_0000_0000_0000_0000;

/// A bound on the places and the heights of rows that none comes near.
pub const ROW_LIMIT: i128 = 0x1000_0000_0000_0000_0000_0000_0000;

/// A number for each page.
pub open spec fn per_page(n: int) -> Seq<int> {
    Seq::new(PAGES as nat, |i: int| n)
}

impl JsonLayoutWidget {
    /// There is a scroll offset and a height for each page, and no height and no row is out
    /// of bounds.
    pub open spec fn wf(&self) -> bool {
        &&& self.page_scroll_y@.len() == PAGES
        &&& self.page_total_heights@.len() == PAGES
        &&& forall|p: int|
            0 <= p < PAGES ==> 0 <= #[trigger] self.page_total_heights@[p] < HEIGHT_LIMIT
        &&& forall|i: int|
            #![trigger self.widgets@[i]]
            0 <= i < self.widgets@.len() ==> {
                &&& -ROW_LIMIT < self.widgets@[i].y < ROW_LIMIT
                &&& -ROW_LIMIT < self.widgets@[i].h < ROW_LIMIT
            }
    }

    /// The layout that a description asks for, before it has an area.
    pub fn new(config: &JsonLayoutConfig) -> (r: JsonLayoutWidget)
        ensures
            r.wf(),
            r@ == (LayoutModel {
                x: 0,
                y: 0,
                w: 0,
                h: 0,
                widgets: controls_of(*config),
                dragging: None,
                scroll: per_page(0),
                totals: per_page(0),
                active: 0,
            }),
    {
        let widgets = match &config.pages {
            Some(pages) => make_pages(pages),
            None => match &config.widgets {
                Some(v) => make_plain(v, choose_justify(config.justify)),
                None => Vec::new(),
            },
        };
        let page_scroll_y: Vec<i64> = vec![0; PAGES];
        let page_total_heights: Vec<i128> = vec![0; PAGES];
        proof {
            assert(ints64(page_scroll_y@) =~= per_page(0));
            assert(ints128(page_total_heights@) =~= per_page(0));
            if config.pages is None && config.widgets is None {
                assert(widget_models(widgets@) =~= Seq::<WidgetModel>::empty());
            }
            let models = widget_models(widgets@);
            assert forall|i: int| 0 <= i < widgets@.len() implies (#[trigger] widgets@[i]).y == 0
                && widgets@[i].h == 0 by {
                assert(models[i] == widgets@[i]@);
                assert(models == controls_of(*config));
                if config.pages is Some {
                    lemma_pages_unplaced(config.pages->0@, i);
                } else if config.widgets is Some {
                    let v = config.widgets->0@;
                    let justify = or_else(config.justify, Justification::Center);
                    assert(models.len() == plain_controls(v, justify).len());
                    assert(plain_controls(v, justify)[i] == fresh(v[i], plain_id(i), 0, justify));
                }
            }
        }
        JsonLayoutWidget {
            x: 0,
            y: 0,
            w: 0,
            h: 0,
            widgets,
            dragging_slider_idx: None,
            page_scroll_y,
            page_total_heights,
            active_page: 0,
        }
    }
}

// ---------------------------------------------------------------------------------------
// Layout
// ---------------------------------------------------------------------------------------

/// The height of the row of a control.
pub open spec fn row_height(kind: Kind, strip: int, m: Metrics) -> int {
    match kind {
        Kind::Checkbox => 22 * PX,
        Kind::Button => 24 * PX + strip,
        Kind::Label => 18 * PX + strip,
        Kind::Spinbox => m.spinbox_height + strip,
        Kind::Color => m.color_height + strip,
        Kind::Slider => 22 * PX + strip,
        Kind::Other => 24 * PX,
    }
}

/// Whether a control and the next one are buttons of one page: such rows butt together.
pub open spec fn run_continues(ws: Seq<WidgetModel>, i: int) -> bool {
    &&& ws[i].kind() == Kind::Button
    &&& i + 1 < ws.len()
    &&& ws[i + 1].page == ws[i].page
    &&& ws[i + 1].kind() == Kind::Button
}

/// The height of a row and of the gap below it.
pub open spec fn row_step(ws: Seq<WidgetModel>, m: Metrics, i: int) -> int {
    row_height(ws[i].kind(), m.label_strips@[i] as int, m) + if run_continues(ws, i) {
        0
    } else {
        GAP as int
    }
}

/// Where the next row of a page begins after the first `n` controls, below the top of the
/// page.
pub open spec fn page_end(ws: Seq<WidgetModel>, m: Metrics, n: int, page: int) -> int
    decreases n,
{
    if n <= 0 {
        MARGIN as int
    } else {
        page_end(ws, m, n - 1, page) + if ws[n - 1].page == page {
            row_step(ws, m, n - 1)
        } else {
            0
        }
    }
}

/// The text beside a checkbox.
pub open spec fn side_label(w: WidgetModel) -> LabelModel {
    LabelModel {
        text: w.text,
        x: w.x + 28 * PX,
        y: w.y + 2 * PX,
        font_size: 13 * PX,
        color: Rgb { r: 0xcc, g: 0xcc, b: 0xd4 },
    }
}

/// A control in a row of its page that begins at `top` below the top of the page.
pub open spec fn moved_to(l: LayoutModel, i: int, top: int, height: int) -> WidgetModel {
    let w = l.widgets[i];
    let at = WidgetModel {
        x: l.x + MARGIN,
        y: l.y + top - l.scroll[w.page],
        w: l.w - 2 * MARGIN,
        h: height,
        ..w
    };
    if w.kind() == Kind::Checkbox {
        WidgetModel { label: Some(side_label(at)), ..at }
    } else {
        at
    }
}

/// A control in its place. What is on a page too many stays where it is.
pub open spec fn placed(l: LayoutModel, m: Metrics, i: int) -> WidgetModel {
    let w = l.widgets[i];
    if w.page >= PAGES {
        w
    } else {
        moved_to(
            l,
            i,
            page_end(l.widgets, m, i, w.page),
            row_height(w.kind(), m.label_strips@[i] as int, m),
        )
    }
}

/// The layout with every control in its place and with the heights of the pages.
pub open spec fn laid_out(l: LayoutModel, m: Metrics) -> LayoutModel {
    LayoutModel {
        widgets: Seq::new(l.widgets.len(), |i: int| placed(l, m, i)),
        totals: Seq::new(
            PAGES as nat,
            |p: int| page_end(l.widgets, m, l.widgets.len() as int, p) + TAIL,
        ),
        ..l
    }
}

/// No row and gap is higher than this.
const STEP_LIMIT: i128 = 0x4_0000_0000;

fn find_height(kind: Kind, strip: u32, m: &Metrics) -> (r: i128)
    ensures
        r == row_height(kind, strip as int, *m),
        0 <= r < STEP_LIMIT - GAP,
{
    match kind {
        Kind::Checkbox => 22 * PX,
        Kind::Button => 24 * PX + strip as i128,
        Kind::Label => 18 * PX + strip as i128,
        Kind::Spinbox => m.spinbox_height as i128 + strip as i128,
        Kind::Color => m.color_height as i128 + strip as i128,
        Kind::Slider => 22 * PX + strip as i128,
        Kind::Other => 24 * PX,
    }
}

impl JsonLayoutWidget {
    fn find_run_continues(&self, i: usize) -> (r: bool)
        requires
            i < self.widgets@.len(),
        ensures
            r == run_continues(self@.widgets, i as int),
    {
        if find_kind(self.widgets[i].widget_type.as_str()) == Kind::Button {
            if i < self.widgets.len() - 1 {
                self.widgets[i + 1].page_idx == self.widgets[i].page_idx && find_kind(
                    self.widgets[i + 1].widget_type.as_str(),
                ) == Kind::Button
            } else {
                false
            }
        } else {
            false
        }
    }

    fn place(&mut self, i: usize, kind: Kind, top: i128, height: i128)
        requires
            i < old(self).widgets@.len(),
            old(self).wf(),
            old(self).widgets@[i as int].page_idx < PAGES,
            kind == old(self)@.widgets[i as int].kind(),
            0 <= top < HEIGHT_LIMIT,
            0 <= height < STEP_LIMIT,
        ensures
            final(self).wf(),
            final(self).widgets@.len() == old(self).widgets@.len(),
            final(self)@ == (LayoutModel {
                widgets: old(self)@.widgets.update(
                    i as int,
                    moved_to(old(self)@, i as int, top as int, height as int),
                ),
                ..old(self)@
            }),
    {
        let ghost before = self@.widgets;
        let page = self.widgets[i].page_idx;
        let x: i128 = self.x as i128 + MARGIN;
        let y: i128 = self.y as i128 + top - self.page_scroll_y[page] as i128;
        let w: i128 = self.w as i128 - 2 * MARGIN;
        let id = self.widgets[i].id.clone();
        let widget_type = self.widgets[i].widget_type.clone();
        let text = self.widgets[i].text.clone();
        let label_text = if kind == Kind::Checkbox {
            Some(
                TextLabel {
                    text: self.widgets[i].text.clone(),
                    x: x + 28 * PX,
                    y: y + 2 * PX,
                    font_size: 13 * PX,
                    color: Rgb { r: 0xcc, g: 0xcc, b: 0xd4 },
                },
            )
        } else {
            match &self.widgets[i].label_text {
                Some(l) => Some(l.clone()),
                None => None,
            }
        };
        let moved = JsonWidget {
            id,
            widget_type,
            text,
            widget: self.widgets[i].widget,
            x,
            y,
            w,
            h: height,
            label_text,
            page_idx: page,
            target_page: self.widgets[i].target_page,
        };
        self.widgets.set(i, moved);
        proof {
            assert(self@.widgets =~= before.update(i as int, moved@));
        }
    }

    /// Puts every control in its place and finds the height of every page.
    pub fn layout_children(&mut self, m: &Metrics)
        requires
            old(self).wf(),
            m.label_strips@.len() == old(self).widgets@.len(),
        ensures
            final(self).wf(),
            final(self).widgets@.len() == old(self).widgets@.len(),
            final(self)@ == laid_out(old(self)@, *m),
    {
        let ghost l = self@;
        let ghost ws = l.widgets;
        let n = self.widgets.len();
        let mut ends: Vec<i128> = vec![MARGIN; PAGES];
        let mut i: usize = 0;
        while i < n
            invariant
                i <= n,
                n == self.widgets@.len(),
                n == ws.len(),
                self.wf(),
                m.label_strips@.len() == n,
                ws == l.widgets,
                ends@.len() == PAGES,
                forall|p: int|
                    0 <= p < PAGES ==> #[trigger] ends@[p] == page_end(ws, *m, i as int, p),
                forall|p: int|
                    0 <= p < PAGES ==> 0 <= #[trigger] ends@[p] <= MARGIN + i * STEP_LIMIT,
                self@ == (LayoutModel { widgets: self@.widgets, ..l }),
                forall|k: int| 0 <= k < i ==> #[trigger] self@.widgets[k] == placed(l, *m, k),
                forall|k: int| i <= k < n ==> #[trigger] self@.widgets[k] == ws[k],
            decreases n - i,
        {
            let p = self.widgets[i].page_idx;
            proof {
                assert(self@.widgets[i as int] == ws[i as int]);
            }
            if p < PAGES {
                let kind = find_kind(self.widgets[i].widget_type.as_str());
                let more = self.find_run_continues(i);
                proof {
                    assert(i + 1 < n ==> self@.widgets[i + 1] == ws[i + 1]);
                    assert(more == run_continues(ws, i as int));
                    assert(0 <= ends@[p as int] <= MARGIN + i * STEP_LIMIT);
                    assert(i * STEP_LIMIT <= 0xffff_ffff_ffff_ffff * STEP_LIMIT);
                }
                let h: i128 = find_height(kind, m.label_strips[i], m);
                let top: i128 = ends[p];
                self.place(i, kind, top, h);
                let gap: i128 = if more {
                    0
                } else {
                    GAP
                };
                let next: i128 = top + h + gap;
                let ghost old_ends = ends@;
                ends.set(p, next);
                proof {
                    assert forall|q: int| 0 <= q < PAGES implies #[trigger] ends@[q] == page_end(
                        ws,
                        *m,
                        i + 1,
                        q,
                    ) && 0 <= ends@[q] <= MARGIN + (i + 1) * STEP_LIMIT by {
                        assert(old_ends[q] == page_end(ws, *m, i as int, q));
                    }
                }
            } else {
                proof {
                    assert forall|q: int| 0 <= q < PAGES implies #[trigger] ends@[q] == page_end(
                        ws,
                        *m,
                        i + 1,
                        q,
                    ) && 0 <= ends@[q] <= MARGIN + (i + 1) * STEP_LIMIT by {
                        assert(ends@[q] == page_end(ws, *m, i as int, q));
                    }
                }
            }
            i += 1;
        }
        proof {
            assert(i * STEP_LIMIT <= 0xffff_ffff_ffff_ffff * STEP_LIMIT);
        }
        let ghost done = self@;
        let mut p: usize = 0;
        while p < PAGES
            invariant
                p <= PAGES,
                self.wf(),
                n == ws.len(),
                ends@.len() == PAGES,
                forall|q: int|
                    0 <= q < PAGES ==> #[trigger] ends@[q] == page_end(ws, *m, n as int, q),
                forall|q: int|
                    0 <= q < PAGES ==> 0 <= #[trigger] ends@[q] <= MARGIN + 0xffff_ffff_ffff_ffff
                        * STEP_LIMIT,
                self@ == (LayoutModel { totals: self@.totals, ..done }),
                forall|q: int|
                    0 <= q < p ==> #[trigger] self@.totals[q] == page_end(ws, *m, n as int, q)
                        + TAIL,
            decreases PAGES - p,
        {
            let ghost was = self@.totals;
            let total: i128 = ends[p] + TAIL;
            self.page_total_heights.set(p, total);
            proof {
                assert(self@.totals =~= was.update(p as int, total as int));
            }
            p += 1;
        }
        proof {
            assert(self@.widgets =~= laid_out(l, *m).widgets);
            assert(self@.totals =~= laid_out(l, *m).totals);
        }
    }

    /// Gives the layout an area, and lays it out there.
    pub fn rect_assigned(&mut self, x: i64, y: i64, w: i64, h: i64, m: &Metrics)
        requires
            old(self).wf(),
            m.label_strips@.len() == old(self).widgets@.len(),
        ensures
            final(self).wf(),
            final(self).widgets@.len() == old(self).widgets@.len(),
            final(self)@ == laid_out(
                LayoutModel { x: x as int, y: y as int, w: w as int, h: h as int, ..old(self)@ },
                *m,
            ),
    {
        self.x = x;
        self.y = y;
        self.w = w;
        self.h = h;
        self.layout_children(m);
    }

    /// The area that a control fills: a checkbox a square at the left of its row, and every
    /// other control its whole row.
    pub fn control_area(&self, i: usize) -> (r: Rect)
        requires
            self.wf(),
            i < self.widgets@.len(),
        ensures
            ({
                let w = self@.widgets[i as int];
                if w.kind() == Kind::Checkbox {
                    r.x == w.x && r.y == w.y + 2 * PX && r.w == 18 * PX && r.h == 18 * PX
                } else {
                    r.x == w.x && r.y == w.y && r.w == w.w && r.h == w.h
                }
            }),
    {
        let w = &self.widgets[i];
        if find_kind(w.widget_type.as_str()) == Kind::Checkbox {
            Rect { x: w.x, y: w.y + 2 * PX, w: 18 * PX, h: 18 * PX }
        } else {
            Rect { x: w.x, y: w.y, w: w.w, h: w.h }
        }
    }
}

// ---------------------------------------------------------------------------------------
// Laws
// ---------------------------------------------------------------------------------------

proof fn lemma_page_end_same(a: Seq<WidgetModel>, b: Seq<WidgetModel>, m: Metrics, n: int, p: int)
    requires
        a.len() == b.len(),
        n <= a.len(),
        forall|i: int|
            0 <= i < a.len() ==> (#[trigger] a[i]).page == b[i].page && a[i].widget_type
                == b[i].widget_type,
    ensures
        page_end(a, m, n, p) == page_end(b, m, n, p),
    decreases n,
{
    if n > 0 {
        lemma_page_end_same(a, b, m, n - 1, p);
        assert(a[n - 1].page == b[n - 1].page);
        if n < a.len() {
            assert(a[n].page == b[n].page);
        }
    }
}

/// Laying a layout out a second time changes nothing.
pub proof fn law_layout_twice(l: LayoutModel, m: Metrics)
    ensures
        laid_out(laid_out(l, m), m) == laid_out(l, m),
{
    let once = laid_out(l, m);
    let twice = laid_out(once, m);
    assert forall|i: int| 0 <= i < l.widgets.len() implies (#[trigger] l.widgets[i]).page
        == once.widgets[i].page && l.widgets[i].widget_type == once.widgets[i].widget_type by {}
    assert forall|i: int| 0 <= i < l.widgets.len() implies #[trigger] twice.widgets[i]
        == once.widgets[i] by {
        lemma_page_end_same(l.widgets, once.widgets, m, i, l.widgets[i].page);
    }
    assert forall|p: int| 0 <= p < PAGES implies #[trigger] twice.totals[p] == once.totals[p] by {
        lemma_page_end_same(l.widgets, once.widgets, m, l.widgets.len() as int, p);
    }
    assert(twice.widgets =~= once.widgets);
    assert(twice.totals =~= once.totals);
}

proof fn lemma_page_end_grows(ws: Seq<WidgetModel>, m: Metrics, i: int, j: int, p: int)
    requires
        0 <= i <= j <= ws.len(),
        m.label_strips@.len() == ws.len(),
    ensures
        MARGIN <= page_end(ws, m, i, p) <= page_end(ws, m, j, p),
    decreases j,
{
    if i < j {
        lemma_page_end_grows(ws, m, i, j - 1, p);
    } else if i > 0 {
        lemma_page_end_grows(ws, m, i - 1, i - 1, p);
    }
}

/// The rows of a page follow each other from top to bottom and do not overlap. All of them
/// lie within the height of the page.
pub proof fn law_rows_in_order(l: LayoutModel, m: Metrics, i: int, j: int)
    requires
        0 <= i < j < l.widgets.len(),
        m.label_strips@.len() == l.widgets.len(),
        0 <= l.widgets[i].page < PAGES,
        l.widgets[i].page == l.widgets[j].page,
    ensures
        ({
            let o = laid_out(l, m);
            let page = l.widgets[i].page;
            &&& o.widgets[i].y + o.widgets[i].h <= o.widgets[j].y
            &&& l.y + MARGIN - l.scroll[page] <= o.widgets[i].y
            &&& o.widgets[j].y + o.widgets[j].h + TAIL <= l.y + o.totals[page] - l.scroll[page]
        }),
{
    let ws = l.widgets;
    let page = ws[i].page;
    lemma_page_end_grows(ws, m, i + 1, j, page);
    lemma_page_end_grows(ws, m, 0, i, page);
    lemma_page_end_grows(ws, m, j + 1, ws.len() as int, page);
}

/// Buttons that follow each other on a page butt together; below every other row there is a
/// gap.
pub proof fn law_rows_adjoin(l: LayoutModel, m: Metrics, i: int)
    requires
        0 <= i,
        i + 1 < l.widgets.len(),
        0 <= l.widgets[i].page < PAGES,
        l.widgets[i].page == l.widgets[i + 1].page,
    ensures
        ({
            let o = laid_out(l, m);
            o.widgets[i + 1].y == o.widgets[i].y + o.widgets[i].h + if l.widgets[i].kind()
                == Kind::Button && l.widgets[i + 1].kind() == Kind::Button {
                0
            } else {
                GAP as int
            }
        }),
{
}

/// Scrolling a page moves all of its rows by the same distance, and no other row; no page
/// becomes higher or lower.
pub proof fn law_scroll_moves_rows(l: LayoutModel, m: Metrics, page: int, d: int, i: int)
    requires
        l.scroll.len() == PAGES,
        0 <= page < PAGES,
        0 <= i < l.widgets.len(),
        0 <= l.widgets[i].page < PAGES,
    ensures
        ({
            let scrolled = LayoutModel { scroll: l.scroll.update(page, l.scroll[page] + d), ..l };
            let (a, b) = (laid_out(l, m), laid_out(scrolled, m));
            &&& b.totals == a.totals
            &&& b.widgets[i].y == a.widgets[i].y - if l.widgets[i].page == page {
                d
            } else {
                0
            }
            &&& b.widgets[i].x == a.widgets[i].x && b.widgets[i].w == a.widgets[i].w
            &&& b.widgets[i].h == a.widgets[i].h
        }),
{
    let scrolled = LayoutModel { scroll: l.scroll.update(page, l.scroll[page] + d), ..l };
    assert(laid_out(scrolled, m).totals =~= laid_out(l, m).totals);
}

/// The layout leaves alone what a control is: its id, its kind, its text, its state, its
/// page and where it leads.
pub proof fn law_layout_keeps_controls(l: LayoutModel, m: Metrics, i: int)
    requires
        0 <= i < l.widgets.len(),
    ensures
        ({
            let (w, o) = (l.widgets[i], laid_out(l, m).widgets[i]);
            &&& o.id == w.id
            &&& o.widget_type == w.widget_type
            &&& o.text == w.text
            &&& o.control == w.control
            &&& o.page == w.page
            &&& o.target == w.target
        }),
{
}

proof fn lemma_kind_names()
    ensures
        "checkbox"@.len() == 8,
        "button"@.len() == 6 && "button"@[0] == 'b',
        "label"@.len() == 5 && "label"@[0] == 'l',
        "spinbox"@.len() == 7,
        "color"@.len() == 5 && "color"@[0] == 'c',
        "slider"@.len() == 6 && "slider"@[0] == 's',
        "rgb"@.len() == 3,
        "rgba"@.len() == 4,
{
    reveal_strlit("checkbox");
    reveal_strlit("button");
    reveal_strlit("label");
    reveal_strlit("spinbox");
    reveal_strlit("color");
    reveal_strlit("slider");
    reveal_strlit("rgb");
    reveal_strlit("rgba");
}

/// The names of the kinds of controls. Whatever has another name is a plain button.
pub proof fn law_names_of_kinds(name: Seq<char>)
    ensures
        kind_of("checkbox"@) == Kind::Checkbox,
        kind_of("button"@) == Kind::Button,
        kind_of("label"@) == Kind::Label,
        kind_of("spinbox"@) == Kind::Spinbox,
        kind_of("color"@) == Kind::Color,
        kind_of("rgb"@) == Kind::Color,
        kind_of("rgba"@) == Kind::Color,
        kind_of("slider"@) == Kind::Slider,
        name != "checkbox"@ && name != "button"@ && name != "label"@ && name != "spinbox"@ && name
            != "color"@ && name != "rgb"@ && name != "rgba"@ && name != "slider"@ ==> kind_of(name)
            == Kind::Other,
{
    lemma_kind_names();
}

/// A control has the state that its description gives it. What the description leaves out is:
/// not checked; 0, from 0 to 100 in steps of 1; white; and from zero to one.
pub proof fn law_controls_as_described(c: JsonWidgetConfig, justify: Justification)
    ensures
        c.widget_type@ == "checkbox"@ ==> control_of(c, justify) == (JsonControl::Checkbox {
            checked: c.checked == Some(true),
            hovered: false,
        }),
        c.widget_type@ == "button"@ ==> control_of(c, justify) == (JsonControl::Button {
            menu_row: true,
            justify,
            clicked: false,
        }),
        c.widget_type@ == "label"@ ==> control_of(c, justify) == JsonControl::Label,
        c.widget_type@ == "spinbox"@ ==> (control_of(c, justify) matches JsonControl::Spinbox {
            value,
            min,
            max,
            step,
            decimals,
        } && {
            &&& c.value is Some ==> c.value == Some(value)
            &&& c.value is None ==> value == 0
            &&& c.min is Some ==> c.min == Some(min)
            &&& c.min is None ==> min == 0
            &&& c.max is Some ==> c.max == Some(max)
            &&& c.max is None ==> max == 100
            &&& c.step is Some ==> c.step == Some(step)
            &&& c.step is None ==> step == 1
            &&& decimals == c.decimals
        }),
        c.widget_type@ == "color"@ || c.widget_type@ == "rgb"@ || c.widget_type@ == "rgba"@ ==> (
        control_of(c, justify) matches JsonControl::Color { color } && {
            &&& c.color is Some ==> c.color == Some(color)
            &&& c.color is None ==> color.r == 255 && color.g == 255 && color.b == 255
        }),
        c.widget_type@ == "slider"@ ==> (control_of(c, justify) matches JsonControl::Slider {
            low_bits,
            high_bits,
            value_bits,
        } && {
            &&& c.min_f32 is Some ==> c.min_f32 == Some(low_bits)
            &&& c.min_f32 is None ==> low_bits == 0
            &&& c.max_f32 is Some ==> c.max_f32 == Some(high_bits)
            &&& c.max_f32 is None ==> high_bits == 0x3f80_0000
            &&& value_bits == c.value_f32
        }),
        c.widget_type@ != "checkbox"@ && c.widget_type@ != "button"@ && c.widget_type@ != "label"@
            && c.widget_type@ != "spinbox"@ && c.widget_type@ != "color"@ && c.widget_type@
            != "rgb"@ && c.widget_type@ != "rgba"@ && c.widget_type@ != "slider"@ ==> control_of(
            c,
            justify,
        ) == (JsonControl::Button {
            menu_row: false,
            justify: Justification::Center,
            clicked: false,
        }),
{
    lemma_kind_names();
}

/// The only page has the controls of its description in their order, with their texts, kinds
/// and targets. A control without an id is named after its place.
pub proof fn law_only_page(c: JsonLayoutConfig, v: Vec<JsonWidgetConfig>, i: int)
    requires
        c.pages is None,
        c.widgets == Some(v),
        0 <= i < v@.len(),
    ensures
        ({
            let ws = controls_of(c);
            let justify = match c.justify {
                Some(j) => j,
                None => Justification::Center,
            };
            &&& ws.len() == v@.len()
            &&& v@[i].id matches Some(id) ==> ws[i].id == id@
            &&& v@[i].id is None ==> ws[i].id == "widget_"@ + decimal(i as nat)
            &&& ws[i].widget_type == v@[i].widget_type@ && ws[i].text == v@[i].text@
            &&& ws[i].page == 0 && ws[i].target == v@[i].target_page
            &&& ws[i].control == control_of(v@[i], justify)
        }),
{
}

/// A further page adds its controls behind those of the pages before it, on the page with the
/// next number. A control without an id is named after its page and its place there.
pub proof fn law_further_page(pages: Seq<JsonPageConfig>, p: JsonPageConfig, i: int)
    requires
        0 <= i < p.widgets@.len(),
    ensures
        ({
            let before = pages_controls(pages);
            let ws = pages_controls(pages.push(p));
            let n = before.len() as int;
            let c = p.widgets@[i];
            let justify = match p.justify {
                Some(j) => j,
                None => Justification::Center,
            };
            &&& ws.len() == n + p.widgets@.len()
            &&& ws.take(n) == before
            &&& c.id matches Some(id) ==> ws[n + i].id == id@
            &&& c.id is None ==> ws[n + i].id == "widget_"@ + decimal(pages.len()) + "_"@ + decimal(
                i as nat,
            )
            &&& ws[n + i].widget_type == c.widget_type@ && ws[n + i].text == c.text@
            &&& ws[n + i].page == pages.len() && ws[n + i].target == c.target_page
            &&& ws[n + i].control == control_of(c, justify)
        }),
{
    let before = pages_controls(pages);
    assert(pages.push(p).drop_last() =~= pages);
    let ws = pages_controls(pages.push(p));
    assert(ws.take(before.len() as int) =~= before);
}

/// Pages go before the controls of a single page, and a description without either has no
/// controls.
pub proof fn law_pages_go_first(c: JsonLayoutConfig, pages: Vec<JsonPageConfig>)
    ensures
        c.pages == Some(pages) ==> controls_of(c) == pages_controls(pages@),
        c.pages is None && c.widgets is None ==> controls_of(c).len() == 0,
        pages_controls(Seq::<JsonPageConfig>::empty()).len() == 0,
{
}

/// The rows of a page lie 16 pixels within its sides. A row is as high as its kind of control
/// needs, with the room for the label above it; a checkbox has its text beside it.
pub proof fn law_shape_of_rows(l: LayoutModel, m: Metrics, i: int)
    requires
        0 <= i < l.widgets.len(),
        0 <= l.widgets[i].page < 16,
    ensures
        ({
            let w = laid_out(l, m).widgets[i];
            let t = l.widgets[i].widget_type;
            let strip = m.label_strips@[i] as int;
            &&& w.x == l.x + 16 * 1024
            &&& w.w == l.w - 32 * 1024
            &&& t == "checkbox"@ ==> w.h == 22 * 1024 && (w.label matches Some(label) && label.text
                == l.widgets[i].text && label.x == w.x + 28 * 1024 && label.y == w.y + 2 * 1024)
            &&& t == "button"@ ==> w.h == 24 * 1024 + strip
            &&& t == "label"@ ==> w.h == 18 * 1024 + strip
            &&& t == "spinbox"@ ==> w.h == m.spinbox_height + strip
            &&& t == "color"@ || t == "rgb"@ || t == "rgba"@ ==> w.h == m.color_height + strip
            &&& t == "slider"@ ==> w.h == 22 * 1024 + strip
            &&& t != "checkbox"@ && t != "button"@ && t != "label"@ && t != "spinbox"@ && t
                != "color"@ && t != "rgb"@ && t != "rgba"@ && t != "slider"@ ==> w.h == 24 * 1024
            &&& t != "checkbox"@ ==> w.label == l.widgets[i].label
            &&& w.id == l.widgets[i].id && w.text == l.widgets[i].text && w.control
                == l.widgets[i].control && w.page == l.widgets[i].page && w.widget_type == t
                && w.target == l.widgets[i].target
        }),
{
    lemma_kind_names();
}

proof fn lemma_page_end_skips(ws: Seq<WidgetModel>, m: Metrics, a: int, b: int, page: int)
    requires
        0 <= a <= b <= ws.len(),
        forall|k: int| a <= k < b ==> (#[trigger] ws[k]).page != page,
    ensures
        page_end(ws, m, b, page) == page_end(ws, m, a, page),
    decreases b - a,
{
    if a < b {
        assert(ws[b - 1].page != page);
        lemma_page_end_skips(ws, m, a, b - 1, page);
    }
}

/// The first row of a page begins 16 pixels below its top, less what the page is scrolled;
/// each further row begins 12 pixels below the row before it on the page, and a button that
/// follows a button directly below it.
pub proof fn law_rows_one_below_the_other(l: LayoutModel, m: Metrics, i: int, j: int)
    requires
        -1 <= i < j <= l.widgets.len(),
    ensures
        ({
            let o = laid_out(l, m);
            let first = (forall|k: int| 0 <= k < j ==> (#[trigger] l.widgets[k]).page
                != l.widgets[j].page);
            let adjoin = j == i + 1 && l.widgets[i].widget_type == "button"@
                && l.widgets[j].widget_type == "button"@;
            &&& j < l.widgets.len() && 0 <= l.widgets[j].page < 16 && first ==> o.widgets[j].y == l.y
                + 16 * 1024 - l.scroll[l.widgets[j].page]
            &&& 0 <= i && j < l.widgets.len() && 0 <= l.widgets[i].page < 16 && l.widgets[i].page
                == l.widgets[j].page && (forall|k: int|
                i < k < j ==> (#[trigger] l.widgets[k]).page != l.widgets[i].page)
                ==> o.widgets[j].y == o.widgets[i].y + o.widgets[i].h + if adjoin {
                0int
            } else {
                12 * 1024int
            }
        }),
{
    lemma_kind_names();
    let ws = l.widgets;
    if j < ws.len() {
        let page = ws[j].page;
        if forall|k: int| 0 <= k < j ==> (#[trigger] ws[k]).page != page {
            lemma_page_end_skips(ws, m, 0, j, page);
        }
        if 0 <= i && 0 <= ws[i].page < 16 && ws[i].page == page && (forall|k: int|
            i < k < j ==> (#[trigger] ws[k]).page != page) {
            lemma_page_end_skips(ws, m, i + 1, j, page);
        }
    }
}

/// The height of a page reaches 16 pixels below its last row, and is 20 pixels where it has no
/// rows.
pub proof fn law_height_of_page(l: LayoutModel, m: Metrics, page: int, i: int)
    requires
        0 <= page < 16,
        -1 <= i < l.widgets.len(),
        i >= 0 ==> l.widgets[i].page == page,
        forall|k: int| i < k < l.widgets.len() ==> (#[trigger] l.widgets[k]).page != page,
    ensures
        i == -1 ==> laid_out(l, m).totals[page] == 20 * 1024,
        i >= 0 ==> laid_out(l, m).totals[page] == laid_out(l, m).widgets[i].y + laid_out(
            l,
            m,
        ).widgets[i].h - l.y + l.scroll[page] + 16 * 1024,
        laid_out(l, m).scroll == l.scroll,
        laid_out(l, m).active == l.active,
        laid_out(l, m).dragging == l.dragging,
{
    let ws = l.widgets;
    lemma_page_end_skips(ws, m, i + 1, ws.len() as int, page);
    if i >= 0 && i + 1 < ws.len() {
        assert(ws[i + 1].page != page);
    }
}

/// There are sixteen pages, and what is the same for each page is so for all of them.
pub proof fn law_same_for_each_page(n: int, page: int)
    requires
        0 <= page < 16,
    ensures
        per_page(n).len() == 16,
        per_page(n)[page] == n,
{
}

} // verus!
