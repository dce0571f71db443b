//! How large the launcher wants to be.

use vstd::prelude::*;
use crate::fuzzel::field_text;
use crate::fuzzel::greater;
use crate::fuzzel::FuzzelModel;
use crate::fuzzel::FuzzelWidget;
use crate::geometry::rounded;
use crate::geometry::PX;
use crate::json_layout::JsonLayoutConfig;
use crate::json_layout::JsonLayoutWidget;
use crate::json_layout::JsonPageConfig;
use crate::json_layout::JsonWidgetConfig;
use crate::json_layout::LayoutModel;
use crate::json_layout::PAGES;
use crate::options::LauncherMode;
use crate::text::owned;
use crate::text::same_text;
use crate::text::texts;

verus! {

/// No page is narrower than this, in logical pixels.
pub const MIN_PAGE_WIDTH: u32 = 120;

/// No list is narrower than this, in logical pixels.
pub const MIN_LIST_WIDTH: u32 = 300;

/// No page is higher than this at first, in logical pixels.
pub const MAX_PAGE_HEIGHT: u32 = 600;

/// The smaller of two numbers.
pub open spec fn smaller(a: int, b: int) -> int {
    if a < b {
        a
    } else {
        b
    }
}

/// What the text of a control is measured in.
#[derive(Clone, Copy, Debug, PartialEq, Eq, Structural)]
pub enum Measure {
    /// The font of buttons.
    ButtonFont,
    /// The usual font at 13 pixels.
    ControlFont,
    /// The text does not count.
    Nothing,
}

/// What the text of a control is measured in.
pub open spec fn measure_of(widget_type: Seq<char>) -> Measure {
    if widget_type == "button"@ {
        Measure::ButtonFont
    } else if widget_type == "label"@ || widget_type == "checkbox"@ || widget_type == "spinbox"@
        || widget_type == "color"@ || widget_type == "slider"@ {
        Measure::ControlFont
    } else {
        Measure::Nothing
    }
}

/// What the text of a control is measured in.
pub fn find_measure(widget_type: &str) -> (r: Measure)
    ensures
        r == measure_of(widget_type@),
{
    if same_text(widget_type, "button") {
        Measure::ButtonFont
    } else if same_text(widget_type, "label") || same_text(widget_type, "checkbox") || same_text(
        widget_type,
        "spinbox",
    ) || same_text(widget_type, "color") || same_text(widget_type, "slider") {
        Measure::ControlFont
    } else {
        Measure::Nothing
    }
}

/// The width that the page needs for a control, whose text is `measured` wide: the margins of
/// the page, and what the control needs beside its text.
pub open spec fn desired_width(widget_type: Seq<char>, measured: int) -> int {
    if widget_type == "button"@ {
        measured + 48 * PX
    } else if widget_type == "label"@ {
        measured + 32 * PX
    } else if widget_type == "checkbox"@ {
        measured + 44 * PX
    } else if widget_type == "spinbox"@ || widget_type == "color"@ {
        measured + 120 * PX
    } else if widget_type == "slider"@ {
        measured + 160 * PX
    } else {
        150 * PX
    }
}

/// The width that the page needs for a control, whose text is `measured` wide.
pub fn json_widget_desired_width(widget_type: &str, measured: u32) -> (r: i128)
    ensures
        r == desired_width(widget_type@, measured as int),
{
    if same_text(widget_type, "button") {
        measured as i128 + 48 * PX
    } else if same_text(widget_type, "label") {
        measured as i128 + 32 * PX
    } else if same_text(widget_type, "checkbox") {
        measured as i128 + 44 * PX
    } else if same_text(widget_type, "spinbox") || same_text(widget_type, "color") {
        measured as i128 + 120 * PX
    } else if same_text(widget_type, "slider") {
        measured as i128 + 160 * PX
    } else {
        150 * PX
    }
}

/// The text of a button fits between its insets of 8 pixels, when the page is as wide as the
/// button needs it: the row is the page without its margins.
pub proof fn law_button_text_fits(measured: int)
    ensures
        desired_width("button"@, measured) - 2 * crate::json_layout::MARGIN >= measured + 16 * PX,
{
}

/// The widest that one of the first `n` controls needs the page, and no less than the minimum.
pub open spec fn widest(types: Seq<Seq<char>>, measured: Seq<u32>, n: int) -> int
    decreases n,
{
    if n <= 0 {
        MIN_PAGE_WIDTH * PX
    } else {
        greater(
            widest(types, measured, n - 1),
            desired_width(types[n - 1], measured[n - 1] as int),
        )
    }
}

/// A page that is as wide as the widest control needs it is as wide as each of them needs it.
pub proof fn law_widest_covers(types: Seq<Seq<char>>, measured: Seq<u32>, n: int, i: int)
    requires
        0 <= i < n,
    ensures
        desired_width(types[i], measured[i] as int) <= widest(types, measured, n),
        MIN_PAGE_WIDTH * PX <= widest(types, measured, n),
    decreases n,
{
    if i < n - 1 {
        law_widest_covers(types, measured, n - 1, i);
    } else {
        lemma_widest_bounds(types, measured, n - 1);
    }
}

proof fn lemma_widest_bounds(types: Seq<Seq<char>>, measured: Seq<u32>, n: int)
    ensures
        MIN_PAGE_WIDTH * PX <= widest(types, measured, n) <= 0x1_0000_0000 + 160 * PX,
    decreases n,
{
    if n > 0 {
        lemma_widest_bounds(types, measured, n - 1);
    }
}

fn find_widest(types: &Vec<String>, measured: &Vec<u32>) -> (r: i128)
    requires
        types@.len() == measured@.len(),
    ensures
        r == widest(texts(types@), measured@, types@.len() as int),
        MIN_PAGE_WIDTH * PX <= r <= 0x1_0000_0000 + 160 * PX,
{
    let mut w: i128 = MIN_PAGE_WIDTH as i128 * PX;
    let mut i: usize = 0;
    while i < types.len()
        invariant
            i <= types@.len(),
            types@.len() == measured@.len(),
            w == widest(texts(types@), measured@, i as int),
        decreases types@.len() - i,
    {
        let d: i128 = json_widget_desired_width(types[i].as_str(), measured[i]);
        if d > w {
            w = d;
        }
        i += 1;
    }
    proof {
        lemma_widest_bounds(texts(types@), measured@, i as int);
    }
    w
}

/// Rounds a length to whole pixels.
fn round_px(len: i128) -> (r: u32)
    requires
        0 <= len,
        rounded(len as int) <= u32::MAX,
    ensures
        r == rounded(len as int),
{
    proof {
        assert(len <= 0x1_0000_0000 * PX);
    }
    ((len + PX / 2) / PX) as u32
}

// ---------------------------------------------------------------------------------------
// The first size
// ---------------------------------------------------------------------------------------

/// The kinds of the controls of a list of descriptions.
pub open spec fn types_in(v: Seq<JsonWidgetConfig>) -> Seq<Seq<char>> {
    v.map_values(|c: JsonWidgetConfig| c.widget_type@)
}

/// The kinds of the controls of all pages, page by page.
pub open spec fn types_on(pages: Seq<JsonPageConfig>) -> Seq<Seq<char>>
    decreases pages.len(),
{
    if pages.len() == 0 {
        Seq::empty()
    } else {
        types_on(pages.drop_last()) + types_in(pages.last().widgets@)
    }
}

/// The kinds of the controls of a description. The controls of a single page go before pages.
pub open spec fn types_of(c: JsonLayoutConfig) -> Seq<Seq<char>> {
    match c.widgets {
        Some(v) => types_in(v@),
        None => match c.pages {
            Some(pages) => types_on(pages@),
            None => Seq::empty(),
        },
    }
}

/// The texts of the controls of a list of descriptions.
pub open spec fn texts_in(v: Seq<JsonWidgetConfig>) -> Seq<Seq<char>> {
    v.map_values(|c: JsonWidgetConfig| c.text@)
}

/// The texts of the controls of all pages, page by page.
pub open spec fn texts_on(pages: Seq<JsonPageConfig>) -> Seq<Seq<char>>
    decreases pages.len(),
{
    if pages.len() == 0 {
        Seq::empty()
    } else {
        texts_on(pages.drop_last()) + texts_in(pages.last().widgets@)
    }
}

/// The texts of the controls of a description, in the order of their kinds.
pub open spec fn texts_of(c: JsonLayoutConfig) -> Seq<Seq<char>> {
    match c.widgets {
        Some(v) => texts_in(v@),
        None => match c.pages {
            Some(pages) => texts_on(pages@),
            None => Seq::empty(),
        },
    }
}

/// How high a control will about be, in logical pixels.
pub open spec fn estimate(widget_type: Seq<char>) -> int {
    if widget_type == "label"@ {
        18
    } else if widget_type == "checkbox"@ {
        22
    } else if widget_type == "button"@ {
        24
    } else if widget_type == "spinbox"@ {
        22
    } else if widget_type == "color"@ {
        24
    } else {
        20
    }
}

/// How high controls will about be one above the other, with the margin above them and a gap
/// below each, in logical pixels.
pub open spec fn stacked(types: Seq<Seq<char>>) -> int
    decreases types.len(),
{
    if types.len() == 0 {
        16
    } else {
        stacked(types.drop_last()) + estimate(types.last()) + 12
    }
}

/// How high the highest of some pages will about be, in logical pixels.
pub open spec fn highest(pages: Seq<JsonPageConfig>) -> int
    decreases pages.len(),
{
    if pages.len() == 0 {
        16
    } else {
        greater(highest(pages.drop_last()), stacked(types_in(pages.last().widgets@)))
    }
}

/// How high a description will about be, in logical pixels.
pub open spec fn estimated_height(c: JsonLayoutConfig) -> int {
    smaller(
        4 + match c.widgets {
            Some(v) => stacked(types_in(v@)),
            None => match c.pages {
                Some(pages) => highest(pages@),
                None => 16,
            },
        },
        MAX_PAGE_HEIGHT as int,
    )
}

/// The size with which the launcher begins, in logical pixels: what the description says, and
/// else what its controls need. `measured` are the widths of the texts of the controls.
pub open spec fn first_size(mode: LauncherMode, config: Option<JsonLayoutConfig>, measured: Seq<u32>) -> (
    int,
    int,
) {
    if mode == LauncherMode::Json {
        match config {
            Some(c) => (
                match c.width {
                    Some(w) => w as int,
                    None => rounded(widest(types_of(c), measured, types_of(c).len() as int)),
                },
                match c.height {
                    Some(h) => h as int,
                    None => estimated_height(c),
                },
            ),
            None => (300, 400),
        }
    } else {
        (600, 800)
    }
}

/// The kinds and the texts of some controls.
#[derive(Debug)]
pub struct Listed {
    pub types: Vec<String>,
    pub labels: Vec<String>,
}

fn push_controls(out: &mut Listed, v: &Vec<JsonWidgetConfig>)
    ensures
        texts(final(out).types@) == texts(old(out).types@) + types_in(v@),
        texts(final(out).labels@) == texts(old(out).labels@) + texts_in(v@),
{
    let ghost types = texts(out.types@);
    let ghost labels = texts(out.labels@);
    let ghost kinds = types_in(v@);
    let ghost words = texts_in(v@);
    let mut i: usize = 0;
    proof {
        assert(types + kinds.take(0) =~= types);
        assert(labels + words.take(0) =~= labels);
    }
    while i < v.len()
        invariant
            i <= v@.len(),
            kinds == types_in(v@),
            words == texts_in(v@),
            texts(out.types@) == types + kinds.take(i as int),
            texts(out.labels@) == labels + words.take(i as int),
        decreases v@.len() - i,
    {
        let ghost so_far = texts(out.types@);
        let ghost said = texts(out.labels@);
        out.types.push(v[i].widget_type.clone());
        out.labels.push(v[i].text.clone());
        proof {
            assert(texts(out.types@) =~= so_far.push(kinds[i as int]));
            assert(so_far.push(kinds[i as int]) =~= types + kinds.take(i + 1));
            assert(texts(out.labels@) =~= said.push(words[i as int]));
            assert(said.push(words[i as int]) =~= labels + words.take(i + 1));
        }
        i += 1;
    }
    proof {
        assert(kinds.take(i as int) =~= kinds);
        assert(words.take(i as int) =~= words);
    }
}

/// The kinds and the texts of the controls of a description, in the order in which they are
/// measured.
pub fn list_controls(c: &JsonLayoutConfig) -> (r: Listed)
    ensures
        texts(r.types@) == types_of(*c),
        texts(r.labels@) == texts_of(*c),
{
    let mut out = Listed { types: Vec::new(), labels: Vec::new() };
    proof {
        assert(texts(out.types@) =~= Seq::<Seq<char>>::empty());
        assert(texts(out.labels@) =~= Seq::<Seq<char>>::empty());
    }
    match &c.widgets {
        Some(v) => {
            push_controls(&mut out, v);
            proof {
                assert(texts(out.types@) =~= types_in(v@));
                assert(texts(out.labels@) =~= texts_in(v@));
            }
        },
        None => match &c.pages {
            Some(pages) => {
                let mut p: usize = 0;
                proof {
                    assert(texts(out.types@) =~= types_on(pages@.take(0)));
                    assert(texts(out.labels@) =~= texts_on(pages@.take(0)));
                }
                while p < pages.len()
                    invariant
                        p <= pages@.len(),
                        texts(out.types@) == types_on(pages@.take(p as int)),
                        texts(out.labels@) == texts_on(pages@.take(p as int)),
                    decreases pages@.len() - p,
                {
                    push_controls(&mut out, &pages[p].widgets);
                    proof {
                        assert(pages@.take(p + 1).drop_last() =~= pages@.take(p as int));
                        assert(pages@.take(p + 1).last() == pages@[p as int]);
                    }
                    p += 1;
                }
                proof {
                    assert(pages@.take(p as int) =~= pages@);
                }
            },
            None => {},
        },
    }
    out
}

fn find_estimate(widget_type: &str) -> (r: u32)
    ensures
        r == estimate(widget_type@),
{
    if same_text(widget_type, "label") {
        18
    } else if same_text(widget_type, "checkbox") {
        22
    } else if same_text(widget_type, "button") {
        24
    } else if same_text(widget_type, "spinbox") {
        22
    } else if same_text(widget_type, "color") {
        24
    } else {
        20
    }
}

fn find_stacked(v: &Vec<JsonWidgetConfig>) -> (r: i128)
    ensures
        r == stacked(types_in(v@)),
        16 <= r <= 16 + 36 * usize::MAX,
{
    let ghost all = types_in(v@);
    let mut h: i128 = 16;
    let mut i: usize = 0;
    proof {
        assert(all.take(0) =~= Seq::<Seq<char>>::empty());
    }
    while i < v.len()
        invariant
            i <= v@.len(),
            all == types_in(v@),
            h == stacked(all.take(i as int)),
            16 <= h <= 16 + 36 * i,
        decreases v@.len() - i,
    {
        proof {
            assert(all.take(i + 1).drop_last() =~= all.take(i as int));
            assert(all.take(i + 1).last() == v@[i as int].widget_type@);
        }
        h = h + find_estimate(v[i].widget_type.as_str()) as i128 + 12;
        i += 1;
    }
    proof {
        assert(all.take(i as int) =~= all);
    }
    h
}

fn find_estimated_height(c: &JsonLayoutConfig) -> (r: u32)
    ensures
        r == estimated_height(*c),
{
    let mut h: i128 = 16;
    match &c.widgets {
        Some(v) => {
            h = find_stacked(v);
        },
        None => match &c.pages {
            Some(pages) => {
                let mut p: usize = 0;
                proof {
                    assert(pages@.take(0) =~= Seq::<JsonPageConfig>::empty());
                }
                while p < pages.len()
                    invariant
                        p <= pages@.len(),
                        h == highest(pages@.take(p as int)),
                        16 <= h <= 16 + 36 * usize::MAX,
                    decreases pages@.len() - p,
                {
                    proof {
                        assert(pages@.take(p + 1).drop_last() =~= pages@.take(p as int));
                        assert(pages@.take(p + 1).last() == pages@[p as int]);
                    }
                    let page: i128 = find_stacked(&pages[p].widgets);
                    if page > h {
                        h = page;
                    }
                    p += 1;
                }
                proof {
                    assert(pages@.take(p as int) =~= pages@);
                }
            },
            None => {},
        },
    }
    if h + 4 < MAX_PAGE_HEIGHT as i128 {
        (h + 4) as u32
    } else {
        MAX_PAGE_HEIGHT
    }
}

/// The size with which the launcher begins, in logical pixels. `measured` are the widths of
/// the texts of the controls that `list_controls` lists.
pub fn initial_size(mode: LauncherMode, config: &Option<JsonLayoutConfig>, measured: &Vec<u32>) -> (r: (
    u32,
    u32,
))
    requires
        mode == LauncherMode::Json && config is Some && config->0.width is None ==> measured@.len()
            == types_of(config->0).len(),
    ensures
        (r.0 as int, r.1 as int) == first_size(mode, *config, measured@),
{
    if mode != LauncherMode::Json {
        return (600, 800);
    }
    match config {
        Some(c) => {
            let w = match c.width {
                Some(w) => w,
                None => {
                    let types = list_controls(c).types;
                    proof {
                        assert(texts(types@).len() == types@.len());
                    }
                    let len = find_widest(&types, measured);
                    round_px(len)
                },
            };
            let h = match c.height {
                Some(h) => h,
                None => find_estimated_height(c),
            };
            (w, h)
        },
        None => (300, 400),
    }
}

// ---------------------------------------------------------------------------------------
// The size that fits what is shown
// ---------------------------------------------------------------------------------------

/// The widest that one of the first `n` controls of the active page needs the page, and no
/// less than the minimum.
pub open spec fn widest_shown(l: LayoutModel, measured: Seq<u32>, n: int) -> int
    decreases n,
{
    if n <= 0 {
        MIN_PAGE_WIDTH * PX
    } else if l.widgets[n - 1].page == l.active {
        greater(
            widest_shown(l, measured, n - 1),
            desired_width(l.widgets[n - 1].widget_type, measured[n - 1] as int),
        )
    } else {
        widest_shown(l, measured, n - 1)
    }
}

/// The size that fits the active page, in logical pixels, within the largest size.
pub open spec fn page_size(l: LayoutModel, measured: Seq<u32>, max_w: int, max_h: int) -> (int, int) {
    (
        rounded(smaller(widest_shown(l, measured, l.widgets.len() as int), max_w * PX)),
        rounded(smaller(l.totals[l.active], max_h * PX)),
    )
}

/// The size that fits the active page, in logical pixels. `measured` are the widths of the
/// texts of all controls.
pub fn json_size(l: &JsonLayoutWidget, measured: &Vec<u32>, max_w: u32, max_h: u32) -> (r: (u32, u32))
    requires
        l.wf(),
        l.active_page < PAGES,
        measured@.len() == l.widgets@.len(),
        MIN_PAGE_WIDTH <= max_w,
    ensures
        (r.0 as int, r.1 as int) == page_size(l@, measured@, max_w as int, max_h as int),
{
    let n = l.widgets.len();
    let mut w: i128 = MIN_PAGE_WIDTH as i128 * PX;
    let mut i: usize = 0;
    while i < n
        invariant
            i <= n,
            n == l.widgets@.len(),
            measured@.len() == n,
            w == widest_shown(l@, measured@, i as int),
            MIN_PAGE_WIDTH * PX <= w,
        decreases n - i,
    {
        if l.widgets[i].page_idx == l.active_page {
            let d: i128 = json_widget_desired_width(l.widgets[i].widget_type.as_str(), measured[i]);
            if d > w {
                w = d;
            }
        }
        i += 1;
    }
    let max_w_len: i128 = max_w as i128 * PX;
    if w > max_w_len {
        w = max_w_len;
    }
    let max_h_len: i128 = max_h as i128 * PX;
    proof {
        assert(l@.totals[l.active_page as int] == l.page_total_heights@[l.active_page as int]);
    }
    let mut h: i128 = l.page_total_heights[l.active_page];
    if h > max_h_len {
        h = max_h_len;
    }
    (round_px(w), round_px(h))
}

/// The widest of some texts.
pub open spec fn widest_text(measured: Seq<u32>) -> int
    decreases measured.len(),
{
    if measured.len() == 0 {
        0
    } else {
        greater(widest_text(measured.drop_last()), measured.last() as int)
    }
}

/// How high the launcher has to be to show `n` items, or the notice that there are none, in
/// logical pixels.
pub open spec fn list_height(n: int) -> int {
    75 + 25 * greater(n, 1)
}

/// The size that fits a list of `n` items, in logical pixels, within the largest size.
/// `measured` are the widths of its texts. A list that is too high needs room for a scroll
/// bar.
pub open spec fn list_size_of(n: int, measured: Seq<u32>, max_w: int, max_h: int) -> (int, int) {
    let bar = if list_height(n) > max_h {
        10int
    } else {
        0
    };
    (
        rounded(
            smaller(
                greater(widest_text(measured) + (50 + bar) * PX, MIN_LIST_WIDTH * PX),
                max_w * PX,
            ),
        ),
        smaller(list_height(n), max_h),
    )
}

fn find_widest_text(measured: &Vec<u32>) -> (r: u32)
    ensures
        r == widest_text(measured@),
{
    let mut w: u32 = 0;
    let mut i: usize = 0;
    proof {
        assert(measured@.take(0) =~= Seq::<u32>::empty());
    }
    while i < measured.len()
        invariant
            i <= measured@.len(),
            w == widest_text(measured@.take(i as int)),
        decreases measured@.len() - i,
    {
        proof {
            assert(measured@.take(i + 1).drop_last() =~= measured@.take(i as int));
            assert(measured@.take(i + 1).last() == measured@[i as int]);
        }
        if measured[i] > w {
            w = measured[i];
        }
        i += 1;
    }
    proof {
        assert(measured@.take(i as int) =~= measured@);
    }
    w
}

/// The size that fits a list of `n` items, in logical pixels. `measured` are the widths of the
/// texts that `sizing_texts` lists.
pub fn list_size(n: usize, measured: &Vec<u32>, max_w: u32, max_h: u32) -> (r: (u32, u32))
    requires
        MIN_LIST_WIDTH <= max_w,
    ensures
        (r.0 as int, r.1 as int) == list_size_of(n as int, measured@, max_w as int, max_h as int),
{
    let rows: i128 = if n == 0 {
        1
    } else {
        n as i128
    };
    let needed: i128 = 75 + 25 * rows;
    let bar: i128 = if needed > max_h as i128 {
        10
    } else {
        0
    };
    let h: i128 = if needed < max_h as i128 {
        needed
    } else {
        max_h as i128
    };
    let mut w: i128 = find_widest_text(measured) as i128 + (50 + bar) * PX;
    if w < MIN_LIST_WIDTH as i128 * PX {
        w = MIN_LIST_WIDTH as i128 * PX;
    }
    if w > max_w as i128 * PX {
        w = max_w as i128 * PX;
    }
    (round_px(w), h as u32)
}

/// The texts whose widths the size of a list depends on: that of the search field, and those
/// of the items or the notice that there are none.
pub open spec fn sizing_texts_of(m: FuzzelModel) -> Seq<Seq<char>> {
    seq![field_text(m.prompt, m.query)] + if m.filtered_items.len() == 0 {
        seq!["No matches found"@]
    } else {
        m.filtered_items
    }
}

/// The texts whose widths the size of a list depends on. The first is drawn at 14 pixels, and
/// the others at 13.
pub fn sizing_texts(f: &FuzzelWidget) -> (r: Vec<String>)
    ensures
        texts(r@) == sizing_texts_of(f@),
{
    let mut out: Vec<String> = Vec::new();
    out.push(f.field_text());
    let ghost first = seq![field_text(f@.prompt, f@.query)];
    let ghost items = f@.filtered_items;
    proof {
        assert(texts(out@) =~= first + items.take(0));
    }
    if f.filtered_items.len() == 0 {
        out.push(owned("No matches found"));
        proof {
            assert(texts(out@) =~= first + seq!["No matches found"@]);
        }
        return out;
    }
    let mut i: usize = 0;
    while i < f.filtered_items.len()
        invariant
            i <= f.filtered_items@.len(),
            items == texts(f.filtered_items@),
            texts(out@) == first + items.take(i as int),
        decreases f.filtered_items@.len() - i,
    {
        let ghost so_far = texts(out@);
        out.push(f.filtered_items[i].clone());
        proof {
            assert(texts(out@) =~= so_far.push(items[i as int]));
            assert(so_far.push(items[i as int]) =~= first + items.take(i + 1));
        }
        i += 1;
    }
    proof {
        assert(items.take(i as int) =~= items);
    }
    out
}

/// A size to change to: none where it is the size already.
pub fn size_change(now: (u32, u32), wanted: (u32, u32)) -> (r: Option<(u32, u32)>)
    ensures
        r == if now == wanted {
            None
        } else {
            Some(wanted)
        },
{
    if now.0 != wanted.0 || now.1 != wanted.1 {
        Some(wanted)
    } else {
        None
    }
}

/// The size that fits a page keeps within the largest size, and is no narrower than the
/// minimum.
pub proof fn law_page_size_bounds(l: LayoutModel, measured: Seq<u32>, max_w: int, max_h: int)
    requires
        MIN_PAGE_WIDTH <= max_w,
        0 <= max_h,
    ensures
        MIN_PAGE_WIDTH <= page_size(l, measured, max_w, max_h).0 <= max_w,
        page_size(l, measured, max_w, max_h).1 <= max_h,
{
    lemma_widest_shown(l, measured, l.widgets.len() as int);
}

proof fn lemma_widest_shown(l: LayoutModel, measured: Seq<u32>, n: int)
    ensures
        MIN_PAGE_WIDTH * PX <= widest_shown(l, measured, n),
    decreases n,
{
    if n > 0 {
        lemma_widest_shown(l, measured, n - 1);
    }
}

/// The size that fits a list keeps within the largest size, and is no narrower than the
/// minimum.
pub proof fn law_list_size_bounds(n: int, measured: Seq<u32>, max_w: int, max_h: int)
    requires
        MIN_LIST_WIDTH <= max_w,
        0 <= n,
    ensures
        MIN_LIST_WIDTH <= list_size_of(n, measured, max_w, max_h).0 <= max_w,
        list_size_of(n, measured, max_w, max_h).1 <= max_h,
        list_height(n) <= max_h ==> list_size_of(n, measured, max_w, max_h).1 == list_height(n),
{
}

proof fn lemma_kinds_differ()
    ensures
        "checkbox"@.len() == 8,
        "button"@.len() == 6 && "button"@[0] == 'b',
        "label"@.len() == 5 && "label"@[0] == 'l',
        "spinbox"@.len() == 7,
        "color"@.len() == 5 && "color"@[0] == 'c',
        "slider"@.len() == 6 && "slider"@[0] == 's',
{
    reveal_strlit("checkbox");
    reveal_strlit("button");
    reveal_strlit("label");
    reveal_strlit("spinbox");
    reveal_strlit("color");
    reveal_strlit("slider");
}

/// What a control needs beside its text, in pixels, the margins of the page among it; a control
/// of another kind needs the same whatever its text is.
pub proof fn law_widths_by_kind(w: int, other: Seq<char>)
    ensures
        desired_width("button"@, w) == w + 48 * 1024,
        desired_width("label"@, w) == w + 32 * 1024,
        desired_width("checkbox"@, w) == w + 44 * 1024,
        desired_width("spinbox"@, w) == w + 120 * 1024,
        desired_width("color"@, w) == w + 120 * 1024,
        desired_width("slider"@, w) == w + 160 * 1024,
        other != "button"@ && other != "label"@ && other != "checkbox"@ && other != "spinbox"@ && other
            != "color"@ && other != "slider"@ ==> desired_width(other, w) == 150 * 1024,
        measure_of("button"@) == Measure::ButtonFont,
        measure_of("label"@) == Measure::ControlFont,
        measure_of("checkbox"@) == Measure::ControlFont,
        measure_of("spinbox"@) == Measure::ControlFont,
        measure_of("color"@) == Measure::ControlFont,
        measure_of("slider"@) == Measure::ControlFont,
        other != "button"@ && other != "label"@ && other != "checkbox"@ && other != "spinbox"@ && other
            != "color"@ && other != "slider"@ ==> measure_of(other) == Measure::Nothing,
{
    lemma_kinds_differ();
}

/// A control adds its estimated height and a gap of 12 pixels to the controls above it, which
/// begin below a margin of 16 pixels.
pub proof fn law_heights_add_up(types: Seq<Seq<char>>, other: Seq<char>)
    ensures
        stacked(Seq::<Seq<char>>::empty()) == 16,
        stacked(types.push("label"@)) == stacked(types) + 30,
        stacked(types.push("checkbox"@)) == stacked(types) + 34,
        stacked(types.push("button"@)) == stacked(types) + 36,
        stacked(types.push("spinbox"@)) == stacked(types) + 34,
        stacked(types.push("color"@)) == stacked(types) + 36,
        other != "button"@ && other != "label"@ && other != "checkbox"@ && other != "spinbox"@ && other
            != "color"@ ==> stacked(types.push(other)) == stacked(types) + 32,
{
    lemma_kinds_differ();
    assert(types.push("label"@).drop_last() =~= types);
    assert(types.push("checkbox"@).drop_last() =~= types);
    assert(types.push("button"@).drop_last() =~= types);
    assert(types.push("spinbox"@).drop_last() =~= types);
    assert(types.push("color"@).drop_last() =~= types);
    assert(types.push(other).drop_last() =~= types);
}

/// A page is as wide as its widest control needs it, and no control needs it wider; without
/// controls, or with narrow ones, it is 120 pixels wide.
pub proof fn law_page_fits_widest(types: Seq<Seq<char>>, measured: Seq<u32>, n: int) -> (i: int)
    requires
        0 <= n,
    ensures
        widest(types, measured, n) >= 120 * 1024,
        widest(types, measured, n) > 120 * 1024 ==> 0 <= i < n && widest(types, measured, n)
            == desired_width(types[i], measured[i] as int),
        forall|k: int|
            0 <= k < n ==> desired_width(#[trigger] types[k], measured[k] as int) <= widest(
                types,
                measured,
                n,
            ),
    decreases n,
{
    assert forall|k: int| 0 <= k < n implies desired_width(
        #[trigger] types[k],
        measured[k] as int,
    ) <= widest(types, measured, n) by {
        law_widest_covers(types, measured, n, k);
    }
    if n == 0 {
        0
    } else {
        let i = law_page_fits_widest(types, measured, n - 1);
        if widest(types, measured, n) == widest(types, measured, n - 1) {
            i
        } else {
            n - 1
        }
    }
}

/// The width of a page that is shown is that of its widest control, of the controls that are
/// shown and of no others, and 120 pixels at least.
pub proof fn law_shown_page_fits_widest(l: LayoutModel, measured: Seq<u32>, n: int) -> (i: int)
    requires
        0 <= n <= l.widgets.len(),
    ensures
        widest_shown(l, measured, n) >= 120 * 1024,
        widest_shown(l, measured, n) > 120 * 1024 ==> 0 <= i < n && l.widgets[i].page == l.active
            && widest_shown(l, measured, n) == desired_width(
            l.widgets[i].widget_type,
            measured[i] as int,
        ),
        forall|k: int|
            0 <= k < n && (#[trigger] l.widgets[k]).page == l.active ==> desired_width(
                l.widgets[k].widget_type,
                measured[k] as int,
            ) <= widest_shown(l, measured, n),
    decreases n,
{
    if n == 0 {
        0
    } else {
        let i = law_shown_page_fits_widest(l, measured, n - 1);
        if widest_shown(l, measured, n) == widest_shown(l, measured, n - 1) {
            i
        } else {
            n - 1
        }
    }
}

/// A page that fits within the largest size is as large as it needs to be, to the nearest
/// pixel, and else as large as it may be.
pub proof fn law_page_size_fits(l: LayoutModel, measured: Seq<u32>, max_w: int, max_h: int)
    ensures
        ({
            let (w, h) = page_size(l, measured, max_w, max_h);
            let need = widest_shown(l, measured, l.widgets.len() as int);
            &&& need <= max_w * 1024 ==> w == rounded(need)
            &&& need > max_w * 1024 ==> w == max_w
            &&& l.totals[l.active] <= max_h * 1024 ==> h == rounded(l.totals[l.active])
            &&& l.totals[l.active] > max_h * 1024 ==> h == max_h
        }),
{
    assert(rounded(max_w * 1024) == max_w);
    assert(rounded(max_h * 1024) == max_h);
}

/// A list has room for its items, of 25 pixels each, and for one at least, below 75 pixels for
/// the search field and the margins, as far as the largest size allows. It is 50 pixels wider
/// than its widest text, and 10 more where it is too high to be shown whole, but 300 pixels
/// at least.
pub proof fn law_list_size_fits(n: int, measured: Seq<u32>, max_w: int, max_h: int)
    requires
        0 <= n,
        300 <= max_w,
    ensures
        ({
            let (w, h) = list_size_of(n, measured, max_w, max_h);
            let rows = if n == 0 {
                1
            } else {
                n
            };
            let full = 75 + 25 * rows;
            let text = widest_text(measured);
            &&& full <= max_h ==> h == full
            &&& full > max_h ==> h == max_h
            &&& full <= max_h && 250 * 1024 <= text && text + 50 * 1024 <= max_w * 1024 ==> w
                == rounded(text + 50 * 1024)
            &&& full > max_h && 250 * 1024 <= text && text + 60 * 1024 <= max_w * 1024 ==> w
                == rounded(text + 60 * 1024)
            &&& text <= 240 * 1024 ==> w == 300
            &&& text + 50 * 1024 > max_w * 1024 ==> w == max_w
        }),
{
    assert(rounded(max_w * 1024) == max_w);
}

/// The widest of some texts is one of them, and no text is wider.
pub proof fn law_widest_text_is_widest(measured: Seq<u32>) -> (i: int)
    ensures
        measured.len() == 0 ==> widest_text(measured) == 0,
        measured.len() > 0 ==> 0 <= i < measured.len() && widest_text(measured) == measured[i],
        forall|k: int| 0 <= k < measured.len() ==> #[trigger] measured[k] <= widest_text(measured),
    decreases measured.len(),
{
    if measured.len() == 0 {
        0
    } else {
        let head = measured.drop_last();
        let last = measured.len() - 1;
        let i = law_widest_text_is_widest(head);
        assert forall|k: int| 0 <= k < measured.len() implies #[trigger] measured[k]
            <= widest_text(measured) by {
            if k < last {
                assert(head[k] == measured[k]);
            }
        }
        if widest_text(head) > measured.last() as int {
            i
        } else {
            last
        }
    }
}

/// The texts that decide the width of a list are that of the search field and behind it the
/// shown items, or the notice that there are none.
pub proof fn law_texts_that_decide_width(m: FuzzelModel)
    ensures
        m.filtered_items.len() > 0 ==> sizing_texts_of(m) == seq![
            field_text(m.prompt, m.query),
        ] + m.filtered_items,
        m.filtered_items.len() == 0 ==> sizing_texts_of(m) == seq![
            field_text(m.prompt, m.query),
            "No matches found"@,
        ],
        m.query.len() > 0 ==> field_text(m.prompt, m.query) == m.prompt + m.query,
        m.query.len() == 0 ==> field_text(m.prompt, m.query) == m.prompt + "Type to search..."@,
{
    let first = field_text(m.prompt, m.query);
    assert(seq![first] + seq!["No matches found"@] =~= seq![first, "No matches found"@]);
}

/// The launcher begins with 600 by 800 pixels for a list, and with 300 by 400 for widgets
/// without a description. A description with a size has that size; else it is as wide as its
/// widest control needs it, and as high as its controls are estimated to be, 600 pixels at
/// most.
pub proof fn law_first_size_as_described(
    mode: LauncherMode,
    c: JsonLayoutConfig,
    v: Vec<JsonWidgetConfig>,
    measured: Seq<u32>,
)
    ensures
        mode != LauncherMode::Json ==> first_size(mode, Some(c), measured) == (600int, 800int),
        mode != LauncherMode::Json ==> first_size(mode, None, measured) == (600int, 800int),
        first_size(LauncherMode::Json, None, measured) == (300int, 400int),
        c.width matches Some(w) ==> first_size(LauncherMode::Json, Some(c), measured).0 == w,
        c.height matches Some(h) ==> first_size(LauncherMode::Json, Some(c), measured).1 == h,
        c.width is None && c.widgets == Some(v) ==> first_size(
            LauncherMode::Json,
            Some(c),
            measured,
        ).0 == rounded(widest(types_in(v@), measured, v@.len() as int)),
        c.height is None && c.widgets == Some(v) && stacked(types_in(v@)) <= 596 ==> first_size(
            LauncherMode::Json,
            Some(c),
            measured,
        ).1 == stacked(types_in(v@)) + 4,
        c.height is None && c.widgets == Some(v) && stacked(types_in(v@)) > 596 ==> first_size(
            LauncherMode::Json,
            Some(c),
            measured,
        ).1 == 600,
{
}

/// Of several pages the highest decides the estimated height, and their controls follow one
/// another page by page.
pub proof fn law_pages_sized_together(pages: Seq<JsonPageConfig>, p: JsonPageConfig)
    ensures
        highest(pages.push(p)) >= highest(pages),
        highest(pages.push(p)) >= stacked(types_in(p.widgets@)),
        highest(pages.push(p)) == highest(pages) || highest(pages.push(p)) == stacked(
            types_in(p.widgets@),
        ),
        types_on(pages.push(p)) == types_on(pages) + types_in(p.widgets@),
        texts_on(pages.push(p)) == texts_on(pages) + texts_in(p.widgets@),
        types_in(p.widgets@).len() == p.widgets@.len(),
        forall|i: int|
            #![trigger p.widgets@[i]]
            0 <= i < p.widgets@.len() ==> types_in(p.widgets@)[i] == p.widgets@[i].widget_type@
                && texts_in(p.widgets@)[i] == p.widgets@[i].text@,
{
    assert(pages.push(p).drop_last() =~= pages);
}

/// The texts of a description stand in the order of their kinds: those of a single page, and
/// where there is none those of the pages.
pub proof fn law_texts_beside_kinds(c: JsonLayoutConfig, v: Vec<JsonWidgetConfig>, pages: Vec<JsonPageConfig>)
    ensures
        c.widgets == Some(v) ==> types_of(c) == types_in(v@) && texts_of(c) == texts_in(v@),
        c.widgets is None && c.pages == Some(pages) ==> types_of(c) == types_on(pages@) && texts_of(c)
            == texts_on(pages@),
        c.widgets is None && c.pages is None ==> types_of(c).len() == 0 && texts_of(c).len() == 0,
        c.widgets == Some(v) ==> types_of(c).len() == v@.len() && texts_of(c).len() == v@.len(),
        c.height is None && c.widgets is None && c.pages == Some(pages) && highest(pages@) <= 596
            ==> estimated_height(c) == highest(pages@) + 4,
        c.widgets is None && c.pages is None ==> estimated_height(c) == 20,
        highest(Seq::<JsonPageConfig>::empty()) == 16,
{
}

} // verus!
