//! The searchable list: a query, the items that match it, the selected one, and how far the
//! list is scrolled.

use vstd::prelude::*;
use vstd::string::StringExecFns;
use crate::filter::filter_and_sort_items;
use crate::filter::ranked;
use crate::geometry::label_models;
use crate::geometry::LabelModel;
use crate::geometry::Rect;
use crate::geometry::Rgb;
use crate::geometry::TextLabel;
use crate::geometry::PX;
use crate::text::control_code;
use crate::text::owned;
use crate::text::texts;

verus! {

/// The height of a row of the list: 25 pixels.
pub const ROW: i128 = 25_600;

/// The margin around the search field and the list: 15 pixels.
pub const PAD: i128 = 15_360;

/// The height of the search field: 35 pixels.
pub const SEARCH: i128 = 35_840;

/// From the top of the launcher to the top of the list: the margin, the search field and 10
/// pixels.
pub const LIST_TOP: i128 = 61_440;

/// A bound on coordinates that no list comes near.
pub const SCROLL_LIMIT: i128 = 0x1000_0000_0000_0000_0000_0000;

/// The part of the list that is in view.
#[derive(Clone, Copy, Debug, PartialEq, Eq, Structural)]
pub struct ScrollRegion {
    /// The area of the list.
    pub area: Rect,
    /// How much of the list lies above the area.
    pub scroll_y: i128,
    /// The height of all rows together.
    pub content_h: i128,
    pub viewport_y: i128,
    pub viewport_h: i128,
}

/// The searchable list.
#[derive(Debug)]
pub struct FuzzelWidget {
    pub x: i64,
    pub y: i64,
    pub w: i64,
    pub h: i64,
    pub prompt: String,
    pub query: String,
    pub all_items: Vec<String>,
    pub filtered_items: Vec<String>,
    pub selected: usize,
    pub scroll_box: ScrollRegion,
}

/// The searchable list, in a specification.
#[verifier::ext_equal]
pub struct FuzzelModel {
    pub x: i64,
    pub y: i64,
    pub w: i64,
    pub h: i64,
    pub prompt: Seq<char>,
    pub query: Seq<char>,
    pub all_items: Seq<Seq<char>>,
    pub filtered_items: Seq<Seq<char>>,
    pub selected: int,
    pub area: Rect,
    pub scroll_y: int,
    pub content_h: int,
    pub viewport_y: int,
    pub viewport_h: int,
}

impl View for FuzzelWidget {
    type V = FuzzelModel;

    open spec fn view(&self) -> FuzzelModel {
        FuzzelModel {
            x: self.x,
            y: self.y,
            w: self.w,
            h: self.h,
            prompt: self.prompt@,
            query: self.query@,
            all_items: texts(self.all_items@),
            filtered_items: texts(self.filtered_items@),
            selected: self.selected as int,
            area: self.scroll_box.area,
            scroll_y: self.scroll_box.scroll_y as int,
            content_h: self.scroll_box.content_h as int,
            viewport_y: self.scroll_box.viewport_y as int,
            viewport_h: self.scroll_box.viewport_h as int,
        }
    }
}

/// `n` within the bounds `lo` and `hi`.
pub open spec fn clamped(n: int, lo: int, hi: int) -> int {
    if n < lo {
        lo
    } else if n > hi {
        hi
    } else {
        n
    }
}

/// The greater of two numbers.
pub open spec fn greater(a: int, b: int) -> int {
    if a > b {
        a
    } else {
        b
    }
}

impl FuzzelModel {
    /// The height of the list in view: what the search field and the margins leave.
    pub open spec fn list_h(self) -> int {
        self.h - LIST_TOP - PAD
    }

    /// The height of all rows together.
    pub open spec fn rows_h(self) -> int {
        self.filtered_items.len() * ROW
    }

    /// How far the list can be scrolled.
    pub open spec fn max_scroll(self) -> int {
        greater(self.rows_h() - self.list_h(), 0)
    }

    /// The list with the bounds of its scrolling brought up to date.
    pub open spec fn bounded(self) -> FuzzelModel {
        FuzzelModel {
            content_h: self.rows_h(),
            viewport_y: self.y + LIST_TOP,
            viewport_h: self.list_h(),
            ..self
        }
    }

    /// The scroll offset nearest to the present one that shows the selected row.
    pub open spec fn snap_y(self) -> int {
        let top = self.selected * ROW;
        let near = if top + ROW > self.scroll_y + self.list_h() {
            top + ROW - self.list_h()
        } else if top < self.scroll_y {
            top
        } else {
            self.scroll_y
        };
        clamped(near, 0, self.max_scroll())
    }

    /// The list scrolled to the selected row; an empty list stays as it is.
    pub open spec fn snapped(self) -> FuzzelModel {
        if self.filtered_items.len() == 0 {
            self
        } else {
            FuzzelModel { scroll_y: self.snap_y(), ..self }
        }
    }

    /// The list with another row selected and in view.
    pub open spec fn selecting(self, row: int) -> FuzzelModel {
        FuzzelModel { selected: row, ..self }.bounded().snapped()
    }

    /// The list after its items or its query have changed: what matches is shown, and the
    /// selection stays where it is or moves to the last row.
    pub open spec fn refiltered(self) -> FuzzelModel {
        let shown = ranked(self.all_items, self.query);
        FuzzelModel {
            filtered_items: shown,
            selected: if self.selected < shown.len() {
                self.selected
            } else {
                greater(shown.len() - 1, 0)
            },
            ..self
        }.bounded().snapped()
    }

    /// The list with other items.
    pub open spec fn with_items(self, items: Seq<Seq<char>>) -> FuzzelModel {
        FuzzelModel { all_items: items, ..self }.refiltered()
    }

    /// The list with another query.
    pub open spec fn with_query(self, query: Seq<char>) -> FuzzelModel {
        FuzzelModel { query, ..self }.refiltered()
    }

    /// The selection points at a shown item, or nowhere where none is shown.
    pub open spec fn selection_valid(self) -> bool {
        0 <= self.selected && (self.selected < self.filtered_items.len() || self.selected == 0)
    }

    /// The item that is selected.
    pub open spec fn selected_item(self) -> Option<Seq<char>> {
        if 0 <= self.selected < self.filtered_items.len() {
            Some(self.filtered_items[self.selected])
        } else {
            None
        }
    }
}

/// The characters of a text that are no control codes.
pub open spec fn printable(s: Seq<char>) -> Seq<char>
    decreases s.len(),
{
    if s.len() == 0 {
        Seq::<char>::empty()
    } else if control_code(s.last()) {
        printable(s.drop_last())
    } else {
        printable(s.drop_last()).push(s.last())
    }
}

/// The text of the search field: the prompt, and the query or a hint.
pub open spec fn field_text(prompt: Seq<char>, query: Seq<char>) -> Seq<char> {
    if query.len() == 0 {
        prompt + "Type to search..."@
    } else {
        prompt + query
    }
}

/// The labels of the rows that are drawn; `rows` gives where each row is drawn, if at all.
pub open spec fn row_labels(
    m: FuzzelModel,
    rows: Seq<Option<i64>>,
    n: int,
) -> Seq<LabelModel>
    decreases n,
{
    if n <= 0 {
        Seq::<LabelModel>::empty()
    } else {
        match rows[n - 1] {
            Some(y) => row_labels(m, rows, n - 1).push(
                LabelModel {
                    text: m.filtered_items[n - 1],
                    x: m.x + PAD + 10 * PX,
                    y: y + 4 * PX,
                    font_size: 13 * PX,
                    color: if m.selected == n - 1 {
                        Rgb { r: 0xff, g: 0xff, b: 0xff }
                    } else {
                        Rgb { r: 0xbb, g: 0xbb, b: 0xc5 }
                    },
                },
            ),
            None => row_labels(m, rows, n - 1),
        }
    }
}

/// The label of the search field.
pub open spec fn field_label(m: FuzzelModel) -> LabelModel {
    LabelModel {
        text: field_text(m.prompt, m.query),
        x: m.x + PAD + 10 * PX,
        y: m.y + PAD + 9 * PX,
        font_size: 14 * PX,
        color: if m.query.len() == 0 {
            Rgb { r: 0x66, g: 0x66, b: 0x77 }
        } else {
            Rgb { r: 0xcc, g: 0xff, b: 0xcc }
        },
    }
}

/// The label that stands in an empty list.
pub open spec fn empty_label(m: FuzzelModel) -> LabelModel {
    LabelModel {
        text: "No matches found"@,
        x: m.x + PAD + 10 * PX,
        y: m.y + LIST_TOP + 4 * PX,
        font_size: 13 * PX,
        color: Rgb { r: 0x88, g: 0x88, b: 0x99 },
    }
}

/// All labels of the list.
pub open spec fn labels_of(m: FuzzelModel, rows: Seq<Option<i64>>) -> Seq<LabelModel> {
    let listed = seq![field_label(m)] + row_labels(m, rows, m.filtered_items.len() as int);
    if m.filtered_items.len() == 0 {
        listed.push(empty_label(m))
    } else {
        listed
    }
}

/// A list without items, before it has an area.
pub open spec fn empty_list(prompt: Seq<char>) -> FuzzelModel {
    FuzzelModel {
        x: 0,
        y: 0,
        w: 0,
        h: 0,
        prompt,
        query: Seq::<char>::empty(),
        all_items: Seq::<Seq<char>>::empty(),
        filtered_items: Seq::<Seq<char>>::empty(),
        selected: 0,
        area: Rect { x: 0, y: 0, w: 0, h: 0 },
        scroll_y: 0,
        content_h: 0,
        viewport_y: 0,
        viewport_h: 0,
    }
}

impl FuzzelWidget {
    /// The scroll offset and the place of the list are within their limit.
    pub open spec fn in_range(&self) -> bool {
        &&& -SCROLL_LIMIT <= self.scroll_box.scroll_y <= SCROLL_LIMIT
        &&& -SCROLL_LIMIT <= self.scroll_box.viewport_y <= SCROLL_LIMIT
    }

    /// The coordinates are within their limit, and the selection points at a shown item.
    pub open spec fn wf(&self) -> bool {
        self.in_range() && self@.selection_valid()
    }

    /// An empty list.
    pub fn new(prompt: String) -> (r: FuzzelWidget)
        ensures
            r.wf(),
            r@ == empty_list(prompt@),
    {
        let r = FuzzelWidget {
            x: 0,
            y: 0,
            w: 0,
            h: 0,
            prompt,
            query: String::new(),
            all_items: Vec::new(),
            filtered_items: Vec::new(),
            selected: 0,
            scroll_box: ScrollRegion {
                area: Rect { x: 0, y: 0, w: 0, h: 0 },
                scroll_y: 0,
                content_h: 0,
                viewport_y: 0,
                viewport_h: 0,
            },
        };
        proof {
            assert(texts(r.all_items@) =~= Seq::<Seq<char>>::empty());
            assert(texts(r.filtered_items@) =~= Seq::<Seq<char>>::empty());
        }
        r
    }

    /// Brings the bounds of the scrolling up to date.
    pub fn update_scroll(&mut self)
        ensures
            final(self)@ == old(self)@.bounded(),
            old(self).in_range() ==> final(self).in_range(),
            *final(self) == (FuzzelWidget { scroll_box: final(self).scroll_box, ..*old(self) }),
    {
        let n: i128 = self.filtered_items.len() as i128;
        self.scroll_box.content_h = n * ROW;
        self.scroll_box.viewport_y = self.y as i128 + LIST_TOP;
        self.scroll_box.viewport_h = self.h as i128 - LIST_TOP - PAD;
    }

    /// Scrolls as far as it takes to show the selected row.
    pub fn snap_to_selected(&mut self)
        requires
            old(self).in_range(),
        ensures
            final(self).in_range(),
            final(self)@ == old(self)@.snapped(),
            *final(self) == (FuzzelWidget { scroll_box: final(self).scroll_box, ..*old(self) }),
    {
        if self.filtered_items.len() == 0 {
            return ;
        }
        let list_h: i128 = self.h as i128 - LIST_TOP - PAD;
        let n: i128 = self.filtered_items.len() as i128;
        let rows_h: i128 = n * ROW;
        let top: i128 = self.selected as i128 * ROW;
        let near: i128 = if top + ROW > self.scroll_box.scroll_y + list_h {
            top + ROW - list_h
        } else if top < self.scroll_box.scroll_y {
            top
        } else {
            self.scroll_box.scroll_y
        };
        let max_scroll: i128 = if rows_h - list_h > 0 {
            rows_h - list_h
        } else {
            0
        };
        self.scroll_box.scroll_y = if near < 0 {
            0
        } else if near > max_scroll {
            max_scroll
        } else {
            near
        };
    }

    /// Shows the items that match the query.
    pub fn filter(&mut self)
        requires
            old(self).in_range(),
        ensures
            final(self).wf(),
            final(self)@ == old(self)@.refiltered(),
    {
        self.filtered_items = filter_and_sort_items(&self.all_items, self.query.as_str());
        proof {
            assert(texts(self.filtered_items@).len() == self.filtered_items@.len());
        }
        if self.selected >= self.filtered_items.len() {
            self.selected = if self.filtered_items.len() == 0 {
                0
            } else {
                self.filtered_items.len() - 1
            };
        }
        self.update_scroll();
        self.snap_to_selected();
    }

    /// Replaces the items.
    pub fn set_items(&mut self, items: Vec<String>)
        requires
            old(self).in_range(),
        ensures
            final(self).wf(),
            final(self)@ == old(self)@.with_items(texts(items@)),
    {
        self.all_items = items;
        self.filter();
    }

    /// Selects a row and shows it.
    pub fn select(&mut self, row: usize)
        requires
            old(self).in_range(),
            row < old(self).filtered_items@.len(),
        ensures
            final(self).wf(),
            final(self)@ == old(self)@.selecting(row as int),
            final(self).filtered_items == old(self).filtered_items,
    {
        self.selected = row;
        self.update_scroll();
        self.snap_to_selected();
    }

    /// Takes a new place and size.
    pub fn rect_assigned(&mut self, x: i64, y: i64, w: i64, h: i64)
        requires
            old(self).wf(),
        ensures
            final(self).wf(),
            final(self)@ == (FuzzelModel {
                x,
                y,
                w,
                h,
                area: Rect {
                    x: (x + PAD) as i128,
                    y: (y + LIST_TOP) as i128,
                    w: (w - 2 * PAD) as i128,
                    h: (h - LIST_TOP - PAD) as i128,
                },
                ..old(self)@
            }).bounded(),
    {
        self.x = x;
        self.y = y;
        self.w = w;
        self.h = h;
        self.scroll_box.area = Rect {
            x: x as i128 + PAD,
            y: y as i128 + LIST_TOP,
            w: w as i128 - 2 * PAD,
            h: h as i128 - LIST_TOP - PAD,
        };
        self.update_scroll();
    }

    /// Takes over a scroll offset, such as one that a wheel has led to.
    pub fn scroll_to(&mut self, scroll_y: i64)
        requires
            old(self).wf(),
        ensures
            final(self).wf(),
            final(self)@ == (FuzzelModel { scroll_y: scroll_y as int, ..old(self)@ }).bounded(),
    {
        self.scroll_box.scroll_y = scroll_y as i128;
        self.update_scroll();
    }

    /// A press at the height `py`. Where it hits the list and a row lies there, the row is
    /// selected.
    pub fn press(&mut self, hit: bool, py: i64) -> (r: bool)
        requires
            old(self).wf(),
        ensures
            final(self).wf(),
            r == (hit && row_at(old(self)@, py as int) < old(self)@.filtered_items.len()),
            final(self)@ == if r {
                FuzzelModel { selected: row_at(old(self)@, py as int), ..old(self)@ }
            } else {
                old(self)@
            },
            final(self).filtered_items == old(self).filtered_items,
    {
        if hit {
            let v: i128 = py as i128 - self.scroll_box.viewport_y + self.scroll_box.scroll_y;
            let row: i128 = if v < 0 {
                0
            } else {
                v / ROW
            };
            let n: i128 = self.filtered_items.len() as i128;
            if row < n {
                self.selected = row as usize;
                return true;
            }
        }
        false
    }

    /// Moves the selection to the next row, or leaves it on the last.
    pub fn select_next(&mut self)
        requires
            old(self).wf(),
            old(self).filtered_items@.len() > 0,
        ensures
            final(self).wf(),
            final(self)@ == old(self)@.selecting(
                if old(self)@.selected + 1 < old(self)@.filtered_items.len() {
                    old(self)@.selected + 1
                } else {
                    old(self)@.filtered_items.len() - 1
                },
            ),
    {
        let row = if self.selected < self.filtered_items.len() - 1 {
            self.selected + 1
        } else {
            self.filtered_items.len() - 1
        };
        self.select(row);
    }

    /// Moves the selection to the row before.
    pub fn select_prev(&mut self)
        requires
            old(self).wf(),
            old(self).selected > 0,
        ensures
            final(self).wf(),
            final(self)@ == old(self)@.selecting(old(self)@.selected - 1),
    {
        self.select(self.selected - 1);
    }

    /// Moves the selection forward by `next` rows and back by `prev`, around the ends.
    pub fn cycle(&mut self, next: usize, prev: usize)
        requires
            old(self).wf(),
            old(self).filtered_items@.len() > 0,
        ensures
            final(self).wf(),
            final(self)@ == old(self)@.selecting(cycled(old(self)@, next as int, prev as int)),
    {
        let n: i128 = self.filtered_items.len() as i128;
        let net: i128 = self.selected as i128 + next as i128 - prev as i128;
        let row: i128 = if net >= 0 {
            net % n
        } else {
            let m: i128 = (-net) % n;
            if m == 0 {
                0
            } else {
                n - m
            }
        };
        proof {
            lemma_euclid(net as int, n as int);
        }
        self.select(row as usize);
    }

    /// Appends the printable characters of a text to the query.
    pub fn type_text(&mut self, text: &str)
        requires
            old(self).wf(),
        ensures
            final(self).wf(),
            final(self)@ == old(self)@.with_query(old(self)@.query + printable(text@)),
    {
        let chars = crate::text::to_chars(text);
        let ghost start = self.query@;
        let ghost before = self@;
        let mut i: usize = 0;
        let mut query = self.query.clone();
        while i < chars.len()
            invariant
                i <= chars@.len(),
                query@ =~= start + printable(chars@.take(i as int)),
            decreases chars@.len() - i,
        {
            proof {
                assert(chars@.take(i + 1).drop_last() =~= chars@.take(i as int));
                assert(chars@.take(i + 1).last() == chars@[i as int]);
            }
            if !chars[i].is_control() {
                query.push(chars[i]);
            }
            i += 1;
        }
        proof {
            assert(chars@.take(i as int) =~= chars@);
        }
        self.query = query;
        self.filter();
    }

    /// Removes the last character of the query.
    pub fn erase(&mut self)
        requires
            old(self).wf(),
        ensures
            final(self).wf(),
            final(self)@ == old(self)@.with_query(
                if old(self)@.query.len() == 0 {
                    old(self)@.query
                } else {
                    old(self)@.query.drop_last()
                },
            ),
    {
        let mut query = self.query.clone();
        let _ = query.pop();
        self.query = query;
        self.filter();
    }

    /// The text of the search field.
    pub fn field_text(&self) -> (r: String)
        ensures
            r@ == field_text(self@.prompt, self@.query),
    {
        let mut out = self.prompt.clone();
        if self.query.as_str().is_empty() {
            out.append("Type to search...");
        } else {
            out.append(self.query.as_str());
        }
        out
    }

    /// The labels of the list: the search field, the rows that are drawn, and a notice where
    /// there are none. `rows` gives for each row where it is drawn, if at all.
    pub fn own_labels(&self, rows: &Vec<Option<i64>>) -> (r: Vec<TextLabel>)
        requires
            rows@.len() == self.filtered_items@.len(),
        ensures
            label_models(r@) == labels_of(self@, rows@),
    {
        let mut out: Vec<TextLabel> = Vec::new();
        let x: i128 = self.x as i128 + PAD + 10 * PX;
        out.push(
            TextLabel {
                text: self.field_text(),
                x,
                y: self.y as i128 + PAD + 9 * PX,
                font_size: 14 * PX,
                color: if self.query.as_str().is_empty() {
                    Rgb { r: 0x66, g: 0x66, b: 0x77 }
                } else {
                    Rgb { r: 0xcc, g: 0xff, b: 0xcc }
                },
            },
        );
        let ghost m = self@;
        let mut i: usize = 0;
        while i < self.filtered_items.len()
            invariant
                i <= self.filtered_items@.len() == rows@.len(),
                m == self@,
                x == self.x + PAD + 10 * PX,
                label_models(out@) =~= seq![field_label(m)] + row_labels(m, rows@, i as int),
            decreases self.filtered_items@.len() - i,
        {
            if let Some(y) = rows[i] {
                let label = TextLabel {
                    text: self.filtered_items[i].clone(),
                    x,
                    y: y as i128 + 4 * PX,
                    font_size: 13 * PX,
                    color: if i == self.selected {
                        Rgb { r: 0xff, g: 0xff, b: 0xff }
                    } else {
                        Rgb { r: 0xbb, g: 0xbb, b: 0xc5 }
                    },
                };
                let ghost before = label_models(out@);
                out.push(label);
                proof {
                    assert(label_models(out@) =~= before.push(label@));
                }
            }
            i += 1;
        }
        if self.filtered_items.len() == 0 {
            let label = TextLabel {
                text: owned("No matches found"),
                x,
                y: self.y as i128 + LIST_TOP + 4 * PX,
                font_size: 13 * PX,
                color: Rgb { r: 0x88, g: 0x88, b: 0x99 },
            };
            let ghost before = label_models(out@);
            out.push(label);
            proof {
                assert(label_models(out@) =~= before.push(label@));
            }
        }
        out
    }

    /// The area of the search field.
    pub fn search_field(&self) -> (r: Rect)
        ensures
            r.x == self.x + PAD,
            r.y == self.y + PAD,
            r.w == self.w - 2 * PAD,
            r.h == SEARCH,
    {
        Rect {
            x: self.x as i128 + PAD,
            y: self.y as i128 + PAD,
            w: self.w as i128 - 2 * PAD,
            h: SEARCH,
        }
    }

    /// The four edges of the search field, each a pixel wide: top, bottom, left, right.
    pub fn search_border(&self) -> (r: Vec<Rect>)
        ensures
            r@.len() == 4,
            r@[0] == (Rect {
                x: (self.x + PAD) as i128,
                y: (self.y + PAD) as i128,
                w: (self.w - 2 * PAD) as i128,
                h: PX,
            }),
            r@[1] == (Rect {
                x: (self.x + PAD) as i128,
                y: (self.y + PAD + SEARCH - PX) as i128,
                w: (self.w - 2 * PAD) as i128,
                h: PX,
            }),
            r@[2] == (Rect {
                x: (self.x + PAD) as i128,
                y: (self.y + PAD) as i128,
                w: PX,
                h: SEARCH,
            }),
            r@[3] == (Rect {
                x: (self.x + PAD + self.w - 2 * PAD - PX) as i128,
                y: (self.y + PAD) as i128,
                w: PX,
                h: SEARCH,
            }),
    {
        let f = self.search_field();
        let mut out: Vec<Rect> = Vec::new();
        out.push(Rect { x: f.x, y: f.y, w: f.w, h: PX });
        out.push(Rect { x: f.x, y: f.y + f.h - PX, w: f.w, h: PX });
        out.push(Rect { x: f.x, y: f.y, w: PX, h: f.h });
        out.push(Rect { x: f.x + f.w - PX, y: f.y, w: PX, h: f.h });
        out
    }

    /// The area of the highlight of the selected row, which is drawn at `draw_y`: it leaves
    /// room for the scroll bar where there is one.
    pub fn highlight(&self, draw_y: i64) -> (r: Option<Rect>)
        ensures
            match r {
                Some(a) => self@.filtered_items.len() > 0 && a.x == self.x + PAD + 2 * PX && a.y
                    == draw_y && a.w == self.w - 2 * PAD - 4 * PX - (if self@.content_h
                    > self@.viewport_h {
                    10 * PX
                } else {
                    0
                }) && a.h == ROW - 2 * PX,
                None => self@.filtered_items.len() == 0,
            },
    {
        if self.filtered_items.len() == 0 {
            return None;
        }
        let bar: i128 = if self.scroll_box.content_h > self.scroll_box.viewport_h {
            10 * PX
        } else {
            0
        };
        Some(
            Rect {
                x: self.x as i128 + PAD + 2 * PX,
                y: draw_y as i128,
                w: self.w as i128 - 2 * PAD - 4 * PX - bar,
                h: ROW - 2 * PX,
            },
        )
    }
}

/// The row at a height; what lies above the list counts as the first row.
pub open spec fn row_at(m: FuzzelModel, py: int) -> int {
    let v = py - m.viewport_y + m.scroll_y;
    if v < 0 {
        0
    } else {
        v / ROW as int
    }
}

/// The row that lies `next` rows ahead of the selection and `prev` rows back, around the
/// ends.
pub open spec fn cycled(m: FuzzelModel, next: int, prev: int) -> int {
    (m.selected + next - prev) % (m.filtered_items.len() as int)
}

proof fn lemma_euclid(a: int, n: int)
    requires
        n > 0,
    ensures
        0 <= a % n < n,
        a < 0 && (-a) % n == 0 ==> a % n == 0,
        a < 0 && (-a) % n != 0 ==> a % n == n - (-a) % n,
{
    vstd::arithmetic::div_mod::lemma_fundamental_div_mod(a, n);
    vstd::arithmetic::div_mod::lemma_mod_bound(a, n);
    vstd::arithmetic::div_mod::lemma_mod_bound(-a, n);
    vstd::arithmetic::div_mod::lemma_fundamental_div_mod(-a, n);
    let m = (-a) % n;
    let q = (-a) / n;
    if m == 0 {
        assert(a == n * (-q)) by (nonlinear_arith)
            requires
                -a == n * q,
        ;
        vstd::arithmetic::div_mod::lemma_fundamental_div_mod_converse(a, n, -q, 0);
    } else {
        assert(a == n * (-q - 1) + (n - m)) by (nonlinear_arith)
            requires
                -a == n * q + m,
        ;
        vstd::arithmetic::div_mod::lemma_fundamental_div_mod_converse(a, n, -q - 1, n - m);
    }
}

// ---------------------------------------------------------------------------------------
// Laws
// ---------------------------------------------------------------------------------------

/// After the list has been scrolled to the selected row, that row is in view as a whole,
/// provided that a row fits.
pub proof fn law_selected_row_in_view(m: FuzzelModel)
    requires
        0 <= m.selected < m.filtered_items.len(),
        m.list_h() >= ROW,
    ensures
        m.snapped().scroll_y <= m.selected * ROW,
        (m.selected + 1) * ROW <= m.snapped().scroll_y + m.list_h(),
{
    assert((m.selected + 1) * ROW == m.selected * ROW + ROW) by (nonlinear_arith);
    assert((m.selected + 1) * ROW <= m.filtered_items.len() * ROW) by (nonlinear_arith)
        requires
            m.selected < m.filtered_items.len(),
            ROW > 0,
    ;
    assert(0 <= m.selected * ROW) by (nonlinear_arith)
        requires
            0 <= m.selected,
            ROW > 0,
    ;
}

/// The list is never scrolled past its ends.
pub proof fn law_scroll_within_content(m: FuzzelModel)
    requires
        m.filtered_items.len() > 0,
    ensures
        0 <= m.snapped().scroll_y <= m.max_scroll(),
{
}

/// Scrolling to the selected row twice is scrolling to it once.
pub proof fn law_snapping_twice(m: FuzzelModel)
    requires
        m.selection_valid(),
        m.list_h() >= ROW,
    ensures
        m.snapped().snapped() == m.snapped(),
{
    if m.filtered_items.len() > 0 {
        law_selected_row_in_view(m);
        assert((m.selected + 1) * ROW == m.selected * ROW + ROW) by (nonlinear_arith);
    }
}

/// Going back one row around the ends undoes going forward one row.
pub proof fn law_cycle_back_undoes_forward(m: FuzzelModel)
    requires
        m.filtered_items.len() > 0,
        m.selection_valid(),
    ensures
        cycled(m.selecting(cycled(m, 1, 0)), 0, 1) == m.selected,
        cycled(m.selecting(cycled(m, 0, 1)), 1, 0) == m.selected,
{
    let n = m.filtered_items.len() as int;
    let s = m.selected;
    if s + 1 == n {
        assert((s + 1) % n == 0) by (nonlinear_arith)
            requires
                s + 1 == n,
                n > 0,
        ;
        assert((0 - 1) % n == n - 1) by {
            lemma_euclid(-1, n);
            if n > 1 {
                vstd::arithmetic::div_mod::lemma_small_mod(1, n as nat);
            } else {
                assert(1int % n == 0) by (nonlinear_arith)
                    requires
                        n == 1,
                ;
            }
        }
    } else {
        vstd::arithmetic::div_mod::lemma_small_mod((s + 1) as nat, n as nat);
        vstd::arithmetic::div_mod::lemma_small_mod(s as nat, n as nat);
    }
    if s == 0 {
        assert((0 - 1) % n == n - 1) by {
            lemma_euclid(-1, n);
            if n > 1 {
                vstd::arithmetic::div_mod::lemma_small_mod(1, n as nat);
            } else {
                assert(1int % n == 0) by (nonlinear_arith)
                    requires
                        n == 1,
                ;
            }
        }
        assert(n % n == 0) by (nonlinear_arith)
            requires
                n > 0,
        ;
    } else {
        vstd::arithmetic::div_mod::lemma_small_mod((s - 1) as nat, n as nat);
        vstd::arithmetic::div_mod::lemma_small_mod(s as nat, n as nat);
    }
}

/// Whatever the items and the query are, the selection points at a shown item afterwards,
/// or nowhere where none is shown.
pub proof fn law_refiltering_keeps_selection_valid(m: FuzzelModel)
    requires
        0 <= m.selected,
    ensures
        m.refiltered().selection_valid(),
        m.refiltered().filtered_items == ranked(m.all_items, m.query),
{
}

/// An empty query shows every item.
pub proof fn law_empty_query_shows_all(m: FuzzelModel)
    ensures
        m.with_query(Seq::<char>::empty()).filtered_items == m.all_items,
{
}

/// A text without control codes is printable as it is.
pub proof fn law_plain_text_is_printable(t: Seq<char>)
    requires
        forall|i: int| 0 <= i < t.len() ==> !control_code(#[trigger] t[i]),
    ensures
        printable(t) == t,
    decreases t.len(),
{
    if t.len() > 0 {
        let head = t.drop_last();
        assert(t.last() == t[t.len() - 1]);
        assert forall|i: int| 0 <= i < head.len() implies !control_code(#[trigger] head[i]) by {
            assert(head[i] == t[i]);
        }
        law_plain_text_is_printable(head);
        assert(head.push(t.last()) =~= t);
    }
}

/// A control code within a text goes, and the rest of the text stays.
pub proof fn law_control_codes_go(a: Seq<char>, c: char, b: Seq<char>)
    requires
        control_code(c),
    ensures
        printable(a + seq![c] + b) == printable(a + b),
    decreases b.len(),
{
    let s = a + seq![c] + b;
    if b.len() == 0 {
        assert(s.drop_last() =~= a);
        assert(a + b =~= a);
    } else {
        assert(s.drop_last() =~= a + seq![c] + b.drop_last());
        assert((a + b).drop_last() =~= a + b.drop_last());
        law_control_codes_go(a, c, b.drop_last());
    }
}

/// A row is 25 pixels high: the row under a pointer is the one between whose edges it lies,
/// and above the list it is the first.
pub proof fn law_row_under_pointer(m: FuzzelModel, py: int, row: int)
    requires
        0 <= row,
    ensures
        row * 25 * PX <= py - m.viewport_y + m.scroll_y < (row + 1) * 25 * PX ==> row_at(m, py)
            == row,
        py - m.viewport_y + m.scroll_y < 0 ==> row_at(m, py) == 0,
{
    let v = py - m.viewport_y + m.scroll_y;
    if row * 25 * PX <= v < (row + 1) * 25 * PX {
        assert(v / 25_600 == row) by (nonlinear_arith)
            requires
                row * 25_600 <= v < row * 25_600 + 25_600,
        ;
    }
}

/// Steps ahead and steps back move the selection by their difference, a whole number of
/// turns around the list taken off, to a row that is shown.
pub proof fn law_steps_move_by_difference(m: FuzzelModel, next: int, prev: int) -> (turns: int)
    requires
        m.filtered_items.len() > 0,
    ensures
        0 <= cycled(m, next, prev) < m.filtered_items.len(),
        m.selected + next - prev == cycled(m, next, prev) + turns * m.filtered_items.len(),
{
    let n = m.filtered_items.len() as int;
    let d = m.selected + next - prev;
    vstd::arithmetic::div_mod::lemma_fundamental_div_mod(d, n);
    vstd::arithmetic::div_mod::lemma_mod_bound(d, n);
    assert(n * (d / n) == (d / n) * n) by (nonlinear_arith);
    d / n
}

/// Selecting a row selects it, and changes neither the items nor the query nor the place of
/// the list. Where the row is in view already, the list is not scrolled.
pub proof fn law_selecting_a_row(m: FuzzelModel, row: int)
    requires
        0 <= row < m.filtered_items.len(),
    ensures
        ({
            let n = m.selecting(row);
            let view = m.h - 75 * PX;
            &&& n.selected == row
            &&& n.filtered_items == m.filtered_items
            &&& n.all_items == m.all_items
            &&& n.query == m.query && n.prompt == m.prompt
            &&& n.x == m.x && n.y == m.y && n.w == m.w && n.h == m.h && n.area == m.area
            &&& n.content_h == 25 * PX * m.filtered_items.len()
            &&& n.viewport_y == m.y + 60 * PX
            &&& n.viewport_h == view
            &&& 0 <= m.scroll_y && m.scroll_y + view <= 25 * PX * m.filtered_items.len()
                && m.scroll_y <= 25 * PX * row && 25 * PX * row + 25 * PX <= m.scroll_y + view
                ==> n.scroll_y == m.scroll_y
            &&& 0 <= 25 * PX * row < m.scroll_y && view >= 25 * PX && 25 * PX * row + view <= 25 * PX
                * m.filtered_items.len() ==> n.scroll_y == 25 * PX * row
            &&& 25 * PX * row + 25 * PX > m.scroll_y + view && m.scroll_y >= 0 && view >= 25 * PX
                ==> n.scroll_y == 25 * PX * row + 25 * PX - view
        }),
{
    let n = m.filtered_items.len() as int;
    assert(row * ROW == 25_600 * row) by (nonlinear_arith)
        requires
            ROW == 25_600,
    ;
    assert(n * ROW == 25_600 * n) by (nonlinear_arith)
        requires
            ROW == 25_600,
    ;
    assert(25_600 * row + 25_600 <= 25_600 * n);
}

/// A new query shows what matches it. The selection stays where it is while there is a row,
/// and else moves to the last row.
pub proof fn law_query_shows_matches(m: FuzzelModel, query: Seq<char>)
    ensures
        m.with_query(query).query == query,
        m.with_query(query).all_items == m.all_items,
        m.with_query(query).prompt == m.prompt,
        m.with_query(query).filtered_items == ranked(m.all_items, query),
        m.selected < ranked(m.all_items, query).len() ==> m.with_query(query).selected == m.selected,
        0 < ranked(m.all_items, query).len() <= m.selected ==> m.with_query(query).selected == ranked(
            m.all_items,
            query,
        ).len() - 1,
        ranked(m.all_items, query).len() == 0 <= m.selected ==> m.with_query(query).selected == 0,
{
}

/// New items are shown as far as they match the query, which stays. The selection stays
/// where it is while there is a row, and else moves to the last row.
pub proof fn law_items_shown_if_matching(m: FuzzelModel, items: Seq<Seq<char>>)
    ensures
        m.with_items(items).query == m.query,
        m.with_items(items).all_items == items,
        m.with_items(items).prompt == m.prompt,
        m.with_items(items).filtered_items == ranked(items, m.query),
        m.selected < ranked(items, m.query).len() ==> m.with_items(items).selected == m.selected,
        0 < ranked(items, m.query).len() <= m.selected ==> m.with_items(items).selected == ranked(
            items,
            m.query,
        ).len() - 1,
        ranked(items, m.query).len() == 0 <= m.selected ==> m.with_items(items).selected == 0,
{
}

proof fn lemma_row_labels(m: FuzzelModel, rows: Seq<Option<i64>>, n: int)
    requires
        0 <= n <= rows.len(),
        forall|i: int| 0 <= i < n ==> (#[trigger] rows[i]) is Some,
    ensures
        row_labels(m, rows, n).len() == n,
        forall|i: int|
            0 <= i < n ==> (#[trigger] row_labels(m, rows, n)[i]) == (LabelModel {
                text: m.filtered_items[i],
                x: m.x + 25 * PX,
                y: rows[i]->0 + 4 * PX,
                font_size: 13 * PX,
                color: if m.selected == i {
                    Rgb { r: 0xff, g: 0xff, b: 0xff }
                } else {
                    Rgb { r: 0xbb, g: 0xbb, b: 0xc5 }
                },
            }),
    decreases n,
{
    if n > 0 {
        lemma_row_labels(m, rows, n - 1);
        assert(rows[n - 1] is Some);
        let head = row_labels(m, rows, n - 1);
        assert forall|i: int| 0 <= i < n implies (#[trigger] row_labels(m, rows, n)[i]) == (
        LabelModel {
            text: m.filtered_items[i],
            x: m.x + 25 * PX,
            y: rows[i]->0 + 4 * PX,
            font_size: 13 * PX,
            color: if m.selected == i {
                Rgb { r: 0xff, g: 0xff, b: 0xff }
            } else {
                Rgb { r: 0xbb, g: 0xbb, b: 0xc5 }
            },
        }) by {
            if i < n - 1 {
                assert(row_labels(m, rows, n)[i] == head[i]);
            }
        }
    }
}

/// Where all rows are drawn, the labels are the search field and behind it the shown items
/// in their order, the selected one in white and the others in grey. The search field shows
/// the prompt and the query, or a hint in place of an empty query.
pub proof fn law_every_row_is_labelled(m: FuzzelModel, rows: Seq<Option<i64>>, i: int)
    requires
        rows.len() == m.filtered_items.len(),
        forall|j: int| 0 <= j < rows.len() ==> (#[trigger] rows[j]) is Some,
        0 <= i < rows.len(),
    ensures
        labels_of(m, rows).len() == rows.len() + 1,
        labels_of(m, rows)[0].text == m.prompt + (if m.query.len() == 0 {
            "Type to search..."@
        } else {
            m.query
        }),
        labels_of(m, rows)[i + 1].text == m.filtered_items[i],
        labels_of(m, rows)[i + 1].y == rows[i]->0 + 4 * PX,
        labels_of(m, rows)[i + 1].color == (Rgb { r: 0xff, g: 0xff, b: 0xff }) <==> m.selected == i,
{
    lemma_row_labels(m, rows, rows.len() as int);
    let listed = row_labels(m, rows, rows.len() as int);
    assert(labels_of(m, rows)[i + 1] == listed[i]);
}

/// Where nothing matches, the list says so below the search field.
pub proof fn law_empty_list_says_so(m: FuzzelModel, rows: Seq<Option<i64>>)
    requires
        m.filtered_items.len() == 0,
    ensures
        labels_of(m, rows).len() == 2,
        labels_of(m, rows)[1].text == "No matches found"@,
{
    assert(row_labels(m, rows, 0).len() == 0);
}

/// A new list has its prompt, an empty query and no items, and stands at its beginning.
pub proof fn law_new_list_is_empty(prompt: Seq<char>)
    ensures
        empty_list(prompt).prompt == prompt,
        empty_list(prompt).query.len() == 0,
        empty_list(prompt).all_items.len() == 0 && empty_list(prompt).filtered_items.len() == 0,
        empty_list(prompt).selected == 0 && empty_list(prompt).scroll_y == 0,
        empty_list(prompt).selected_item() is None,
{
}

} // verus!
