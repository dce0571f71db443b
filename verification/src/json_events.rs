//! What events do to a page of controls. An event is handed to the controls first; what they
//! reply decides, with the state of the page, what follows.

use vstd::prelude::*;
use crate::json_layout::find_kind;
use crate::json_layout::laid_out;
use crate::json_layout::law_names_of_kinds;
use crate::json_layout::JsonControl;
use crate::json_layout::JsonLayoutWidget;
use crate::json_layout::JsonWidget;
use crate::json_layout::Justification;
use crate::json_layout::Kind;
use crate::json_layout::LayoutModel;
use crate::json_layout::Metrics;
use crate::json_layout::WidgetModel;
use crate::json_layout::PAGES;

verus! {

/// A key, as far as scrolling goes.
#[derive(Clone, Copy, Debug, PartialEq, Eq, Structural)]
pub enum ScrollKey {
    PageDown,
    PageUp,
    Home,
    End,
    ArrowDown,
    ArrowUp,
    Other,
}

/// An event, as far as the page decides about it.
#[derive(Clone, Copy, Debug, PartialEq, Eq, Structural)]
pub enum LayoutEvent {
    /// The pointer enters the page.
    Enter,
    /// The pointer moves.
    Move { x: i64, y: i64 },
    /// A button of the pointer is pressed or released.
    Button { left: bool, pressed: bool, x: i64, y: i64 },
    /// The wheel turns.
    Wheel { x: i64, y: i64 },
    /// A key is pressed or released.
    Key { pressed: bool, key: ScrollKey },
    /// Time passes.
    Tick,
    /// Anything else.
    Other,
}

/// What the controls reply to an event.
#[derive(Debug)]
pub struct Replies {
    /// Whether the slider that is dragged moved.
    pub dragged: bool,
    /// Whether each control handled the event.
    pub handled: Vec<bool>,
    /// Whether the event clicked each control.
    pub clicked: Vec<bool>,
}

impl Replies {
    /// There is a reply from each of `n` controls.
    pub open spec fn of(&self, n: nat) -> bool {
        self.handled@.len() == n && self.clicked@.len() == n
    }
}

/// Whether a number lies in an interval, its ends included.
fn within(p: i64, from: i128, len: i128) -> (r: bool)
    ensures
        r == (from <= p <= from + len),
{
    if from > p as i128 || len < 0 {
        false
    } else if from > 0 && len > i128::MAX - from {
        true
    } else {
        p as i128 <= from + len
    }
}

impl JsonWidget {
    /// Whether a point lies in the row of the control, its edges included.
    pub fn covers(&self, px: i64, py: i64) -> (r: bool)
        ensures
            r == self@.hit(px as int, py as int),
    {
        within(px, self.x, self.w) && within(py, self.y, self.h)
    }
}

// ---------------------------------------------------------------------------------------
// Who gets an event
// ---------------------------------------------------------------------------------------

/// The controls among the first `n` that an event is handed to: all of the active page but
/// the checkboxes, which the page itself looks after.
pub open spec fn receivers_among(l: LayoutModel, n: int) -> Seq<usize>
    decreases n,
{
    if n <= 0 {
        Seq::empty()
    } else if l.widgets[n - 1].page == l.active && l.widgets[n - 1].kind() != Kind::Checkbox {
        receivers_among(l, n - 1).push((n - 1) as usize)
    } else {
        receivers_among(l, n - 1)
    }
}

/// The controls that an event is handed to. That the pointer enters the page is news to no
/// control.
pub open spec fn receivers_of(l: LayoutModel, e: LayoutEvent) -> Seq<usize> {
    if e is Enter {
        Seq::empty()
    } else {
        receivers_among(l, l.widgets.len() as int)
    }
}

/// The slider that an event drags, or lets go.
pub open spec fn drag_target_of(l: LayoutModel, e: LayoutEvent) -> Option<usize> {
    match l.dragging {
        Some(i) => if i < l.widgets.len() && match e {
            LayoutEvent::Move { .. } => true,
            LayoutEvent::Button { left, pressed, .. } => left && !pressed,
            _ => false,
        } {
            Some(i)
        } else {
            None
        },
        None => None,
    }
}

/// A control gets an event exactly where it is on the active page and no checkbox.
pub proof fn law_receivers(l: LayoutModel, n: int, i: int)
    requires
        0 <= i < n <= l.widgets.len() <= usize::MAX,
    ensures
        receivers_among(l, n).contains(i as usize) == (l.widgets[i].page == l.active
            && l.widgets[i].kind() != Kind::Checkbox),
    decreases n,
{
    let before = receivers_among(l, n - 1);
    let all = receivers_among(l, n);
    lemma_receivers_below(l, n - 1);
    if i < n - 1 {
        law_receivers(l, n - 1, i);
        if before.contains(i as usize) {
            let k = choose|k: int| 0 <= k < before.len() && before[k] == i as usize;
            assert(all[k] == i as usize);
        }
    } else if all.len() > before.len() {
        assert(all[before.len() as int] == i as usize);
    }
}

proof fn lemma_receivers_below(l: LayoutModel, n: int)
    requires
        0 <= n <= l.widgets.len() <= usize::MAX,
    ensures
        forall|k: int| 0 <= k < receivers_among(l, n).len() ==> #[trigger] receivers_among(l, n)[k]
            < n,
    decreases n,
{
    if n > 0 {
        lemma_receivers_below(l, n - 1);
        let before = receivers_among(l, n - 1);
        let all = receivers_among(l, n);
        assert forall|k: int| 0 <= k < all.len() implies #[trigger] all[k] < n by {
            if k < before.len() {
                assert(before[k] < n - 1);
            }
        }
    }
}

impl JsonLayoutWidget {
    /// The controls that an event is handed to, in order.
    pub fn receivers(&self, e: LayoutEvent) -> (r: Vec<usize>)
        ensures
            r@ == receivers_of(self@, e),
    {
        let mut out: Vec<usize> = Vec::new();
        if let LayoutEvent::Enter = e {
            return out;
        }
        let n = self.widgets.len();
        let mut i: usize = 0;
        while i < n
            invariant
                i <= n,
                n == self.widgets@.len(),
                out@ == receivers_among(self@, i as int),
            decreases n - i,
        {
            if self.widgets[i].page_idx == self.active_page && find_kind(
                self.widgets[i].widget_type.as_str(),
            ) != Kind::Checkbox {
                out.push(i);
            }
            i += 1;
        }
        out
    }

    /// The slider that an event drags, or lets go.
    pub fn drag_target(&self, e: LayoutEvent) -> (r: Option<usize>)
        ensures
            r == drag_target_of(self@, e),
    {
        match self.dragging_slider_idx {
            Some(i) => {
                let drags = match e {
                    LayoutEvent::Move { .. } => true,
                    LayoutEvent::Button { left, pressed, .. } => left && !pressed,
                    _ => false,
                };
                if i < self.widgets.len() && drags {
                    Some(i)
                } else {
                    None
                }
            },
            None => None,
        }
    }
}

// ---------------------------------------------------------------------------------------
// Controls
// ---------------------------------------------------------------------------------------

/// A checkbox with the opposite state; another control as it is.
pub open spec fn toggled(c: JsonControl) -> JsonControl {
    match c {
        JsonControl::Checkbox { checked, hovered } => JsonControl::Checkbox {
            checked: !checked,
            hovered,
        },
        _ => c,
    }
}

/// A checkbox that the pointer is on or not; another control as it is.
pub open spec fn hovering(c: JsonControl, on: bool) -> JsonControl {
    match c {
        JsonControl::Checkbox { checked, .. } => JsonControl::Checkbox { checked, hovered: on },
        _ => c,
    }
}

/// A checkbox of the active page after an event: it knows whether the pointer is on its row,
/// and a left click that is released there toggles it.
pub open spec fn checkbox_after(w: WidgetModel, e: LayoutEvent) -> JsonControl {
    match e {
        LayoutEvent::Move { x, y } => hovering(w.control, w.hit(x as int, y as int)),
        LayoutEvent::Button { left, pressed, x, y } => if left && !pressed && w.hit(
            x as int,
            y as int,
        ) {
            toggled(w.control)
        } else {
            w.control
        },
        _ => w.control,
    }
}

/// Whether an event changes a checkbox of the active page, or presses it.
pub open spec fn checkbox_changes(w: WidgetModel, e: LayoutEvent) -> bool {
    match e {
        LayoutEvent::Move { x, y } => hovering(w.control, w.hit(x as int, y as int)) != w.control,
        LayoutEvent::Button { left, x, y, .. } => left && w.hit(x as int, y as int),
        _ => false,
    }
}

/// Whether a control leads to another page, now that it may have been clicked.
pub open spec fn jumps(l: LayoutModel, r: Replies, i: int) -> bool {
    &&& l.widgets[i].page == l.active
    &&& l.widgets[i].kind() == Kind::Button
    &&& l.widgets[i].target is Some
    &&& l.widgets[i].control.latched(r.clicked@[i]).has_click()
}

/// The state of a control after an event. A click on a button that leads to a page is used
/// up by the jump; every other click waits.
pub open spec fn control_after(l: LayoutModel, e: LayoutEvent, r: Replies, i: int) -> JsonControl {
    let w = l.widgets[i];
    if w.page != l.active {
        w.control
    } else if w.kind() == Kind::Checkbox {
        checkbox_after(w, e)
    } else if w.kind() == Kind::Button && w.target is Some {
        w.control.latched(r.clicked@[i]).drained()
    } else {
        w.control.latched(r.clicked@[i])
    }
}

/// Whether an event changes what a control shows.
pub open spec fn control_changes(l: LayoutModel, e: LayoutEvent, r: Replies, i: int) -> bool {
    let w = l.widgets[i];
    w.page == l.active && if w.kind() == Kind::Checkbox {
        checkbox_changes(w, e)
    } else {
        r.handled@[i]
    }
}

/// Whether an event changes what one of the first `n` controls shows.
pub open spec fn some_control_changes(l: LayoutModel, e: LayoutEvent, r: Replies, n: int) -> bool {
    exists|i: int| 0 <= i < n && #[trigger] control_changes(l, e, r, i)
}

/// The page to which the last jump among the first `n` controls leads.
pub open spec fn jump_among(l: LayoutModel, r: Replies, n: int) -> Option<usize>
    decreases n,
{
    if n <= 0 {
        None
    } else if jumps(l, r, n - 1) {
        l.widgets[n - 1].target
    } else {
        jump_among(l, r, n - 1)
    }
}

/// Whether an event takes hold of a slider.
pub open spec fn grabs(l: LayoutModel, e: LayoutEvent, i: int) -> bool {
    &&& l.widgets[i].page == l.active
    &&& l.widgets[i].kind() == Kind::Slider
    &&& e matches LayoutEvent::Button { left, pressed, x, y }
    &&& left && pressed && l.widgets[i].hit(x as int, y as int)
}

/// The slider that is dragged after an event, as far as the first `n` controls go: the last
/// one that a press hits. A release of the left button lets go.
pub open spec fn dragging_after(l: LayoutModel, e: LayoutEvent, n: int) -> Option<usize>
    decreases n,
{
    if n <= 0 {
        match e {
            LayoutEvent::Button { left, pressed, .. } => if left && !pressed {
                None
            } else {
                l.dragging
            },
            _ => l.dragging,
        }
    } else if grabs(l, e, n - 1) {
        Some((n - 1) as usize)
    } else {
        dragging_after(l, e, n - 1)
    }
}

/// Whether an event changes the slider that is dragged.
pub open spec fn drag_changes(l: LayoutModel, e: LayoutEvent, r: Replies) -> bool {
    drag_target_of(l, e) is Some && (r.dragged || e is Button)
}

/// A control in another state.
pub open spec fn with_control(w: WidgetModel, c: JsonControl) -> WidgetModel {
    WidgetModel { control: c, ..w }
}

/// The layout with the controls and the drag as an event leaves them.
pub open spec fn after_controls(l: LayoutModel, e: LayoutEvent, r: Replies) -> LayoutModel {
    LayoutModel {
        widgets: Seq::new(
            l.widgets.len(),
            |i: int| with_control(l.widgets[i], control_after(l, e, r, i)),
        ),
        dragging: dragging_after(l, e, l.widgets.len() as int),
        ..l
    }
}

/// The layout after an event, apart from scrolling. A jump shows another page.
pub open spec fn routed(l: LayoutModel, e: LayoutEvent, r: Replies, m: Metrics) -> LayoutModel {
    if e is Enter {
        l
    } else {
        match jump_among(l, r, l.widgets.len() as int) {
            Some(page) => laid_out(
                LayoutModel { active: page as int, ..after_controls(l, e, r) },
                m,
            ),
            None => after_controls(l, e, r),
        }
    }
}

/// Whether an event changes what is shown, apart from scrolling.
pub open spec fn route_changes(l: LayoutModel, e: LayoutEvent, r: Replies) -> bool {
    !(e is Enter) && {
        ||| drag_changes(l, e, r)
        ||| some_control_changes(l, e, r, l.widgets.len() as int)
        ||| jump_among(l, r, l.widgets.len() as int) is Some
    }
}

/// What an event has done so far.
#[derive(Clone, Copy, Debug, PartialEq, Eq, Structural)]
pub struct Routed {
    /// Whether what is shown has changed.
    pub changed: bool,
    /// The page that was active before the event. Scrolling is its business.
    pub page: usize,
}

fn toggle(c: JsonControl) -> (r: JsonControl)
    ensures
        r == toggled(c),
{
    match c {
        JsonControl::Checkbox { checked, hovered } => JsonControl::Checkbox {
            checked: !checked,
            hovered,
        },
        _ => c,
    }
}

fn hover(c: JsonControl, on: bool) -> (r: JsonControl)
    ensures
        r == hovering(c, on),
{
    match c {
        JsonControl::Checkbox { checked, .. } => JsonControl::Checkbox { checked, hovered: on },
        _ => c,
    }
}

fn tell_checkbox(w: &JsonWidget, e: LayoutEvent) -> (r: (JsonControl, bool))
    ensures
        r.0 == checkbox_after(w@, e),
        r.1 == checkbox_changes(w@, e),
{
    match e {
        LayoutEvent::Move { x, y } => {
            let c = hover(w.widget, w.covers(x, y));
            (c, c != w.widget)
        },
        LayoutEvent::Button { left, pressed, x, y } => {
            let hit = left && w.covers(x, y);
            if hit && !pressed {
                (toggle(w.widget), true)
            } else {
                (w.widget, hit)
            }
        },
        _ => (w.widget, false),
    }
}

impl JsonLayoutWidget {
    fn set_control(&mut self, i: usize, c: JsonControl)
        requires
            old(self).wf(),
            i < old(self).widgets@.len(),
        ensures
            final(self).wf(),
            final(self).widgets@.len() == old(self).widgets@.len(),
            final(self)@ == (LayoutModel {
                widgets: old(self)@.widgets.update(
                    i as int,
                    with_control(old(self)@.widgets[i as int], c),
                ),
                ..old(self)@
            }),
    {
        let ghost before = self@.widgets;
        self.widgets[i].widget = c;
        proof {
            assert(self@.widgets =~= before.update(
                i as int,
                with_control(before[i as int], c),
            ));
        }
    }

    /// Lets an event and the replies of the controls take effect, apart from scrolling.
    pub fn route_event(&mut self, e: LayoutEvent, replies: &Replies, m: &Metrics) -> (r: Routed)
        requires
            old(self).wf(),
            replies.of(old(self).widgets@.len()),
            m.label_strips@.len() == old(self).widgets@.len(),
        ensures
            final(self).wf(),
            final(self).widgets@.len() == old(self).widgets@.len(),
            final(self)@ == routed(old(self)@, e, *replies, *m),
            r.changed == route_changes(old(self)@, e, *replies),
            r.page == old(self).active_page,
    {
        let page = self.active_page;
        if let LayoutEvent::Enter = e {
            return Routed { changed: false, page };
        }
        let ghost l = self@;
        let n = self.widgets.len();
        let mut changed = false;
        if let Some(_) = self.drag_target(e) {
            if let LayoutEvent::Button { .. } = e {
                changed = true;
            } else {
                changed = replies.dragged;
            }
        }
        proof {
            assert(changed == drag_changes(l, e, *replies));
        }
        let mut jump: Option<usize> = None;
        let mut dragging: Option<usize> = self.dragging_slider_idx;
        if let LayoutEvent::Button { left, pressed, .. } = e {
            if left && !pressed {
                dragging = None;
            }
        }
        let mut i: usize = 0;
        while i < n
            invariant
                i <= n,
                n == self.widgets@.len(),
                n == l.widgets.len(),
                self.wf(),
                replies.of(n as nat),
                page == l.active,
                !(e is Enter),
                changed == (drag_changes(l, e, *replies) || some_control_changes(
                    l,
                    e,
                    *replies,
                    i as int,
                )),
                jump == jump_among(l, *replies, i as int),
                dragging == dragging_after(l, e, i as int),
                self@ == (LayoutModel { widgets: self@.widgets, ..l }),
                forall|k: int|
                    0 <= k < i ==> #[trigger] self@.widgets[k] == with_control(
                        l.widgets[k],
                        control_after(l, e, *replies, k),
                    ),
                forall|k: int| i <= k < n ==> #[trigger] self@.widgets[k] == l.widgets[k],
            decreases n - i,
        {
            proof {
                assert(self@.widgets[i as int] == l.widgets[i as int]);
                assert(some_control_changes(l, e, *replies, i + 1) == (some_control_changes(
                    l,
                    e,
                    *replies,
                    i as int,
                ) || control_changes(l, e, *replies, i as int))) by {
                    if some_control_changes(l, e, *replies, i as int) {
                        let k = choose|k: int|
                            0 <= k < i && #[trigger] control_changes(l, e, *replies, k);
                        assert(0 <= k < i + 1 && control_changes(l, e, *replies, k));
                    }
                    if control_changes(l, e, *replies, i as int) {
                        assert(0 <= i < i + 1 && control_changes(l, e, *replies, i as int));
                    }
                }
            }
            let ghost before = self@;
            if self.widgets[i].page_idx == page {
                let kind = find_kind(self.widgets[i].widget_type.as_str());
                if kind == Kind::Checkbox {
                    let (c, differs) = tell_checkbox(&self.widgets[i], e);
                    self.set_control(i, c);
                    changed = changed || differs;
                } else {
                    if kind == Kind::Slider {
                        if let LayoutEvent::Button { left, pressed, x, y } = e {
                            if left && pressed && self.widgets[i].covers(x, y) {
                                dragging = Some(i);
                            }
                        }
                    }
                    changed = changed || replies.handled[i];
                    let mut c = self.widgets[i].widget;
                    c.latch(replies.clicked[i]);
                    if kind == Kind::Button && self.widgets[i].target_page.is_some() {
                        if c.take_click() {
                            jump = self.widgets[i].target_page;
                        }
                    }
                    self.set_control(i, c);
                }
            } else {
                proof {
                    assert(with_control(l.widgets[i as int], l.widgets[i as int].control)
                        == l.widgets[i as int]);
                }
            }
            i += 1;
        }
        self.dragging_slider_idx = dragging;
        proof {
            assert(self@.widgets =~= after_controls(l, e, *replies).widgets);
            assert(self@ == after_controls(l, e, *replies));
        }
        if let Some(target) = jump {
            self.active_page = target;
            self.layout_children(m);
            changed = true;
        }
        Routed { changed, page }
    }
}

// ---------------------------------------------------------------------------------------
// Scrolling
// ---------------------------------------------------------------------------------------

/// How a page is to be scrolled. No page is scrolled further than `max`.
#[derive(Clone, Copy, Debug, PartialEq, Eq, Structural)]
pub enum ScrollCommand {
    /// As far as the wheel says.
    Wheel { max: i128 },
    /// To a place.
    To { place: i128, max: i128 },
    /// By a distance from the place to which the page is on its way.
    By { distance: i128, max: i128 },
    /// By a line.
    Line { down: bool, max: i128 },
    /// Not at all; but the motion starts from where the page is drawn.
    Settle,
}

/// How an event scrolls a page that was active when it came. Only a page that is higher than
/// the area can be scrolled. The wheel has to be turned over the area.
pub open spec fn scroll_command_of(l: LayoutModel, e: LayoutEvent, page: int) -> Option<
    ScrollCommand,
> {
    let max = (l.totals[page] - l.h) as i128;
    if page >= PAGES || l.totals[page] <= l.h {
        None
    } else {
        match e {
            LayoutEvent::Wheel { x, y } => if l.x <= x <= l.x + l.w && l.y <= y <= l.y + l.h {
                Some(ScrollCommand::Wheel { max })
            } else {
                None
            },
            LayoutEvent::Key { pressed: true, key } => Some(
                match key {
                    ScrollKey::PageDown => ScrollCommand::By { distance: l.h as i128, max },
                    ScrollKey::PageUp => ScrollCommand::By { distance: (-l.h) as i128, max },
                    ScrollKey::Home => ScrollCommand::To { place: 0, max },
                    ScrollKey::End => ScrollCommand::To { place: max, max },
                    ScrollKey::ArrowDown => ScrollCommand::Line { down: true, max },
                    ScrollKey::ArrowUp => ScrollCommand::Line { down: false, max },
                    ScrollKey::Other => ScrollCommand::Settle,
                },
            ),
            _ => None,
        }
    }
}

/// What became of a scroll command, or of the motion of a page over time.
#[derive(Clone, Copy, Debug, PartialEq, Eq, Structural)]
pub struct ScrollReply {
    /// Whether the page moves, or will.
    pub moved: bool,
    /// Where the page is now.
    pub place: i64,
}

/// The layout with a page scrolled to a place. The rows follow where the page has moved.
pub open spec fn scrolled_to(l: LayoutModel, page: int, place: int, m: Metrics) -> LayoutModel {
    if l.scroll[page] == place {
        l
    } else {
        laid_out(LayoutModel { scroll: l.scroll.update(page, place), ..l }, m)
    }
}

/// The layout after a reply to a scroll command.
pub open spec fn after_scroll(l: LayoutModel, page: int, s: Option<ScrollReply>, m: Metrics) -> LayoutModel {
    match s {
        Some(s) => if page < PAGES {
            scrolled_to(l, page, s.place as int, m)
        } else {
            l
        },
        None => l,
    }
}

/// Whether one of the controls of a page changes as time passes.
pub open spec fn some_ticks(l: LayoutModel, page: int, ticked: Seq<bool>) -> bool {
    exists|i: int| 0 <= i < l.widgets.len() && l.widgets[i].page == page && #[trigger] ticked[i]
}

/// What an event has done.
#[derive(Clone, Copy, Debug, PartialEq, Eq, Structural)]
pub struct Outcome {
    /// Whether what is shown has changed.
    pub changed: bool,
    /// Whether the focus is to be taken away from every control.
    pub clear_focus: bool,
}

impl JsonLayoutWidget {
    /// How much of a page does not fit the area; a page too many counts as empty.
    pub fn page_scroll_bounds(&self, page: usize) -> (r: i128)
        requires
            self.wf(),
        ensures
            r == (if page < PAGES {
                self@.totals[page as int]
            } else {
                0
            }) - self@.h,
    {
        let total: i128 = if page < PAGES {
            self.page_total_heights[page]
        } else {
            0
        };
        total - self.h as i128
    }

    /// How an event scrolls a page that was active when it came.
    pub fn scroll_command(&self, e: LayoutEvent, page: usize) -> (r: Option<ScrollCommand>)
        requires
            self.wf(),
        ensures
            r == scroll_command_of(self@, e, page as int),
    {
        if page >= PAGES {
            return None;
        }
        let max: i128 = self.page_scroll_bounds(page);
        proof {
            assert(self@.totals[page as int] == self.page_total_heights@[page as int]);
        }
        if max <= 0 {
            return None;
        }
        match e {
            LayoutEvent::Wheel { x, y } => if within(x, self.x as i128, self.w as i128) && within(
                y,
                self.y as i128,
                self.h as i128,
            ) {
                Some(ScrollCommand::Wheel { max })
            } else {
                None
            },
            LayoutEvent::Key { pressed: true, key } => Some(
                match key {
                    ScrollKey::PageDown => ScrollCommand::By { distance: self.h as i128, max },
                    ScrollKey::PageUp => ScrollCommand::By { distance: -(self.h as i128), max },
                    ScrollKey::Home => ScrollCommand::To { place: 0, max },
                    ScrollKey::End => ScrollCommand::To { place: max, max },
                    ScrollKey::ArrowDown => ScrollCommand::Line { down: true, max },
                    ScrollKey::ArrowUp => ScrollCommand::Line { down: false, max },
                    ScrollKey::Other => ScrollCommand::Settle,
                },
            ),
            _ => None,
        }
    }

    /// Draws a page at another place. Says whether it has moved.
    pub fn sync_page_scroll(&mut self, page: usize, place: i64, m: &Metrics) -> (r: bool)
        requires
            old(self).wf(),
            page < PAGES,
            m.label_strips@.len() == old(self).widgets@.len(),
        ensures
            final(self).wf(),
            final(self).widgets@.len() == old(self).widgets@.len(),
            final(self)@ == scrolled_to(old(self)@, page as int, place as int, *m),
            r == (old(self)@.scroll[page as int] != place),
    {
        if self.page_scroll_y[page] == place {
            false
        } else {
            let ghost before = self@;
            self.page_scroll_y.set(page, place);
            proof {
                assert(self@.scroll =~= before.scroll.update(page as int, place as int));
            }
            self.layout_children(m);
            true
        }
    }

    fn any_ticked(&self, page: usize, ticked: &Vec<bool>) -> (r: bool)
        requires
            ticked@.len() == self.widgets@.len(),
        ensures
            r == some_ticks(self@, page as int, ticked@),
    {
        let n = self.widgets.len();
        let mut i: usize = 0;
        while i < n
            invariant
                i <= n,
                n == self.widgets@.len(),
                ticked@.len() == n,
                forall|k: int| 0 <= k < i && self@.widgets[k].page == page ==> !(#[trigger] ticked@[k]),
            decreases n - i,
        {
            if self.widgets[i].page_idx == page && ticked[i] {
                proof {
                    assert(self@.widgets[i as int].page == page && ticked@[i as int]);
                }
                return true;
            }
            i += 1;
        }
        false
    }

    /// Ends an event that has been routed: scrolls, looks at the controls that time has
    /// changed, and takes the focus away where a press changed nothing.
    pub fn finish_event(
        &mut self,
        e: LayoutEvent,
        routed: Routed,
        scroll: Option<ScrollReply>,
        ticked: &Vec<bool>,
        m: &Metrics,
    ) -> (r: Outcome)
        requires
            old(self).wf(),
            ticked@.len() == old(self).widgets@.len(),
            m.label_strips@.len() == old(self).widgets@.len(),
        ensures
            final(self).wf(),
            final(self)@ == after_scroll(old(self)@, routed.page as int, scroll, *m),
            r.changed == {
                ||| routed.changed
                ||| scroll matches Some(s) && s.moved
                ||| e is Tick && some_ticks(old(self)@, routed.page as int, ticked@)
            },
            r.clear_focus == (e matches LayoutEvent::Button { pressed, .. } && pressed
                && !r.changed),
    {
        let mut changed = routed.changed;
        if let LayoutEvent::Tick = e {
            if self.any_ticked(routed.page, ticked) {
                changed = true;
            }
        }
        if let Some(s) = scroll {
            changed = changed || s.moved;
            if routed.page < PAGES {
                self.sync_page_scroll(routed.page, s.place, m);
            }
        }
        let clear_focus = match e {
            LayoutEvent::Button { pressed, .. } => pressed && !changed,
            _ => false,
        };
        Outcome { changed, clear_focus }
    }

    /// Lets time pass for the active page: `scroll` is what became of its motion, if it is in
    /// motion. Says whether another frame is to be drawn.
    pub fn tick_children(&mut self, scroll: Option<ScrollReply>, ticked: &Vec<bool>, m: &Metrics) -> (r:
        bool)
        requires
            old(self).wf(),
            ticked@.len() == old(self).widgets@.len(),
            m.label_strips@.len() == old(self).widgets@.len(),
        ensures
            final(self).wf(),
            final(self)@ == after_scroll(old(self)@, old(self)@.active, scroll, *m),
            r == {
                ||| old(self)@.active < PAGES && (scroll matches Some(s) && s.moved)
                ||| some_ticks(old(self)@, old(self)@.active, ticked@)
            },
    {
        let page = self.active_page;
        let mut changed = self.any_ticked(page, ticked);
        if let Some(s) = scroll {
            if page < PAGES {
                changed = changed || s.moved;
                self.sync_page_scroll(page, s.place, m);
            }
        }
        changed
    }

    /// Takes the first click that waits, and says which button it was on.
    pub fn take_clicked_button(&mut self) -> (r: Option<String>)
        requires
            old(self).wf(),
        ensures
            final(self).wf(),
            final(self).widgets@.len() == old(self).widgets@.len(),
            match r {
                Some(id) => exists|i: int|
                    #![trigger old(self)@.widgets[i]]
                    {
                        &&& first_click(old(self)@, i)
                        &&& id@ == old(self)@.widgets[i].id
                        &&& final(self)@ == without_click(old(self)@, i)
                    },
                None => *final(self) == *old(self) && forall|i: int|
                    0 <= i < old(self)@.widgets.len() ==> !clicked_at(old(self)@, i),
            },
    {
        let n = self.widgets.len();
        let mut i: usize = 0;
        while i < n
            invariant
                i <= n,
                n == self.widgets@.len(),
                *self == *old(self),
                self.wf(),
                forall|k: int| 0 <= k < i ==> !clicked_at(self@, k),
            decreases n - i,
        {
            if find_kind(self.widgets[i].widget_type.as_str()) == Kind::Button {
                let mut c = self.widgets[i].widget;
                if c.take_click() {
                    let id = self.widgets[i].id.clone();
                    self.set_control(i, c);
                    proof {
                        assert(first_click(old(self)@, i as int));
                        assert(id@ == old(self)@.widgets[i as int].id);
                    }
                    return Some(id);
                }
            }
            proof {
                assert(!clicked_at(self@, i as int));
            }
            i += 1;
        }
        None
    }
}

/// Whether a click on a button waits.
pub open spec fn clicked_at(l: LayoutModel, i: int) -> bool {
    l.widgets[i].kind() == Kind::Button && l.widgets[i].control.has_click()
}

/// Whether a button is the first on which a click waits.
pub open spec fn first_click(l: LayoutModel, i: int) -> bool {
    &&& 0 <= i < l.widgets.len()
    &&& clicked_at(l, i)
    &&& forall|k: int| 0 <= k < i ==> !clicked_at(l, k)
}

/// The layout after the click on a button has been taken.
pub open spec fn without_click(l: LayoutModel, i: int) -> LayoutModel {
    LayoutModel {
        widgets: l.widgets.update(i, with_control(l.widgets[i], l.widgets[i].control.drained())),
        ..l
    }
}

// ---------------------------------------------------------------------------------------
// Laws
// ---------------------------------------------------------------------------------------

/// An event changes nothing on a page that is not shown.
pub proof fn law_hidden_pages_untouched(l: LayoutModel, e: LayoutEvent, r: Replies, i: int)
    requires
        0 <= i < l.widgets.len(),
        l.widgets[i].page != l.active,
    ensures
        after_controls(l, e, r).widgets[i] == l.widgets[i],
        !control_changes(l, e, r, i),
        !jumps(l, r, i),
        !grabs(l, e, i),
{
}

/// That the pointer enters the page changes nothing: no control learns of it.
pub proof fn law_enter_ignored(l: LayoutModel, r: Replies, m: Metrics)
    ensures
        routed(l, LayoutEvent::Enter, r, m) == l,
        !route_changes(l, LayoutEvent::Enter, r),
        receivers_of(l, LayoutEvent::Enter).len() == 0,
{
}

/// Two clicks on a checkbox bring it back to its first state.
pub proof fn law_checkbox_toggles_back(w: WidgetModel, x: i64, y: i64)
    ensures
        ({
            let click = LayoutEvent::Button { left: true, pressed: false, x, y };
            checkbox_after(with_control(w, checkbox_after(w, click)), click) == w.control
        }),
{
}

/// A release of the left button lets go of every slider.
pub proof fn law_release_ends_drag(l: LayoutModel, x: i64, y: i64, n: int)
    ensures
        dragging_after(l, LayoutEvent::Button { left: true, pressed: false, x, y }, n) is None,
    decreases n,
{
    if n > 0 {
        law_release_ends_drag(l, x, y, n - 1);
    }
}

/// A slider that is taken hold of is one of the active page, under the pointer.
pub proof fn law_drag_takes_slider_under_pointer(l: LayoutModel, e: LayoutEvent, n: int)
    requires
        0 <= n <= l.widgets.len() <= usize::MAX,
        l.dragging is None,
    ensures
        dragging_after(l, e, n) matches Some(i) ==> i < n && grabs(l, e, i as int),
    decreases n,
{
    if n > 0 {
        law_drag_takes_slider_under_pointer(l, e, n - 1);
    }
}

/// Every scroll command keeps within the part of the page that does not fit the area.
pub proof fn law_scroll_only_overflow(l: LayoutModel, e: LayoutEvent, page: int)
    requires
        0 <= page < PAGES,
        l.totals.len() == PAGES,
        0 <= l.totals[page] < crate::json_layout::HEIGHT_LIMIT,
        i64::MIN <= l.h <= i64::MAX,
    ensures
        l.totals[page] <= l.h ==> scroll_command_of(l, e, page) is None,
        scroll_command_of(l, e, page) matches Some(ScrollCommand::To { place, max }) ==> 0 <= place
            <= max && max == l.totals[page] - l.h,
        scroll_command_of(l, e, page) matches Some(ScrollCommand::Wheel { max }) ==> max
            == l.totals[page] - l.h,
{
}

/// Every control of the active page but the checkboxes gets an event, in their order, once;
/// no other control does, and none is told that the pointer enters.
pub proof fn law_events_reach_active_page(l: LayoutModel, e: LayoutEvent, i: int)
    requires
        0 <= i < l.widgets.len() <= usize::MAX,
    ensures
        e is Enter ==> receivers_of(l, e).len() == 0,
        !(e is Enter) ==> (receivers_of(l, e).contains(i as usize) <==> l.widgets[i].page == l.active
            && l.widgets[i].widget_type != "checkbox"@),
        forall|a: int, b: int|
            0 <= a < b < receivers_of(l, e).len() ==> #[trigger] receivers_of(l, e)[a]
                < #[trigger] receivers_of(l, e)[b],
{
    law_names_of_kinds(l.widgets[i].widget_type);
    law_receivers(l, l.widgets.len() as int, i);
    lemma_receivers_ascend(l, l.widgets.len() as int);
}

proof fn lemma_receivers_ascend(l: LayoutModel, n: int)
    requires
        0 <= n <= l.widgets.len() <= usize::MAX,
    ensures
        forall|a: int|
            0 <= a < receivers_among(l, n).len() ==> #[trigger] receivers_among(l, n)[a] < n,
        forall|a: int, b: int|
            0 <= a < b < receivers_among(l, n).len() ==> #[trigger] receivers_among(l, n)[a]
                < #[trigger] receivers_among(l, n)[b],
    decreases n,
{
    if n > 0 {
        lemma_receivers_ascend(l, n - 1);
        let head = receivers_among(l, n - 1);
        assert forall|a: int| 0 <= a < receivers_among(l, n).len() implies #[trigger] receivers_among(
            l,
            n,
        )[a] < n by {
            if a < head.len() {
                assert(receivers_among(l, n)[a] == head[a]);
            }
        }
        assert forall|a: int, b: int|
            0 <= a < b < receivers_among(l, n).len() implies #[trigger] receivers_among(l, n)[a]
            < #[trigger] receivers_among(l, n)[b] by {
            assert(receivers_among(l, n)[a] == head[a]);
            if b < head.len() {
                assert(receivers_among(l, n)[b] == head[b]);
            }
        }
    }
}

/// A checkbox of the active page knows whether the pointer is on its row, edges included; the
/// left button that is released there turns it over. Nothing else changes it.
pub proof fn law_checkbox_follows_pointer(
    l: LayoutModel,
    e: LayoutEvent,
    r: Replies,
    m: Metrics,
    i: int,
    checked: bool,
    hovered: bool,
)
    requires
        0 <= i < l.widgets.len(),
        l.widgets[i].page == l.active,
        l.widgets[i].widget_type == "checkbox"@,
        l.widgets[i].control == (JsonControl::Checkbox { checked, hovered }),
    ensures
        ({
            let w = l.widgets[i];
            let after = routed(l, e, r, m).widgets[i].control;
            match e {
                LayoutEvent::Move { x, y } => {
                    let on = w.x <= x <= w.x + w.w && w.y <= y <= w.y + w.h;
                    &&& after == (JsonControl::Checkbox { checked, hovered: on })
                    &&& on != hovered ==> route_changes(l, e, r)
                },
                LayoutEvent::Button { left, pressed, x, y } => {
                    let on = w.x <= x <= w.x + w.w && w.y <= y <= w.y + w.h;
                    &&& left && !pressed && on ==> after == (JsonControl::Checkbox {
                        checked: !checked,
                        hovered,
                    })
                    &&& !(left && !pressed && on) ==> after == w.control
                    &&& left && on ==> route_changes(l, e, r)
                },
                _ => after == w.control,
            }
        }),
{
    law_names_of_kinds(l.widgets[i].widget_type);
    assert(checkbox_changes(l.widgets[i], e) ==> control_changes(l, e, r, i));
}

/// A click on a button without a target waits to be taken; one on a button with a target does
/// not.
pub proof fn law_clicks_wait_without_target(
    l: LayoutModel,
    e: LayoutEvent,
    r: Replies,
    m: Metrics,
    i: int,
    menu_row: bool,
    justify: Justification,
    clicked: bool,
)
    requires
        0 <= i < l.widgets.len(),
        r.of(l.widgets.len()),
        !(e is Enter),
        l.widgets[i].page == l.active,
        l.widgets[i].widget_type == "button"@,
        l.widgets[i].control == (JsonControl::Button { menu_row, justify, clicked }),
    ensures
        l.widgets[i].target is None ==> routed(l, e, r, m).widgets[i].control == (
        JsonControl::Button { menu_row, justify, clicked: clicked || r.clicked@[i] }),
        l.widgets[i].target is Some ==> routed(l, e, r, m).widgets[i].control == (
        JsonControl::Button { menu_row, justify, clicked: false }),
{
    law_names_of_kinds(l.widgets[i].widget_type);
}

/// A click on a button of the active page that has a target shows the target; of several the
/// last counts.
pub proof fn law_click_shows_target(
    l: LayoutModel,
    e: LayoutEvent,
    r: Replies,
    m: Metrics,
    i: int,
    page: usize,
)
    requires
        0 <= i < l.widgets.len(),
        r.of(l.widgets.len()),
        !(e is Enter),
        l.widgets[i].page == l.active,
        l.widgets[i].widget_type == "button"@,
        l.widgets[i].control is Button,
        l.widgets[i].target == Some(page),
        r.clicked@[i],
        forall|k: int|
            #![trigger l.widgets[k]]
            i < k < l.widgets.len() ==> l.widgets[k].target is None || l.widgets[k].page != l.active
                || l.widgets[k].widget_type != "button"@,
    ensures
        routed(l, e, r, m).active == page,
        route_changes(l, e, r),
{
    law_names_of_kinds(l.widgets[i].widget_type);
    assert(jumps(l, r, i));
    assert forall|k: int| i < k < l.widgets.len() implies !jumps(l, r, k) by {
        law_names_of_kinds(l.widgets[k].widget_type);
    }
    lemma_last_jump(l, r, i, l.widgets.len() as int);
}

proof fn lemma_last_jump(l: LayoutModel, r: Replies, i: int, n: int)
    requires
        0 <= i < n,
        jumps(l, r, i),
        forall|k: int| i < k < n ==> !jumps(l, r, k),
    ensures
        jump_among(l, r, n) == l.widgets[i].target,
    decreases n,
{
    if n > i + 1 {
        assert(!jumps(l, r, n - 1));
        lemma_last_jump(l, r, i, n - 1);
    }
}

/// Where no button of the active page with a target is clicked, the page stays, and the rows
/// stay where they are.
pub proof fn law_page_stays_without_click(l: LayoutModel, e: LayoutEvent, r: Replies, m: Metrics)
    requires
        r.of(l.widgets.len()),
        forall|k: int|
            #![trigger l.widgets[k]]
            0 <= k < l.widgets.len() ==> {
                ||| l.widgets[k].target is None
                ||| l.widgets[k].page != l.active
                ||| l.widgets[k].widget_type != "button"@
                ||| !(l.widgets[k].control is Button)
                ||| (!r.clicked@[k] && l.widgets[k].control->clicked == false)
            },
    ensures
        routed(l, e, r, m).active == l.active,
        routed(l, e, r, m).totals == l.totals,
        routed(l, e, r, m).scroll == l.scroll,
        forall|i: int|
            #![trigger routed(l, e, r, m).widgets[i]]
            0 <= i < l.widgets.len() ==> routed(l, e, r, m).widgets[i].y == l.widgets[i].y
                && routed(l, e, r, m).widgets[i].id == l.widgets[i].id,
        e is Enter ==> routed(l, e, r, m) == l && !route_changes(l, e, r),
{
    assert forall|k: int| 0 <= k < l.widgets.len() implies !jumps(l, r, k) by {
        law_names_of_kinds(l.widgets[k].widget_type);
    }
    lemma_no_jump(l, r, l.widgets.len() as int);
}

proof fn lemma_no_jump(l: LayoutModel, r: Replies, n: int)
    requires
        forall|k: int| 0 <= k < n ==> !jumps(l, r, k),
    ensures
        jump_among(l, r, n) is None,
    decreases n,
{
    if n > 0 {
        assert(!jumps(l, r, n - 1));
        lemma_no_jump(l, r, n - 1);
    }
}

/// The left button pressed on the row of a slider of the active page takes hold of it; of
/// several that overlap, of the last. Released, it lets go; and no other event changes what
/// is held.
pub proof fn law_press_takes_hold_of_slider(
    l: LayoutModel,
    r: Replies,
    m: Metrics,
    i: int,
    x: i64,
    y: i64,
)
    requires
        0 <= i < l.widgets.len() <= usize::MAX,
        l.widgets[i].page == l.active,
        l.widgets[i].widget_type == "slider"@,
        l.widgets[i].x <= x <= l.widgets[i].x + l.widgets[i].w,
        l.widgets[i].y <= y <= l.widgets[i].y + l.widgets[i].h,
        forall|k: int|
            #![trigger l.widgets[k]]
            i < k < l.widgets.len() ==> l.widgets[k].widget_type != "slider"@,
    ensures
        routed(
            l,
            LayoutEvent::Button { left: true, pressed: true, x, y },
            r,
            m,
        ).dragging == Some(i as usize),
        routed(l, LayoutEvent::Button { left: true, pressed: false, x, y }, r, m).dragging is None,
        routed(l, LayoutEvent::Button { left: false, pressed: true, x, y }, r, m).dragging
            == l.dragging,
        routed(l, LayoutEvent::Move { x, y }, r, m).dragging == l.dragging,
{
    let e = LayoutEvent::Button { left: true, pressed: true, x, y };
    let n = l.widgets.len() as int;
    law_names_of_kinds(l.widgets[i].widget_type);
    assert(grabs(l, e, i));
    assert forall|k: int| i < k < n implies !grabs(l, e, k) by {
        law_names_of_kinds(l.widgets[k].widget_type);
    }
    lemma_last_grab(l, e, i, n);
    law_release_ends_drag(l, x, y, n);
    lemma_no_grab(l, LayoutEvent::Button { left: false, pressed: true, x, y }, n);
    lemma_no_grab(l, LayoutEvent::Move { x, y }, n);
}

proof fn lemma_last_grab(l: LayoutModel, e: LayoutEvent, i: int, n: int)
    requires
        0 <= i < n,
        grabs(l, e, i),
        forall|k: int| i < k < n ==> !grabs(l, e, k),
    ensures
        dragging_after(l, e, n) == Some(i as usize),
    decreases n,
{
    if n > i + 1 {
        assert(!grabs(l, e, n - 1));
        lemma_last_grab(l, e, i, n - 1);
    }
}

proof fn lemma_no_grab(l: LayoutModel, e: LayoutEvent, n: int)
    requires
        0 <= n,
        !(e is Button) || (e matches LayoutEvent::Button { left, .. } && !left),
    ensures
        dragging_after(l, e, n) == l.dragging,
    decreases n,
{
    if n > 0 {
        lemma_no_grab(l, e, n - 1);
    }
}

/// The slider that is held follows the pointer until the left button is released; no other
/// event concerns it, and none a slider that is not held.
pub proof fn law_held_slider_follows_pointer(l: LayoutModel, i: usize, x: i64, y: i64, left: bool)
    ensures
        l.dragging == Some(i) && i < l.widgets.len() ==> {
            &&& drag_target_of(l, LayoutEvent::Move { x, y }) == Some(i)
            &&& drag_target_of(l, LayoutEvent::Button { left: true, pressed: false, x, y })
                == Some(i)
            &&& drag_target_of(l, LayoutEvent::Button { left, pressed: true, x, y }) is None
            &&& drag_target_of(l, LayoutEvent::Button { left: false, pressed: false, x, y }) is None
            &&& drag_target_of(l, LayoutEvent::Wheel { x, y }) is None
        },
        l.dragging is None ==> drag_target_of(l, LayoutEvent::Move { x, y }) is None,
{
}

/// On a page that is higher than the area, the keys scroll by the height of the area, to the
/// ends, or by a line, when they are pressed, and the wheel scrolls over the area alone.
pub proof fn law_keys_and_wheel_scroll(l: LayoutModel, page: int, x: i64, y: i64)
    requires
        0 <= page < 16,
        l.totals[page] > l.h,
        i64::MIN < l.h <= i64::MAX,
        l.totals[page] < crate::json_layout::HEIGHT_LIMIT,
    ensures
        ({
            let max = (l.totals[page] - l.h) as i128;
            let key = |k: ScrollKey| LayoutEvent::Key { pressed: true, key: k };
            &&& max == l.totals[page] - l.h
            &&& scroll_command_of(l, key(ScrollKey::PageDown), page) == Some(
                ScrollCommand::By { distance: l.h as i128, max },
            )
            &&& scroll_command_of(l, key(ScrollKey::PageUp), page) == Some(
                ScrollCommand::By { distance: (-l.h) as i128, max },
            )
            &&& scroll_command_of(l, key(ScrollKey::Home), page) == Some(
                ScrollCommand::To { place: 0, max },
            )
            &&& scroll_command_of(l, key(ScrollKey::End), page) == Some(
                ScrollCommand::To { place: max, max },
            )
            &&& scroll_command_of(l, key(ScrollKey::ArrowDown), page) == Some(
                ScrollCommand::Line { down: true, max },
            )
            &&& scroll_command_of(l, key(ScrollKey::ArrowUp), page) == Some(
                ScrollCommand::Line { down: false, max },
            )
            &&& scroll_command_of(
                l,
                LayoutEvent::Key { pressed: false, key: ScrollKey::PageDown },
                page,
            ) is None
            &&& l.x <= x <= l.x + l.w && l.y <= y <= l.y + l.h ==> scroll_command_of(
                l,
                LayoutEvent::Wheel { x, y },
                page,
            ) == Some(ScrollCommand::Wheel { max })
            &&& !(l.x <= x <= l.x + l.w && l.y <= y <= l.y + l.h) ==> scroll_command_of(
                l,
                LayoutEvent::Wheel { x, y },
                page,
            ) is None
            &&& scroll_command_of(l, LayoutEvent::Move { x, y }, page) is None
        }),
{
}

/// A page is where the reply to a scroll command says, the other pages stay, and the rows are
/// laid out anew where the page has moved.
pub proof fn law_page_scrolls_to_reply(l: LayoutModel, page: int, s: ScrollReply, m: Metrics)
    requires
        0 <= page < 16,
        l.scroll.len() == 16,
    ensures
        after_scroll(l, page, Some(s), m).scroll == l.scroll.update(page, s.place as int),
        after_scroll(l, page, None, m) == l,
        after_scroll(l, page, Some(s), m).active == l.active,
        l.scroll[page] == s.place ==> after_scroll(l, page, Some(s), m) == l,
        l.scroll[page] != s.place ==> after_scroll(l, page, Some(s), m) == laid_out(
            LayoutModel { scroll: l.scroll.update(page, s.place as int), ..l },
            m,
        ),
{
    if l.scroll[page] == s.place {
        assert(l.scroll.update(page, s.place as int) =~= l.scroll);
    }
}

/// The click that is taken is the first that waits on a button; taking it leaves no click on
/// that button, and every other control as it is.
pub proof fn law_first_click_taken(l: LayoutModel, i: int, k: int)
    requires
        0 <= i < l.widgets.len(),
        0 <= k < l.widgets.len(),
    ensures
        first_click(l, i) ==> l.widgets[i].widget_type == "button"@ && (
        l.widgets[i].control matches JsonControl::Button { clicked, .. } && clicked),
        first_click(l, i) && k < i && l.widgets[k].widget_type == "button"@ ==> (
        l.widgets[k].control matches JsonControl::Button { clicked, .. } ==> !clicked),
        k != i ==> without_click(l, i).widgets[k] == l.widgets[k],
        without_click(l, i).widgets[i].id == l.widgets[i].id,
        without_click(l, i).widgets[i].control matches JsonControl::Button { clicked, .. }
            ==> !clicked,
        without_click(l, i).active == l.active,
{
    law_names_of_kinds(l.widgets[i].widget_type);
    law_names_of_kinds(l.widgets[k].widget_type);
    if first_click(l, i) && k < i {
        assert(!clicked_at(l, k));
    }
}

/// Time changes a page where it changes one of its controls, and not where it changes those of
/// other pages.
pub proof fn law_time_changes_own_controls(l: LayoutModel, page: int, ticked: Seq<bool>, i: int)
    ensures
        0 <= i < l.widgets.len() && l.widgets[i].page == page && ticked[i] ==> some_ticks(
            l,
            page,
            ticked,
        ),
        (forall|k: int|
            #![trigger ticked[k]]
            0 <= k < l.widgets.len() && ticked[k] ==> l.widgets[k].page != page) ==> !some_ticks(
            l,
            page,
            ticked,
        ),
{
}

/// What is shown changes where the slider that is held moves or is let go, and where a control
/// of the active page has made use of an event; the pointer entering changes nothing.
pub proof fn law_what_changes_a_page(
    l: LayoutModel,
    r: Replies,
    e: LayoutEvent,
    i: int,
    x: i64,
    y: i64,
)
    requires
        0 <= i < l.widgets.len() <= usize::MAX,
    ensures
        l.dragging == Some(i as usize) && r.dragged ==> route_changes(
            l,
            LayoutEvent::Move { x, y },
            r,
        ),
        l.dragging == Some(i as usize) ==> route_changes(
            l,
            LayoutEvent::Button { left: true, pressed: false, x, y },
            r,
        ),
        !(e is Enter) && l.widgets[i].page == l.active && l.widgets[i].widget_type != "checkbox"@
            && r.handled@[i] ==> route_changes(l, e, r),
        !route_changes(l, LayoutEvent::Enter, r),
{
    law_names_of_kinds(l.widgets[i].widget_type);
    if l.widgets[i].page == l.active && l.widgets[i].widget_type != "checkbox"@ && r.handled@[i] {
        assert(control_changes(l, e, r, i));
    }
}

/// Nothing that is shown changes where no slider is held and no control of the active page has
/// made use of an event or holds a click, and where the pointer is not on a checkbox and was
/// not on one before.
pub proof fn law_what_changes_nothing(l: LayoutModel, r: Replies, e: LayoutEvent)
    requires
        r.of(l.widgets.len()),
        l.dragging is None,
        forall|k: int|
            #![trigger l.widgets[k]]
            0 <= k < l.widgets.len() && l.widgets[k].page == l.active ==> {
                let w = l.widgets[k];
                if w.widget_type == "checkbox"@ {
                    match e {
                        LayoutEvent::Move { x, y } => !(w.x <= x <= w.x + w.w && w.y <= y <= w.y
                            + w.h) && (w.control matches JsonControl::Checkbox { hovered, .. }
                            && !hovered),
                        LayoutEvent::Button { left, pressed, x, y } => !left || !(w.x <= x <= w.x
                            + w.w && w.y <= y <= w.y + w.h),
                        _ => true,
                    }
                } else {
                    !r.handled@[k] && !r.clicked@[k] && (
                    w.control matches JsonControl::Button { clicked, .. } ==> !clicked)
                }
            },
    ensures
        !route_changes(l, e, r),
{
    assert forall|k: int| 0 <= k < l.widgets.len() implies !jumps(l, r, k) && !#[trigger] control_changes(
        l,
        e,
        r,
        k,
    ) by {
        law_names_of_kinds(l.widgets[k].widget_type);
    }
    assert forall|k: int| 0 <= k < l.widgets.len() implies !jumps(l, r, k) by {
        assert(!control_changes(l, e, r, k));
    }
    lemma_no_jump(l, r, l.widgets.len() as int);
}

} // verus!
