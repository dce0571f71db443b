//! What a page of controls draws beside the controls themselves: the wells that hold runs of
//! menu rows, the seams between the rows, and the texts.

use vstd::prelude::*;
use crate::geometry::label_models;
use crate::geometry::LabelModel;
use crate::geometry::Rect;
use crate::geometry::TextLabel;
use crate::geometry::PX;
use crate::json_layout::find_kind;
use crate::json_layout::law_names_of_kinds;
use crate::json_layout::JsonLayoutWidget;
use crate::json_layout::Kind;
use crate::json_layout::LayoutModel;

verus! {

/// Whether a control is a menu row that is shown.
pub open spec fn menu_row(l: LayoutModel, i: int) -> bool {
    l.widgets[i].page == l.active && l.widgets[i].kind() == Kind::Button
}

/// The end of the run of menu rows that goes through `i`: the first place from `i` on that is
/// none.
pub open spec fn run_end(l: LayoutModel, i: int) -> int
    decreases l.widgets.len() - i,
{
    if i < l.widgets.len() && menu_row(l, i) {
        run_end(l, i + 1)
    } else {
        i
    }
}

/// A run of menu rows, from the first to the one behind the last.
#[derive(Clone, Copy, Debug, PartialEq, Eq, Structural)]
pub struct Run {
    pub start: usize,
    pub end: usize,
}

proof fn lemma_run_end(l: LayoutModel, i: int)
    requires
        0 <= i <= l.widgets.len(),
    ensures
        i <= run_end(l, i) <= l.widgets.len(),
        forall|k: int| i <= k < run_end(l, i) ==> menu_row(l, k),
        run_end(l, i) < l.widgets.len() ==> !menu_row(l, run_end(l, i)),
        i < l.widgets.len() && menu_row(l, i) ==> i < run_end(l, i),
    decreases l.widgets.len() - i,
{
    if i < l.widgets.len() && menu_row(l, i) {
        lemma_run_end(l, i + 1);
    }
}

/// The runs of menu rows from `i` on, as long as they can be.
pub open spec fn runs_from(l: LayoutModel, i: int) -> Seq<Run>
    decreases l.widgets.len() - i,
{
    if i < 0 || i >= l.widgets.len() {
        Seq::empty()
    } else if !menu_row(l, i) {
        runs_from(l, i + 1)
    } else if run_end(l, i) <= i || run_end(l, i) > l.widgets.len() {
        Seq::empty()
    } else {
        seq![Run { start: i as usize, end: run_end(l, i) as usize }] + runs_from(l, run_end(l, i))
    }
}

/// Whether a control lies in one of the runs.
pub open spec fn in_some_run(runs: Seq<Run>, i: int) -> bool {
    exists|k: int| 0 <= k < runs.len() && (#[trigger] runs[k]).start <= i < runs[k].end
}

/// The runs hold exactly the menu rows that are shown; no run is empty, and between two of
/// them there is something else.
pub proof fn law_runs_hold_menu_rows(l: LayoutModel, from: int, i: int)
    requires
        0 <= from <= l.widgets.len() <= usize::MAX,
        0 <= i < l.widgets.len(),
    ensures
        in_some_run(runs_from(l, from), i) == (from <= i && menu_row(l, i)),
        forall|k: int|
            0 <= k < runs_from(l, from).len() ==> from <= (#[trigger] runs_from(l, from)[k]).start
                < runs_from(l, from)[k].end <= l.widgets.len(),
        forall|k: int, j: int|
            0 <= k < j < runs_from(l, from).len() ==> (#[trigger] runs_from(l, from)[k]).end < (
            #[trigger] runs_from(l, from)[j]).start,
    decreases l.widgets.len() - from,
{
    let runs = runs_from(l, from);
    if from < l.widgets.len() {
        if !menu_row(l, from) {
            law_runs_hold_menu_rows(l, from + 1, i);
        } else {
            lemma_run_end(l, from);
            let end = run_end(l, from);
            let rest = runs_from(l, end);
            let first = Run { start: from as usize, end: end as usize };
            law_runs_hold_menu_rows(l, end, i);
            assert(runs =~= seq![first] + rest);
            assert(runs[0] == first);
            assert forall|k: int| 0 < k < runs.len() implies #[trigger] runs[k] == rest[k - 1] by {}
            if from <= i < end {
                assert(runs[0].start <= i < runs[0].end);
            } else if in_some_run(rest, i) {
                let k = choose|k: int| 0 <= k < rest.len() && (#[trigger] rest[k]).start <= i
                    < rest[k].end;
                assert(runs[k + 1] == rest[k]);
            }
            if in_some_run(runs, i) && !(from <= i < end) {
                let k = choose|k: int| 0 <= k < runs.len() && (#[trigger] runs[k]).start <= i
                    < runs[k].end;
                assert(k > 0);
                assert(rest[k - 1] == runs[k]);
                assert(in_some_run(rest, i));
            }
            assert forall|k: int| 0 <= k < rest.len() implies end < (#[trigger] rest[k]).start by {
                lemma_runs_start_on_rows(l, end, k);
                if rest[k].start == end {
                    assert(menu_row(l, end));
                }
            }
        }
    }
}

proof fn lemma_runs_start_on_rows(l: LayoutModel, from: int, k: int)
    requires
        0 <= from <= l.widgets.len() <= usize::MAX,
        0 <= k < runs_from(l, from).len(),
    ensures
        from <= runs_from(l, from)[k].start < l.widgets.len(),
        menu_row(l, runs_from(l, from)[k].start as int),
    decreases l.widgets.len() - from,
{
    if !menu_row(l, from) {
        lemma_runs_start_on_rows(l, from + 1, k);
    } else {
        lemma_run_end(l, from);
        let end = run_end(l, from);
        let rest = runs_from(l, end);
        if k > 0 {
            assert(runs_from(l, from)[k] == rest[k - 1]);
            lemma_runs_start_on_rows(l, end, k - 1);
        }
    }
}

/// The well that holds a run: one area from the top of its first row to the bottom of its
/// last.
pub open spec fn well_of(l: LayoutModel, run: Run) -> (int, int, int, int) {
    let first = l.widgets[run.start as int];
    let last = l.widgets[run.end - 1];
    (first.x, first.y, first.w, last.y + last.h - first.y)
}

/// The depth of the groove of a well, in fifths of a unit: the width of a bevel, but no more
/// than a fifth of the height of one row.
pub open spec fn groove_of(bevel: int, row_height: int) -> int {
    if 5 * bevel <= row_height {
        5 * bevel
    } else {
        row_height
    }
}

impl JsonLayoutWidget {
    fn shows_menu_row(&self, i: usize) -> (r: bool)
        requires
            i < self.widgets@.len(),
        ensures
            r == menu_row(self@, i as int),
    {
        self.widgets[i].page_idx == self.active_page && find_kind(
            self.widgets[i].widget_type.as_str(),
        ) == Kind::Button
    }

    /// The runs of menu rows that are shown.
    pub fn button_runs(&self) -> (r: Vec<Run>)
        ensures
            r@ == runs_from(self@, 0),
            forall|k: int|
                0 <= k < r@.len() ==> (#[trigger] r@[k]).start < r@[k].end <= self.widgets@.len(),
    {
        let n = self.widgets.len();
        let mut out: Vec<Run> = Vec::new();
        let mut i: usize = 0;
        let ghost all = runs_from(self@, 0);
        proof {
            assert(out@ + all =~= all);
        }
        while i < n
            invariant
                i <= n,
                n == self.widgets@.len(),
                all == runs_from(self@, 0),
                out@ + runs_from(self@, i as int) == all,
                forall|k: int|
                    0 <= k < out@.len() ==> (#[trigger] out@[k]).start < out@[k].end
                        <= self.widgets@.len(),
            decreases n - i,
        {
            if !self.shows_menu_row(i) {
                i += 1;
            } else {
                let start = i;
                let mut end: usize = i + 1;
                proof {
                    lemma_run_end(self@, start as int);
                }
                while end < n && self.shows_menu_row(end)
                    invariant
                        start < end <= n,
                        n == self.widgets@.len(),
                        run_end(self@, start as int) == run_end(self@, end as int),
                    decreases n - end,
                {
                    end += 1;
                }
                let ghost before = out@;
                out.push(Run { start, end });
                proof {
                    let rest = runs_from(self@, end as int);
                    assert(run_end(self@, start as int) == end);
                    assert(out@ + rest =~= before + (seq![Run { start, end }] + rest));
                }
                i = end;
            }
        }
        proof {
            assert(out@ + runs_from(self@, i as int) =~= out@);
        }
        out
    }

    /// The well that holds a run.
    pub fn well(&self, run: Run) -> (r: Rect)
        requires
            self.wf(),
            run.start < run.end <= self.widgets@.len(),
        ensures
            (r.x as int, r.y as int, r.w as int, r.h as int) == well_of(self@, run),
    {
        let first = &self.widgets[run.start];
        let last = &self.widgets[run.end - 1];
        Rect { x: first.x, y: first.y, w: first.w, h: last.y + last.h - first.y }
    }

    /// The depth of the groove of the well of a run, in fifths of a unit. `bevel` is the width
    /// of a bevel.
    pub fn groove(&self, run: Run, bevel: u32) -> (r: i128)
        requires
            run.start < self.widgets@.len(),
        ensures
            r == groove_of(bevel as int, self@.widgets[run.start as int].h),
    {
        let b: i128 = 5 * bevel as i128;
        let h: i128 = self.widgets[run.start].h;
        if b <= h {
            b
        } else {
            h
        }
    }

    /// Where the rows of a run meet: the bottom of each row but the last.
    pub fn seams(&self, run: Run) -> (r: Vec<i128>)
        requires
            self.wf(),
            run.start < run.end <= self.widgets@.len(),
        ensures
            r@.len() == run.end - run.start - 1,
            forall|k: int|
                0 <= k < r@.len() ==> #[trigger] r@[k] == self@.widgets[run.start + k].y
                    + self@.widgets[run.start + k].h,
    {
        let mut out: Vec<i128> = Vec::new();
        let mut k: usize = run.start;
        while k < run.end - 1
            invariant
                run.start <= k < run.end <= self.widgets@.len(),
                self.wf(),
                out@.len() == k - run.start,
                forall|j: int|
                    0 <= j < out@.len() ==> #[trigger] out@[j] == self@.widgets[run.start + j].y
                        + self@.widgets[run.start + j].h,
            decreases run.end - k,
        {
            out.push(self.widgets[k].y + self.widgets[k].h);
            k += 1;
        }
        out
    }

    /// The part of the area in which the controls are drawn: all but a strip of 12 pixels at
    /// the left.
    pub fn clip(&self) -> (r: Rect)
        ensures
            r.x == self@.x + 12 * PX,
            r.y == self@.y,
            r.w == self@.w - 12 * PX,
            r.h == self@.h,
    {
        Rect {
            x: self.x as i128 + 12 * PX,
            y: self.y as i128,
            w: self.w as i128 - 12 * PX,
            h: self.h as i128,
        }
    }

    /// The texts of the active page, in the order of the controls: of a checkbox the text
    /// beside it, and of every other control its own texts, which `own` lists.
    pub fn own_labels_with_bounds(&self, own: &Vec<Vec<TextLabel>>) -> (r: Vec<TextLabel>)
        requires
            own@.len() == self.widgets@.len(),
        ensures
            label_models(r@) == shown_labels(self@, own_models(own@), self.widgets@.len() as int),
    {
        let n = self.widgets.len();
        let ghost texts_of = own_models(own@);
        let mut out: Vec<TextLabel> = Vec::new();
        let mut i: usize = 0;
        proof {
            assert(label_models(out@) =~= shown_labels(self@, texts_of, 0));
        }
        while i < n
            invariant
                i <= n,
                n == self.widgets@.len(),
                own@.len() == n,
                texts_of == own_models(own@),
                label_models(out@) == shown_labels(self@, texts_of, i as int),
            decreases n - i,
        {
            let ghost before = label_models(out@);
            if self.widgets[i].page_idx == self.active_page {
                if find_kind(self.widgets[i].widget_type.as_str()) == Kind::Checkbox {
                    match &self.widgets[i].label_text {
                        Some(l) => {
                            out.push(l.clone());
                            proof {
                                assert(label_models(out@) =~= before + seq![l@]);
                            }
                        },
                        None => {
                            proof {
                                assert(before =~= before + Seq::<LabelModel>::empty());
                            }
                        },
                    }
                } else {
                    let labels = &own[i];
                    let ghost here = label_models(labels@);
                    let mut k: usize = 0;
                    proof {
                        assert(texts_of[i as int] == here);
                        assert(before + here.take(0) =~= before);
                    }
                    while k < labels.len()
                        invariant
                            k <= labels@.len(),
                            here == label_models(labels@),
                            label_models(out@) == before + here.take(k as int),
                        decreases labels@.len() - k,
                    {
                        let ghost so_far = label_models(out@);
                        out.push(labels[k].clone());
                        proof {
                            assert(label_models(out@) =~= so_far.push(here[k as int]));
                            assert(so_far.push(here[k as int]) =~= before + here.take(k + 1));
                        }
                        k += 1;
                    }
                    proof {
                        assert(here.take(k as int) =~= here);
                    }
                }
            } else {
                proof {
                    assert(before =~= before + Seq::<LabelModel>::empty());
                }
            }
            i += 1;
        }
        out
    }
}

/// The models of the texts of each control.
pub open spec fn own_models(own: Seq<Vec<TextLabel>>) -> Seq<Seq<LabelModel>> {
    own.map_values(|v: Vec<TextLabel>| label_models(v@))
}

/// The texts that a control shows.
pub open spec fn labels_at(l: LayoutModel, own: Seq<Seq<LabelModel>>, i: int) -> Seq<LabelModel> {
    if l.widgets[i].page != l.active {
        Seq::empty()
    } else if l.widgets[i].kind() == Kind::Checkbox {
        match l.widgets[i].label {
            Some(label) => seq![label],
            None => Seq::empty(),
        }
    } else {
        own[i]
    }
}

/// The texts that the first `n` controls show.
pub open spec fn shown_labels(l: LayoutModel, own: Seq<Seq<LabelModel>>, n: int) -> Seq<LabelModel>
    decreases n,
{
    if n <= 0 {
        Seq::empty()
    } else {
        shown_labels(l, own, n - 1) + labels_at(l, own, n - 1)
    }
}

// ---------------------------------------------------------------------------------------
// The order of drawing
// ---------------------------------------------------------------------------------------

/// A step of drawing a page.
#[derive(Debug)]
pub enum DrawStep {
    /// The well that holds a run of menu rows.
    Well { run: Run },
    /// A control.
    Control { index: usize },
    /// The seam of a run at a height.
    Seam { run: Run, y: i128 },
    /// A text.
    Text { label: TextLabel },
}

/// A step of drawing a page, in a specification.
pub enum StepModel {
    Well { run: Run },
    Control { index: int },
    Seam { run: Run, y: int },
    Text { label: LabelModel },
}

impl View for DrawStep {
    type V = StepModel;

    open spec fn view(&self) -> StepModel {
        match self {
            DrawStep::Well { run } => StepModel::Well { run: *run },
            DrawStep::Control { index } => StepModel::Control { index: *index as int },
            DrawStep::Seam { run, y } => StepModel::Seam { run: *run, y: *y as int },
            DrawStep::Text { label } => StepModel::Text { label: label@ },
        }
    }
}

/// The models of a list of steps.
pub open spec fn step_models(v: Seq<DrawStep>) -> Seq<StepModel> {
    v.map_values(|s: DrawStep| s@)
}

/// The wells of some runs.
pub open spec fn well_steps(runs: Seq<Run>) -> Seq<StepModel> {
    runs.map_values(|run: Run| StepModel::Well { run })
}

/// Those of the first `n` controls that are on the active page.
pub open spec fn control_steps(l: LayoutModel, n: int) -> Seq<StepModel>
    decreases n,
{
    if n <= 0 {
        Seq::empty()
    } else if l.widgets[n - 1].page == l.active {
        control_steps(l, n - 1).push(StepModel::Control { index: n - 1 })
    } else {
        control_steps(l, n - 1)
    }
}

/// The seams of a run: the bottom of each row but the last.
pub open spec fn run_seams(l: LayoutModel, run: Run) -> Seq<StepModel> {
    Seq::new(
        (run.end - run.start - 1) as nat,
        |k: int|
            StepModel::Seam { run, y: l.widgets[run.start + k].y + l.widgets[run.start + k].h },
    )
}

/// The seams of some runs, run by run.
pub open spec fn seam_steps(l: LayoutModel, runs: Seq<Run>) -> Seq<StepModel>
    decreases runs.len(),
{
    if runs.len() == 0 {
        Seq::empty()
    } else {
        seam_steps(l, runs.drop_last()) + run_seams(l, runs.last())
    }
}

/// The steps that draw some texts.
pub open spec fn text_steps(labels: Seq<LabelModel>) -> Seq<StepModel> {
    labels.map_values(|label: LabelModel| StepModel::Text { label })
}

/// The steps of drawing a page: the wells first, so that the rows sit inside them; the controls
/// of the active page; the seams on top of the rows, so that no row covers them; and the texts.
pub open spec fn draw_steps_of(l: LayoutModel, own: Seq<Seq<LabelModel>>) -> Seq<StepModel> {
    well_steps(runs_from(l, 0)) + control_steps(l, l.widgets.len() as int) + seam_steps(
        l,
        runs_from(l, 0),
    ) + text_steps(shown_labels(l, own, l.widgets.len() as int))
}

impl JsonLayoutWidget {
    fn push_wells(&self, out: &mut Vec<DrawStep>, runs: &Vec<Run>)
        ensures
            step_models(final(out)@) == step_models(old(out)@) + well_steps(runs@),
    {
        let ghost before = step_models(out@);
        let ghost all = well_steps(runs@);
        let mut i: usize = 0;
        proof {
            assert(before + all.take(0) =~= before);
        }
        while i < runs.len()
            invariant
                i <= runs@.len(),
                all == well_steps(runs@),
                step_models(out@) == before + all.take(i as int),
            decreases runs@.len() - i,
        {
            let ghost so_far = step_models(out@);
            out.push(DrawStep::Well { run: runs[i] });
            proof {
                assert(step_models(out@) =~= so_far.push(all[i as int]));
                assert(so_far.push(all[i as int]) =~= before + all.take(i + 1));
            }
            i += 1;
        }
        proof {
            assert(all.take(i as int) =~= all);
        }
    }

    fn push_shown_controls(&self, out: &mut Vec<DrawStep>)
        ensures
            step_models(final(out)@) == step_models(old(out)@) + control_steps(
                self@,
                self.widgets@.len() as int,
            ),
    {
        let ghost before = step_models(out@);
        let n = self.widgets.len();
        let mut i: usize = 0;
        proof {
            assert(before + control_steps(self@, 0) =~= before);
        }
        while i < n
            invariant
                i <= n,
                n == self.widgets@.len(),
                step_models(out@) == before + control_steps(self@, i as int),
            decreases n - i,
        {
            let ghost so_far = step_models(out@);
            let ghost drawn = control_steps(self@, i as int);
            if self.widgets[i].page_idx == self.active_page {
                out.push(DrawStep::Control { index: i });
                proof {
                    let step = StepModel::Control { index: i as int };
                    assert(step_models(out@) =~= so_far.push(step));
                    assert((before + drawn).push(step) =~= before + drawn.push(step));
                }
            }
            i += 1;
        }
    }

    fn push_seams(&self, out: &mut Vec<DrawStep>, run: Run)
        requires
            self.wf(),
            run.start < run.end <= self.widgets@.len(),
        ensures
            step_models(final(out)@) == step_models(old(out)@) + run_seams(self@, run),
    {
        let ghost before = step_models(out@);
        let ghost all = run_seams(self@, run);
        let seams = self.seams(run);
        let mut i: usize = 0;
        proof {
            assert(before + all.take(0) =~= before);
        }
        while i < seams.len()
            invariant
                i <= seams@.len(),
                all == run_seams(self@, run),
                seams@.len() == run.end - run.start - 1,
                forall|k: int|
                    0 <= k < seams@.len() ==> #[trigger] seams@[k] == self@.widgets[run.start + k].y
                        + self@.widgets[run.start + k].h,
                step_models(out@) == before + all.take(i as int),
            decreases seams@.len() - i,
        {
            let ghost so_far = step_models(out@);
            out.push(DrawStep::Seam { run, y: seams[i] });
            proof {
                assert(step_models(out@) =~= so_far.push(all[i as int]));
                assert(so_far.push(all[i as int]) =~= before + all.take(i + 1));
            }
            i += 1;
        }
        proof {
            assert(all.take(i as int) =~= all);
        }
    }

    /// The steps of drawing the page, in their order. `own` lists the texts of each control.
    pub fn draw_steps(&self, own: &Vec<Vec<TextLabel>>) -> (r: Vec<DrawStep>)
        requires
            self.wf(),
            own@.len() == self.widgets@.len(),
        ensures
            step_models(r@) == draw_steps_of(self@, own_models(own@)),
    {
        let mut out: Vec<DrawStep> = Vec::new();
        let runs = self.button_runs();
        self.push_wells(&mut out, &runs);
        self.push_shown_controls(&mut out);
        let ghost rows = step_models(out@);
        let mut i: usize = 0;
        proof {
            assert(rows =~= well_steps(runs@) + control_steps(self@, self.widgets@.len() as int));
            assert(rows + seam_steps(self@, runs@.take(0)) =~= rows);
        }
        while i < runs.len()
            invariant
                i <= runs@.len(),
                self.wf(),
                forall|k: int|
                    0 <= k < runs@.len() ==> (#[trigger] runs@[k]).start < runs@[k].end
                        <= self.widgets@.len(),
                step_models(out@) == rows + seam_steps(self@, runs@.take(i as int)),
            decreases runs@.len() - i,
        {
            self.push_seams(&mut out, runs[i]);
            proof {
                assert(runs@.take(i + 1).drop_last() =~= runs@.take(i as int));
                assert(runs@.take(i + 1).last() == runs@[i as int]);
                assert(step_models(out@) =~= rows + seam_steps(self@, runs@.take(i + 1)));
            }
            i += 1;
        }
        proof {
            assert(runs@.take(i as int) =~= runs@);
        }
        let labels = self.own_labels_with_bounds(own);
        let ghost below = step_models(out@);
        let ghost all = text_steps(label_models(labels@));
        let mut k: usize = 0;
        proof {
            assert(below + all.take(0) =~= below);
        }
        while k < labels.len()
            invariant
                k <= labels@.len(),
                all == text_steps(label_models(labels@)),
                step_models(out@) == below + all.take(k as int),
            decreases labels@.len() - k,
        {
            let ghost so_far = step_models(out@);
            out.push(DrawStep::Text { label: labels[k].clone() });
            proof {
                assert(step_models(out@) =~= so_far.push(all[k as int]));
                assert(so_far.push(all[k as int]) =~= below + all.take(k + 1));
            }
            k += 1;
        }
        proof {
            assert(all.take(k as int) =~= all);
        }
        out
    }
}

/// The layer of a step: what is drawn later covers what is drawn before.
pub open spec fn layer(s: StepModel) -> int {
    match s {
        StepModel::Well { .. } => 0,
        StepModel::Control { .. } => 1,
        StepModel::Seam { .. } => 2,
        StepModel::Text { .. } => 3,
    }
}

proof fn lemma_control_steps(l: LayoutModel, n: int, i: int)
    requires
        n <= l.widgets.len(),
        0 <= i < control_steps(l, n).len(),
    ensures
        control_steps(l, n)[i] matches StepModel::Control { index } && 0 <= index < n
            && l.widgets[index].page == l.active,
    decreases n,
{
    if i < control_steps(l, n - 1).len() {
        lemma_control_steps(l, n - 1, i);
    }
}

proof fn lemma_seam_steps(l: LayoutModel, runs: Seq<Run>, i: int)
    requires
        0 <= i < seam_steps(l, runs).len(),
    ensures
        seam_steps(l, runs)[i] is Seam,
    decreases runs.len(),
{
    if i < seam_steps(l, runs.drop_last()).len() {
        lemma_seam_steps(l, runs.drop_last(), i);
    }
}

/// Wells are drawn below the controls, seams above them, and texts above all. Of the controls
/// those of the active page are drawn, and no others.
pub proof fn law_drawn_in_layers(l: LayoutModel, own: Seq<Seq<LabelModel>>, i: int, j: int)
    requires
        0 <= i <= j < draw_steps_of(l, own).len(),
    ensures
        layer(draw_steps_of(l, own)[i]) <= layer(draw_steps_of(l, own)[j]),
        draw_steps_of(l, own)[i] matches StepModel::Control { index } ==> 0 <= index
            < l.widgets.len() && l.widgets[index].page == l.active,
{
    let n = l.widgets.len() as int;
    let a = well_steps(runs_from(l, 0));
    let b = control_steps(l, n);
    let c = seam_steps(l, runs_from(l, 0));
    let d = text_steps(shown_labels(l, own, n));
    let steps = draw_steps_of(l, own);
    assert forall|k: int| 0 <= k < steps.len() implies #[trigger] layer(steps[k]) == (if k
        < a.len() {
        0int
    } else if k < a.len() + b.len() {
        1
    } else if k < a.len() + b.len() + c.len() {
        2
    } else {
        3
    }) by {
        if a.len() <= k < a.len() + b.len() {
            lemma_control_steps(l, n, k - a.len());
        } else if a.len() + b.len() <= k < a.len() + b.len() + c.len() {
            lemma_seam_steps(l, runs_from(l, 0), k - a.len() - b.len());
        }
    }
    assert(layer(steps[i]) <= layer(steps[j]));
    if a.len() <= i < a.len() + b.len() {
        lemma_control_steps(l, n, i - a.len());
    }
}

/// Every control of the active page is drawn.
pub proof fn law_active_page_drawn(l: LayoutModel, n: int, i: int)
    requires
        0 <= i < n <= l.widgets.len(),
        l.widgets[i].page == l.active,
    ensures
        control_steps(l, n).contains(StepModel::Control { index: i }),
    decreases n,
{
    let steps = control_steps(l, n);
    if i == n - 1 {
        assert(steps[steps.len() - 1] == StepModel::Control { index: i });
    } else {
        law_active_page_drawn(l, n - 1, i);
        let before = control_steps(l, n - 1);
        let k = choose|k: int| 0 <= k < before.len() && before[k] == StepModel::Control {
            index: i,
        };
        assert(steps[k] == before[k]);
    }
}

/// Exactly the buttons of the active page lie in wells, each run of adjoining ones in one, and
/// no two runs adjoin.
pub proof fn law_buttons_lie_in_wells(l: LayoutModel, i: int)
    requires
        0 <= i < l.widgets.len() <= usize::MAX,
    ensures
        (exists|k: int|
            0 <= k < runs_from(l, 0).len() && (#[trigger] runs_from(l, 0)[k]).start <= i
                < runs_from(l, 0)[k].end) <==> l.widgets[i].page == l.active
            && l.widgets[i].widget_type == "button"@,
        forall|k: int, j: int|
            0 <= k < j < runs_from(l, 0).len() ==> (#[trigger] runs_from(l, 0)[k]).end < (
            #[trigger] runs_from(l, 0)[j]).start,
{
    law_names_of_kinds(l.widgets[i].widget_type);
    law_runs_hold_menu_rows(l, 0, i);
    let runs = runs_from(l, 0);
    if in_some_run(runs, i) {
        let k = choose|k: int| 0 <= k < runs.len() && (#[trigger] runs[k]).start <= i < runs[k].end;
        assert(runs_from(l, 0)[k].start <= i);
    }
}

/// A well goes from the top of the first row of its run to the bottom of the last, as wide as
/// the first. Its groove is as deep as a bevel is wide, or a fifth of a row where that is
/// less.
pub proof fn law_well_spans_run(l: LayoutModel, run: Run, bevel: int, height: int)
    ensures
        well_of(l, run).0 == l.widgets[run.start as int].x,
        well_of(l, run).1 == l.widgets[run.start as int].y,
        well_of(l, run).2 == l.widgets[run.start as int].w,
        well_of(l, run).1 + well_of(l, run).3 == l.widgets[run.end - 1].y + l.widgets[run.end
            - 1].h,
        groove_of(bevel, height) <= 5 * bevel,
        groove_of(bevel, height) <= height,
        groove_of(bevel, height) == 5 * bevel || groove_of(bevel, height) == height,
{
}

/// The texts of a page are those of its controls in their order: a checkbox shows the text
/// beside it, every other control its own texts, and a control of another page none.
pub proof fn law_texts_of_shown_controls(l: LayoutModel, own: Seq<Seq<LabelModel>>, n: int)
    requires
        0 <= n < l.widgets.len(),
    ensures
        shown_labels(l, own, 0).len() == 0,
        ({
            let w = l.widgets[n];
            let before = shown_labels(l, own, n);
            let after = shown_labels(l, own, n + 1);
            &&& w.page != l.active ==> after == before
            &&& w.page == l.active && w.widget_type != "checkbox"@ ==> after == before + own[n]
            &&& w.page == l.active && w.widget_type == "checkbox"@ ==> match w.label {
                Some(label) => after == before.push(label),
                None => after == before,
            }
        }),
{
    law_names_of_kinds(l.widgets[n].widget_type);
    let before = shown_labels(l, own, n);
    assert(before + Seq::<LabelModel>::empty() =~= before);
    match l.widgets[n].label {
        Some(label) => {
            assert(before + seq![label] =~= before.push(label));
        },
        None => {},
    }
}

proof fn lemma_seams_held(l: LayoutModel, runs: Seq<Run>, k: int, s: StepModel)
    requires
        0 <= k < runs.len(),
        run_seams(l, runs[k]).contains(s),
    ensures
        seam_steps(l, runs).contains(s),
    decreases runs.len(),
{
    let head = seam_steps(l, runs.drop_last());
    let tail = run_seams(l, runs.last());
    if k == runs.len() - 1 {
        let i = choose|i: int| 0 <= i < tail.len() && tail[i] == s;
        assert((head + tail)[head.len() + i] == s);
    } else {
        assert(runs.drop_last()[k] == runs[k]);
        lemma_seams_held(l, runs.drop_last(), k, s);
        let i = choose|i: int| 0 <= i < head.len() && head[i] == s;
        assert((head + tail)[i] == s);
    }
}

/// All of a page is drawn: the well of each run, the controls of the active page, the seam
/// below each row of a run but the last, and the texts.
pub proof fn law_all_of_page_drawn(
    l: LayoutModel,
    own: Seq<Seq<LabelModel>>,
    i: int,
    k: int,
    row: int,
    t: int,
)
    ensures
        ({
            let steps = draw_steps_of(l, own);
            let runs = runs_from(l, 0);
            let labels = shown_labels(l, own, l.widgets.len() as int);
            &&& 0 <= i < l.widgets.len() && l.widgets[i].page == l.active ==> steps.contains(
                StepModel::Control { index: i },
            )
            &&& 0 <= k < runs.len() ==> steps.contains(StepModel::Well { run: runs[k] })
            &&& 0 <= k < runs.len() && runs[k].start <= row < runs[k].end - 1 ==> steps.contains(
                StepModel::Seam { run: runs[k], y: l.widgets[row].y + l.widgets[row].h },
            )
            &&& 0 <= t < labels.len() ==> steps.contains(StepModel::Text { label: labels[t] })
        }),
{
    let runs = runs_from(l, 0);
    let n = l.widgets.len() as int;
    let labels = shown_labels(l, own, n);
    let (a, b, c, d) = (
        well_steps(runs),
        control_steps(l, n),
        seam_steps(l, runs),
        text_steps(labels),
    );
    let steps = draw_steps_of(l, own);
    assert(steps == a + b + c + d);
    if 0 <= i < n && l.widgets[i].page == l.active {
        law_active_page_drawn(l, n, i);
        let s = StepModel::Control { index: i };
        let p = choose|p: int| 0 <= p < b.len() && b[p] == s;
        assert(steps[a.len() + p] == s);
    }
    if 0 <= k < runs.len() {
        assert(steps[k] == (StepModel::Well { run: runs[k] }));
        if runs[k].start <= row < runs[k].end - 1 {
            let s = StepModel::Seam { run: runs[k], y: l.widgets[row].y + l.widgets[row].h };
            assert(run_seams(l, runs[k])[row - runs[k].start] == s);
            lemma_seams_held(l, runs, k, s);
            let p = choose|p: int| 0 <= p < c.len() && c[p] == s;
            assert(steps[a.len() + b.len() + p] == s);
        }
    }
    if 0 <= t < labels.len() {
        assert(d[t] == (StepModel::Text { label: labels[t] }));
        assert(steps[a.len() + b.len() + c.len() + t] == d[t]);
    }
}

} // verus!
