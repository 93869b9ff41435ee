//! What the steps of a `do` block declare and fulfil, before its names are
//! resolved.

use vstd::prelude::*;
use crate::analysis;
use crate::ast;
use crate::ast::{DoExpr, DoStep, DoStepKind};
use crate::diagnostic;
use crate::diagnostic::{Diagnostic, DiagnosticView};
use crate::names;
use crate::names::local_name_metadata;
use crate::text;
use crate::text::same_text;

verus! {

/// What a primitive step does to the abstract names of its block. A name goes
/// by its place among the names that the block declares.
#[derive(Debug, PartialEq, Eq)]
pub enum RecursiveDoEvent {
    Nothing,
    Declare(Vec<usize>),
    Fulfill(usize),
}

/// A primitive step of a block.
#[derive(Debug, PartialEq, Eq)]
pub struct RecursiveDoStep {
    pub line: usize,
    pub event: RecursiveDoEvent,
}

/// The primitive steps of a block, and the names that it declares.
#[derive(Debug, PartialEq, Eq)]
pub struct RecursiveDoPreview {
    pub forwards: Vec<String>,
    /// The names that are not fulfilled yet, the latest last.
    pub open: Vec<usize>,
    pub steps: Vec<RecursiveDoStep>,
}

pub enum EventView {
    Nothing,
    Declare(Seq<nat>),
    Fulfill(nat),
}

pub struct StepView {
    pub line: nat,
    pub event: EventView,
}

pub struct PreviewView {
    pub forwards: Seq<Seq<char>>,
    pub open: Seq<nat>,
    pub steps: Seq<StepView>,
}

pub open spec fn places(ids: Seq<usize>) -> Seq<nat> {
    ids.map_values(|id: usize| id as nat)
}

impl View for RecursiveDoStep {
    type V = StepView;

    open spec fn view(&self) -> StepView {
        StepView {
            line: self.line as nat,
            event: match self.event {
                RecursiveDoEvent::Nothing => EventView::Nothing,
                RecursiveDoEvent::Declare(ids) => EventView::Declare(places(ids@)),
                RecursiveDoEvent::Fulfill(id) => EventView::Fulfill(id as nat),
            },
        }
    }
}

impl View for RecursiveDoPreview {
    type V = PreviewView;

    open spec fn view(&self) -> PreviewView {
        PreviewView {
            forwards: text::texts(self.forwards@),
            open: places(self.open@),
            steps: self.steps@.map_values(|step: RecursiveDoStep| step@),
        }
    }
}

/// The names that are not fulfilled yet.
pub open spec fn open_names(p: PreviewView) -> Seq<Seq<char>> {
    p.open.map_values(|id: nat| p.forwards[id as int])
}

/// Every open name is one that was declared.
pub open spec fn wf(p: PreviewView) -> bool {
    forall|k: int| 0 <= k < p.open.len() ==> #[trigger] p.open[k] < p.forwards.len()
}

/// The preview after a name is declared. The name `_` declares nothing.
pub open spec fn with_name(p: PreviewView, raw: Seq<char>) -> PreviewView {
    match names::canonical_name(raw) {
        Some(name) => PreviewView {
            forwards: p.forwards.push(name),
            open: p.open.push(p.forwards.len()),
            ..p
        },
        None => p,
    }
}

pub open spec fn with_names(p: PreviewView, raws: Seq<Seq<char>>) -> PreviewView
    decreases raws.len(),
{
    if raws.len() == 0 {
        p
    } else {
        with_name(with_names(p, raws.drop_last()), raws.last())
    }
}

pub open spec fn with_step(p: PreviewView, line: nat, event: EventView) -> PreviewView {
    PreviewView { steps: p.steps.push(StepView { line, event }), ..p }
}

/// The places from one to another.
pub open spec fn span(from: nat, to: nat) -> Seq<nat> {
    Seq::new((to - from) as nat, |k: int| (from + k) as nat)
}

/// The preview after an abstract step: one event that declares all its names.
pub open spec fn announced(p: PreviewView, raws: Seq<Seq<char>>, line: nat) -> PreviewView {
    let after = with_names(p, raws);
    with_step(after, line, EventView::Declare(span(p.forwards.len(), after.forwards.len())))
}

/// The preview after a primitive event of a pattern: a capture fulfils the
/// latest open name that it spells.
pub open spec fn met(p: PreviewView, capture: Option<Seq<char>>, line: nat) -> PreviewView {
    let k = match capture {
        Some(raw) => analysis::last_index(open_names(p), names::canonical_name(raw)),
        None => -1,
    };
    if k >= 0 {
        with_step(
            PreviewView { open: p.open.remove(k), ..p },
            line,
            EventView::Fulfill(p.open[k]),
        )
    } else {
        with_step(p, line, EventView::Nothing)
    }
}

pub open spec fn met_all(
    p: PreviewView,
    captures: Seq<Option<Seq<char>>>,
    line: nat,
) -> PreviewView
    decreases captures.len(),
{
    if captures.len() == 0 {
        p
    } else {
        met(met_all(p, captures.drop_last(), line), captures.last(), line)
    }
}

/// The preview after a step.
pub open spec fn stepped(p: PreviewView, step: DoStep) -> PreviewView {
    let line = step.line as nat;
    match step.kind {
        DoStepKind::Abstract(raws) => announced(p, text::texts(raws@), line),
        DoStepKind::Bind { pattern, .. } => met_all(p, ast::value_steps(pattern), line),
        DoStepKind::ValueBind { pattern, .. } => met_all(p, ast::value_steps(pattern), line),
        DoStepKind::Then(_) => with_step(p, line, EventView::Nothing),
    }
}

/// The preview of the first steps of a block.
pub open spec fn previewed(steps: Seq<DoStep>) -> PreviewView
    decreases steps.len(),
{
    if steps.len() == 0 {
        PreviewView { forwards: Seq::empty(), open: Seq::empty(), steps: Seq::empty() }
    } else {
        stepped(previewed(steps.drop_last()), steps.last())
    }
}

impl RecursiveDoPreview {
    fn record(&mut self, line: usize, event: RecursiveDoEvent)
        ensures
            final(self)@ == with_step(
                old(self)@,
                line as nat,
                (RecursiveDoStep { line, event })@.event,
            ),
    {
        let ghost before = self@.steps;
        self.steps.push(RecursiveDoStep { line, event });
        assert(self@.steps =~= before.push((RecursiveDoStep { line, event })@));
    }

    /// Declares the names of an abstract step.
    fn declare(&mut self, raws: &Vec<String>, line: usize)
        requires
            wf(old(self)@),
        ensures
            wf(final(self)@),
            final(self)@ == announced(old(self)@, text::texts(raws@), line as nat),
    {
        let ghost first = self@;
        let ghost all = text::texts(raws@);
        let mut ids: Vec<usize> = Vec::new();
        let mut k: usize = 0;
        assert(all.take(0) =~= Seq::empty());
        assert(places(ids@) =~= span(first.forwards.len(), first.forwards.len()));
        while k < raws.len()
            invariant
                k <= raws.len(),
                all == text::texts(raws@),
                wf(self@),
                self@ == with_names(first, all.take(k as int)),
                self@.forwards.len() >= first.forwards.len(),
                places(ids@) == span(first.forwards.len(), self@.forwards.len()),
            decreases raws.len() - k,
        {
            let ghost before = self@;
            proof {
                assert(all.take(k + 1).drop_last() =~= all.take(k as int));
                assert(all.take(k + 1).last() == raws@[k as int]@);
            }
            let local = local_name_metadata(raws[k].as_str());
            if let Some(name) = local.canonical {
                let id = self.forwards.len();
                let ghost had = ids@;
                self.forwards.push(name);
                self.open.push(id);
                ids.push(id);
                proof {
                    assert(self@.forwards =~= before.forwards.push(name@));
                    assert(self@.open =~= before.open.push(before.forwards.len()));
                    assert(places(ids@) =~= places(had).push(id as nat));
                    assert(places(ids@) =~= span(first.forwards.len(), self@.forwards.len()));
                    assert forall|j: int| 0 <= j < self@.open.len() implies #[trigger]
                        self@.open[j] < self@.forwards.len() by {
                        if j < before.open.len() {
                            assert(before.open[j] < before.forwards.len());
                        }
                    }
                }
            }
            k = k + 1;
        }
        assert(all.take(k as int) =~= all);
        self.record(line, RecursiveDoEvent::Declare(ids));
    }

    /// The place among the open names of the one that a capture fulfils.
    fn find(&self, raw: &str) -> (found: Option<usize>)
        requires
            wf(self@),
        ensures
            ({
                let k = analysis::last_index(open_names(self@), names::canonical_name(raw@));
                match found {
                    Some(place) => place == k && place < self.open.len(),
                    None => k < 0,
                }
            }),
    {
        let ghost all = open_names(self@);
        let local = local_name_metadata(raw);
        let ghost wanted = names::canonical_name(raw@);
        let mut i: usize = self.open.len();
        assert(all.take(i as int) =~= all);
        while i > 0
            invariant
                wf(self@),
                i <= self.open.len(),
                all == open_names(self@),
                wanted == local@.canonical,
                wanted == names::canonical_name(raw@),
                analysis::last_index(all, wanted) == analysis::last_index(
                    all.take(i as int),
                    wanted,
                ),
            decreases i,
        {
            proof {
                assert(all.take(i as int).drop_last() =~= all.take(i - 1));
                assert(self@.open[i - 1] < self@.forwards.len());
                assert(all.take(i as int).last() == self.forwards@[self.open@[i - 1] as int]@);
            }
            if let Some(name) = &local.canonical {
                if same_text(name.as_str(), self.forwards[self.open[i - 1]].as_str()) {
                    return Some(i - 1);
                }
            }
            i = i - 1;
        }
        None
    }

    /// Takes note of a primitive event of a pattern.
    fn meet(&mut self, capture: Option<&str>, line: usize)
        requires
            wf(old(self)@),
        ensures
            wf(final(self)@),
            final(self)@ == met(
                old(self)@,
                match capture {
                    Some(raw) => Some(raw@),
                    None => None,
                },
                line as nat,
            ),
    {
        let found = match capture {
            Some(raw) => self.find(raw),
            None => None,
        };
        match found {
            Some(place) => {
                let ghost before = self@;
                let id = self.open.remove(place);
                proof {
                    assert(self@.open =~= before.open.remove(place as int));
                    assert(before.open[place as int] == id as nat);
                    assert forall|j: int| 0 <= j < self@.open.len() implies #[trigger]
                        self@.open[j] < self@.forwards.len() by {
                        let from = if j < place {
                            j
                        } else {
                            j + 1
                        };
                        assert(before.open[from] < before.forwards.len());
                    }
                }
                self.record(line, RecursiveDoEvent::Fulfill(id));
            },
            None => self.record(line, RecursiveDoEvent::Nothing),
        }
    }

    fn meet_all(&mut self, captures: &Vec<Option<&str>>, line: usize)
        requires
            wf(old(self)@),
        ensures
            wf(final(self)@),
            final(self)@ == met_all(old(self)@, ast::steps_of(captures@), line as nat),
    {
        let ghost first = self@;
        let ghost all = ast::steps_of(captures@);
        let mut k: usize = 0;
        assert(all.take(0) =~= Seq::empty());
        while k < captures.len()
            invariant
                k <= captures.len(),
                all == ast::steps_of(captures@),
                wf(self@),
                self@ == met_all(first, all.take(k as int), line as nat),
            decreases captures.len() - k,
        {
            proof {
                assert(all.take(k + 1).drop_last() =~= all.take(k as int));
                assert(all.take(k + 1).last() == all[k as int]);
            }
            self.meet(captures[k], line);
            k = k + 1;
        }
        assert(all.take(k as int) =~= all);
    }
}

/// What the steps of a block declare and fulfil, in order.
pub fn preview_recursive_do_plan(do_expr: &DoExpr) -> (preview: RecursiveDoPreview)
    ensures
        preview@ == previewed(do_expr.steps@),
        wf(preview@),
{
    let steps = &do_expr.steps;
    let mut preview = RecursiveDoPreview {
        forwards: Vec::new(),
        open: Vec::new(),
        steps: Vec::new(),
    };
    let mut k: usize = 0;
    proof {
        assert(steps@.take(0) =~= Seq::empty());
        assert(preview@.forwards =~= Seq::empty());
        assert(preview@.open =~= Seq::empty());
        assert(preview@.steps =~= Seq::empty());
    }
    while k < steps.len()
        invariant
            k <= steps.len(),
            wf(preview@),
            preview@ == previewed(steps@.take(k as int)),
        decreases steps.len() - k,
    {
        proof {
            assert(steps@.take(k + 1).drop_last() =~= steps@.take(k as int));
        }
        let line = steps[k].line;
        match &steps[k].kind {
            DoStepKind::Abstract(raws) => preview.declare(raws, line),
            DoStepKind::Bind { pattern, .. } | DoStepKind::ValueBind { pattern, .. } => {
                let mut captures: Vec<Option<&str>> = Vec::new();
                pattern.visit_primitive_events(&mut captures);
                assert(ast::steps_of(captures@) =~= ast::value_steps(*pattern));
                preview.meet_all(&captures, line);
            },
            DoStepKind::Then(_) => preview.record(line, RecursiveDoEvent::Nothing),
        }
        k = k + 1;
    }
    assert(steps@.take(k as int) =~= steps@);
    preview
}

/// What a planner warns of for a block with a preview.
#[derive(Debug, PartialEq, Eq)]
pub struct BlockPlan {
    pub preview: RecursiveDoPreview,
    pub warnings: Vec<Diagnostic>,
}

pub struct PlanView {
    pub preview: PreviewView,
    pub warnings: Seq<DiagnosticView>,
}

impl View for BlockPlan {
    type V = PlanView;

    open spec fn view(&self) -> PlanView {
        PlanView { preview: self.preview@, warnings: diagnostic::reports(self.warnings@) }
    }
}

pub open spec fn plan_views(plans: Seq<BlockPlan>) -> Seq<PlanView> {
    plans.map_values(|plan: BlockPlan| plan@)
}

/// The warnings of the last plan for a preview.
pub open spec fn planned(plans: Seq<PlanView>, preview: PreviewView) -> Seq<DiagnosticView>
    decreases plans.len(),
{
    if plans.len() == 0 {
        Seq::empty()
    } else if plans.last().preview == preview {
        plans.last().warnings
    } else {
        planned(plans.drop_last(), preview)
    }
}

/// What the plan of a block warns of.
pub open spec fn promotions(plans: Seq<PlanView>, steps: Seq<DoStep>) -> Seq<DiagnosticView> {
    planned(plans, previewed(steps))
}

fn same_places(a: &Vec<usize>, b: &Vec<usize>) -> (same: bool)
    ensures
        same == (places(a@) == places(b@)),
{
    if a.len() != b.len() {
        assert(places(a@).len() != places(b@).len());
        return false;
    }
    let mut k: usize = 0;
    while k < a.len()
        invariant
            a.len() == b.len(),
            k <= a.len(),
            forall|j: int| 0 <= j < k ==> places(a@)[j] == places(b@)[j],
        decreases a.len() - k,
    {
        if a[k] != b[k] {
            assert(places(a@)[k as int] != places(b@)[k as int]);
            return false;
        }
        k = k + 1;
    }
    assert(places(a@) =~= places(b@));
    true
}

fn same_step(a: &RecursiveDoStep, b: &RecursiveDoStep) -> (same: bool)
    ensures
        same == (a@ == b@),
{
    a.line == b.line && match (&a.event, &b.event) {
        (RecursiveDoEvent::Nothing, RecursiveDoEvent::Nothing) => true,
        (RecursiveDoEvent::Declare(x), RecursiveDoEvent::Declare(y)) => same_places(x, y),
        (RecursiveDoEvent::Fulfill(x), RecursiveDoEvent::Fulfill(y)) => *x == *y,
        _ => false,
    }
}

/// Whether two previews are the same.
fn same_preview(a: &RecursiveDoPreview, b: &RecursiveDoPreview) -> (same: bool)
    ensures
        same == (a@ == b@),
{
    if a.forwards.len() != b.forwards.len() || a.steps.len() != b.steps.len() || !same_places(
        &a.open,
        &b.open,
    ) {
        assert(a@.forwards.len() == a.forwards.len() && b@.forwards.len() == b.forwards.len());
        assert(a@.steps.len() == a.steps.len() && b@.steps.len() == b.steps.len());
        return false;
    }
    let mut k: usize = 0;
    while k < a.forwards.len()
        invariant
            a.forwards.len() == b.forwards.len(),
            k <= a.forwards.len(),
            forall|j: int| 0 <= j < k ==> a@.forwards[j] == b@.forwards[j],
        decreases a.forwards.len() - k,
    {
        if !same_text(a.forwards[k].as_str(), b.forwards[k].as_str()) {
            assert(a@.forwards[k as int] != b@.forwards[k as int]);
            return false;
        }
        k = k + 1;
    }
    assert(a@.forwards =~= b@.forwards);
    let mut k: usize = 0;
    while k < a.steps.len()
        invariant
            a.steps.len() == b.steps.len(),
            k <= a.steps.len(),
            forall|j: int| 0 <= j < k ==> a@.steps[j] == b@.steps[j],
        decreases a.steps.len() - k,
    {
        if !same_step(&a.steps[k], &b.steps[k]) {
            assert(a@.steps[k as int] != b@.steps[k as int]);
            return false;
        }
        k = k + 1;
    }
    assert(a@.steps =~= b@.steps);
    true
}

/// Reports what the plan of a block warns of.
pub fn report_promotions(
    plans: &Vec<BlockPlan>,
    block: &DoExpr,
    diagnostics: &mut Vec<Diagnostic>,
)
    ensures
        diagnostic::reports(final(diagnostics)@) == diagnostic::reports(old(diagnostics)@)
            + promotions(plan_views(plans@), block.steps@),
{
    let preview = preview_recursive_do_plan(block);
    let ghost all = plan_views(plans@);
    let mut k: usize = plans.len();
    assert(all.take(k as int) =~= all);
    while k > 0
        invariant
            k <= plans.len(),
            all == plan_views(plans@),
            diagnostics@ == old(diagnostics)@,
            preview@ == previewed(block.steps@),
            planned(all, preview@) == planned(all.take(k as int), preview@),
        decreases k,
    {
        proof {
            assert(all.take(k as int).drop_last() =~= all.take(k - 1));
            assert(all.take(k as int).last() == plans@[k - 1]@);
        }
        if same_preview(&plans[k - 1].preview, &preview) {
            diagnostic::report_copies(diagnostics, &plans[k - 1].warnings);
            return;
        }
        k = k - 1;
    }
    assert(diagnostic::reports(diagnostics@) =~= diagnostic::reports(diagnostics@)
        + Seq::<DiagnosticView>::empty());
}

} // verus!
