//! A record of every device access step, printed on demand and always printed
//! when a run fails.

use vstd::prelude::*;
use vstd::string::*;

use crate::error::{DeviceError, DeviceErrorView, Stage};
use crate::text;

verus! {

#[derive(Debug, Clone, PartialEq, Eq)]
pub struct Step {
    pub stage: Stage,
    pub detail: String,
    pub outcome: Outcome,
}

#[derive(Debug, Clone, PartialEq, Eq)]
pub enum Outcome {
    Succeeded(String),
    Failed { message: String, os_error: Option<i32> },
}

#[verifier::ext_equal]
pub struct StepView {
    pub stage: Stage,
    pub detail: Seq<char>,
    pub outcome: OutcomeView,
}

#[verifier::ext_equal]
pub enum OutcomeView {
    Succeeded(Seq<char>),
    Failed { message: Seq<char>, os_error: Option<i32> },
}

impl View for Outcome {
    type V = OutcomeView;

    open spec fn view(&self) -> OutcomeView {
        match *self {
            Outcome::Succeeded(result) => OutcomeView::Succeeded(result@),
            Outcome::Failed { message, os_error } => OutcomeView::Failed {
                message: message@,
                os_error,
            },
        }
    }
}

impl View for Step {
    type V = StepView;

    open spec fn view(&self) -> StepView {
        StepView { stage: self.stage, detail: self.detail@, outcome: self.outcome@ }
    }
}

impl StepView {
    /// A step that went through.
    pub open spec fn ok(stage: Stage, detail: Seq<char>, result: Seq<char>) -> StepView {
        StepView { stage, detail, outcome: OutcomeView::Succeeded(result) }
    }

    /// A step that failed, in the stage the failure names.
    pub open spec fn failed(detail: Seq<char>, err: DeviceErrorView) -> StepView {
        StepView {
            stage: err.stage,
            detail,
            outcome: OutcomeView::Failed { message: err.message, os_error: err.os_error },
        }
    }

    /// The line a step is printed as.
    pub open spec fn line(self) -> Seq<char> {
        let head = "  "@ + text::left(self.stage.name(), 16) + " "@ + self.detail;
        match self.outcome {
            OutcomeView::Succeeded(result) => if result.len() == 0 {
                head + " -> ok\n"@
            } else {
                head + " -> "@ + result + "\n"@
            },
            OutcomeView::Failed { message, os_error: Some(code) } => head + " -> FAILED "@ + message
                + " (os error "@ + text::signed_dec(code as int) + ")\n"@,
            OutcomeView::Failed { message, os_error: None } => head + " -> FAILED "@ + message
                + "\n"@,
        }
    }
}

/// The steps as they are printed, one line each.
pub open spec fn rendered(steps: Seq<StepView>) -> Seq<char>
    decreases steps.len(),
{
    if steps.len() == 0 {
        Seq::empty()
    } else {
        rendered(steps.drop_last()) + steps.last().line()
    }
}

#[derive(Debug)]
pub struct Trace {
    steps: Vec<Step>,
}

impl View for Trace {
    type V = Seq<StepView>;

    closed spec fn view(&self) -> Seq<StepView> {
        Seq::new(self.steps@.len(), |i: int| self.steps@[i]@)
    }
}

impl Default for Trace {
    fn default() -> (trace: Trace)
        ensures
            trace@ == Seq::<StepView>::empty(),
    {
        Trace { steps: Vec::new() }
    }
}

impl Trace {
    pub fn new() -> (trace: Trace)
        ensures
            trace@ == Seq::<StepView>::empty(),
    {
        Trace { steps: Vec::new() }
    }

    /// Records a step that went through.
    pub fn ok(&mut self, stage: Stage, detail: &str, result: &str)
        ensures
            final(self)@ == old(self)@.push(StepView::ok(stage, detail@, result@)),
    {
        self.steps.push(
            Step {
                stage,
                detail: detail.to_owned(),
                outcome: Outcome::Succeeded(result.to_owned()),
            },
        );
    }

    /// Records a step that failed.
    pub fn failed(&mut self, detail: &str, err: &DeviceError)
        ensures
            final(self)@ == old(self)@.push(StepView::failed(detail@, err@)),
    {
        self.steps.push(
            Step {
                stage: err.stage,
                detail: detail.to_owned(),
                outcome: Outcome::Failed { message: err.message.clone(), os_error: err.os_error },
            },
        );
    }

    pub fn is_empty(&self) -> (empty: bool)
        ensures
            empty == (self@.len() == 0),
    {
        self.steps.len() == 0
    }

    /// The steps in the order they were taken, one line each.
    pub fn render(&self) -> (out: String)
        ensures
            out@ == rendered(self@),
    {
        let mut out = String::new();
        let mut i: usize = 0;
        assert(self@.take(0) =~= Seq::empty());
        while i < self.steps.len()
            invariant
                i <= self.steps@.len(),
                out@ == rendered(self@.take(i as int)),
            decreases self.steps@.len() - i,
        {
            let step = &self.steps[i];
            let line = step.to_line();
            out.append(line.as_str());
            assert(self@.take(i + 1).drop_last() =~= self@.take(i as int));
            i += 1;
        }
        assert(self@.take(i as int) =~= self@);
        out
    }
}

impl Step {
    fn to_line(&self) -> (line: String)
        ensures
            line@ == self@.line(),
    {
        let mut line = "  ".to_owned();
        text::push_left(&mut line, self.stage.as_str(), 16);
        line.append(" ");
        line.append(self.detail.as_str());
        match &self.outcome {
            Outcome::Succeeded(result) => {
                if result.as_str().unicode_len() == 0 {
                    line.append(" -> ok\n");
                } else {
                    line.append(" -> ");
                    line.append(result.as_str());
                    line.append("\n");
                }
            },
            Outcome::Failed { message, os_error: Some(code) } => {
                line.append(" -> FAILED ");
                line.append(message.as_str());
                line.append(" (os error ");
                text::push_signed(&mut line, *code);
                line.append(")\n");
            },
            Outcome::Failed { message, os_error: None } => {
                line.append(" -> FAILED ");
                line.append(message.as_str());
                line.append("\n");
            },
        }
        line
    }
}

/// A record is printed step by step: what comes later never changes what came
/// before, and each step ends its own line.
pub proof fn a_record_is_printed_step_by_step(before: Seq<StepView>, after: Seq<StepView>)
    ensures
        rendered(before + after) == rendered(before) + rendered(after),
        forall|i: int|
            0 <= i < before.len() ==> (#[trigger] before[i]).line().len() > 0
                && before[i].line().last() == '\n',
    decreases after.len(),
{
    reveal_strlit("\n");
    reveal_strlit(" -> ok\n");
    reveal_strlit(")\n");
    if after.len() == 0 {
        assert(before + after =~= before);
        assert(rendered(before) + Seq::<char>::empty() =~= rendered(before));
    } else {
        a_record_is_printed_step_by_step(before, after.drop_last());
        assert((before + after).drop_last() =~= before + after.drop_last());
        assert((before + after).last() == after.last());
        assert(rendered(before + after) =~= rendered(before) + rendered(after));
    }
}

/// A step is printed with its stage in a column of its own, what it was, and what
/// came of it: a failure says so, and nothing else does.
pub proof fn a_step_tells_what_came_of_it(step: StepView)
    requires
        step.stage.name().len() <= 16,
    ensures
        ({
            let line = step.line();
            let n = step.detail.len() as int;
            let behind = line.subrange(19 + n, line.len() as int);
            &&& line.len() > 19 + n
            &&& line.subrange(2, 18) == text::left(step.stage.name(), 16)
            &&& line.subrange(19, 19 + n) == step.detail
            &&& match step.outcome {
                OutcomeView::Succeeded(result) => if result.len() == 0 {
                    behind == " -> ok\n"@
                } else {
                    behind == " -> "@ + result + "\n"@
                },
                OutcomeView::Failed { message, os_error } => (" -> FAILED "@
                    + message).is_prefix_of(behind),
            }
        }),
{
    reveal_strlit("  ");
    reveal_strlit(" ");
    reveal_strlit(" -> ");
    reveal_strlit(" -> ok\n");
    reveal_strlit(" -> FAILED ");
    let line = step.line();
    let n = step.detail.len() as int;
    assert(line.subrange(2, 18) =~= text::left(step.stage.name(), 16));
    assert(line.subrange(19, 19 + n) =~= step.detail);
    let behind = line.subrange(19 + n, line.len() as int);
    match step.outcome {
        OutcomeView::Succeeded(result) => {
            if result.len() == 0 {
                assert(behind =~= " -> ok\n"@);
            } else {
                assert(behind =~= " -> "@ + result + "\n"@);
            }
        },
        OutcomeView::Failed { message, os_error } => {
            let said = " -> FAILED "@ + message;
            assert(behind.subrange(0, said.len() as int) =~= said);
        },
    }
}

} // verus!
