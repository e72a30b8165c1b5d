//! What the command line front end decides: how a run ends, which exit
//! code stands for it, and how failures are summed up for the user.

use crate::executor::{ExecutionError, ExecutionErrorView, ExecutionResult};
use crate::planner::{InstallPlan, PlannerError};
use crate::text::{decimal, decimal_digits, join, joined};
use vstd::prelude::*;

verus! {

/// How a command ended.
#[derive(Debug, Clone, Copy, PartialEq, Eq, Structural)]
pub enum Outcome {
    /// The command did what it was asked to do.
    Done,
    /// The manifest, the environment or the history could not be had.
    SetupFailed,
    /// No mode of the manifest fits the environment.
    NoCompatibleMode,
    /// A step of the plan failed.
    InstallFailed,
}

/// The exit status that stands for an outcome.
pub open spec fn exit_status(outcome: Outcome) -> i32 {
    match outcome {
        Outcome::Done => 0,
        Outcome::SetupFailed => 1,
        Outcome::NoCompatibleMode => 2,
        Outcome::InstallFailed => 3,
    }
}

/// The exit status of the process for an outcome; zero only for success.
pub fn exit_code(outcome: Outcome) -> (r: i32)
    ensures
        r == exit_status(outcome),
        r == 0 <==> outcome == Outcome::Done,
{
    match outcome {
        Outcome::Done => 0,
        Outcome::SetupFailed => 1,
        Outcome::NoCompatibleMode => 2,
        Outcome::InstallFailed => 3,
    }
}

/// The outcome that planning comes to.
pub fn planning_outcome(result: &Result<InstallPlan, PlannerError>) -> (r: Outcome)
    ensures
        r == if result is Ok {
            Outcome::Done
        } else {
            Outcome::NoCompatibleMode
        },
{
    match result {
        Ok(_) => Outcome::Done,
        Err(_) => Outcome::NoCompatibleMode,
    }
}

/// The outcome that carrying out a plan comes to.
pub fn install_outcome(result: &Result<ExecutionResult, ExecutionError>) -> (r: Outcome)
    ensures
        r == if result is Ok {
            Outcome::Done
        } else {
            Outcome::InstallFailed
        },
{
    match result {
        Ok(_) => Outcome::Done,
        Err(_) => Outcome::InstallFailed,
    }
}

/// The index of the step that an error names, if it names one.
pub fn failed_step_index(error: &ExecutionError) -> (r: Option<usize>)
    ensures
        match error@ {
            ExecutionErrorView::StepFailed { index, message } => r matches Some(i) && i == index,
            ExecutionErrorView::Other(_) => r is None,
        },
{
    match error {
        ExecutionError::StepFailed { index, .. } => Some(*index),
        ExecutionError::Other(_) => None,
    }
}

/// The sentence that says no mode fits.
pub open spec fn no_compatible_text() -> Seq<char> {
    "No compatible modes for this environment"@
}

/// The sentence that says no mode fits.
pub fn no_compatible_message() -> (r: String)
    ensures
        r@ == no_compatible_text(),
{
    String::from_str("No compatible modes for this environment")
}

/// The sentence that says no mode fits, followed by the reasons.
pub open spec fn no_compatible_summary_of(reasons: Seq<Seq<char>>) -> Seq<char> {
    no_compatible_text() + ": "@ + joined(reasons, "; "@)
}

/// Sums up why nothing could be installed: the sentence that says no mode
/// fits, then the reasons separated by semicolons.
pub fn no_compatible_summary(reasons: &Vec<String>) -> (r: String)
    ensures
        r@ == no_compatible_summary_of(reasons.deep_view()),
{
    let mut r = no_compatible_message();
    r.append(": ");
    let list = join(reasons, "; ");
    r.append(list.as_str());
    r
}

/// The line that announces a step: its number counted from one, the
/// number of steps, and its description.
pub open spec fn progress_line_of(position: nat, total: nat, description: Seq<char>) -> Seq<char> {
    "==> ["@ + decimal_digits(position + 1) + "/"@ + decimal_digits(total) + "] "@ + description
}

/// The line that announces the step at `position` of a plan.
pub fn progress_line(plan: &InstallPlan, position: usize) -> (r: String)
    requires
        position < plan@.steps.len(),
    ensures
        r@ == progress_line_of(
            position as nat,
            plan@.steps.len(),
            plan@.steps[position as int].description,
        ),
{
    let count: usize = plan.steps.len();
    let mut r = String::from_str("==> [");
    let number = decimal((position + 1) as u64);
    r.append(number.as_str());
    r.append("/");
    let total = decimal(count as u64);
    r.append(total.as_str());
    r.append("] ");
    r.append(plan.steps[position].description.as_str());
    assert(plan@.steps[position as int].description == plan.steps@[position as int].description@);
    r
}

} // verus!
