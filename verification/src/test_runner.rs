//! The execution driver: what to run in a sandbox, in which order, and what
//! the outcomes make of the mutant.
//!
//! The driver decides and never runs anything itself. Its caller performs
//! each action in the sandbox and hands back what happened.

use crate::error::{Error, ErrorView};
use crate::mutant::Verdict;
use vstd::prelude::*;
use vstd::string::*;

verus! {

/// Where the driver stands for one mutant.
#[derive(Debug, Clone, Copy, PartialEq, Eq, Structural)]
pub enum DriverState {
    /// The build check is due or running.
    Building,
    /// The build succeeded; the test check is due or running.
    Testing,
    /// The mutant has its verdict.
    Finished(Verdict),
    /// The toolchain could not be started; the mutant has no verdict.
    Aborted,
}

/// What the caller reports back to the driver.
#[derive(Debug, Clone, Copy, PartialEq, Eq, Structural)]
pub enum DriverEvent {
    /// The build check ran; `true` where it succeeded.
    BuildFinished(bool),
    /// The test check ran; `true` where the tests passed.
    TestsFinished(bool),
    /// The tool could not be launched at all.
    LaunchFailed,
}

/// What the driver asks its caller to do next.
#[derive(Debug, Clone, Copy, PartialEq, Eq, Structural)]
pub enum DriverAction {
    /// Run the build check in the sandbox.
    RunBuild,
    /// Run the test check in the sandbox.
    RunTests,
    /// Record the verdict; the sandbox is no longer needed.
    Report(Verdict),
    /// Stop the whole run: this is a failure of the tooling, not a verdict.
    Abort,
    /// The event does not belong to the state; nothing is to be done.
    Ignore,
}

/// The verdict for a mutant whose build check and test check gave these
/// outcomes. The outcome of the tests counts only where the build succeeded.
pub open spec fn verdict_for(build_ok: bool, tests_ok: bool) -> Verdict {
    if !build_ok {
        Verdict::BuildBroken
    } else if tests_ok {
        Verdict::Survived
    } else {
        Verdict::Killed
    }
}

/// The state that follows `state` on `event`, and the action that goes with it.
///
/// A failed build ends the cycle with `BuildBroken`, and the test check is
/// not asked for. After a successful build the test check is asked for; its
/// failure gives `Killed`, its success `Survived`. A tool that cannot be
/// launched aborts. An event that the state does not wait for changes nothing.
pub open spec fn after(state: DriverState, event: DriverEvent) -> (DriverState, DriverAction) {
    match (state, event) {
        (DriverState::Building, DriverEvent::BuildFinished(true)) => (
            DriverState::Testing,
            DriverAction::RunTests,
        ),
        (DriverState::Building, DriverEvent::BuildFinished(false)) => (
            DriverState::Finished(Verdict::BuildBroken),
            DriverAction::Report(Verdict::BuildBroken),
        ),
        (DriverState::Testing, DriverEvent::TestsFinished(true)) => (
            DriverState::Finished(Verdict::Survived),
            DriverAction::Report(Verdict::Survived),
        ),
        (DriverState::Testing, DriverEvent::TestsFinished(false)) => (
            DriverState::Finished(Verdict::Killed),
            DriverAction::Report(Verdict::Killed),
        ),
        (DriverState::Building, DriverEvent::LaunchFailed) => (
            DriverState::Aborted,
            DriverAction::Abort,
        ),
        (DriverState::Testing, DriverEvent::LaunchFailed) => (
            DriverState::Aborted,
            DriverAction::Abort,
        ),
        _ => (state, DriverAction::Ignore),
    }
}

/// The state in which the driver starts, and its first action: the build check.
pub fn start() -> (r: (DriverState, DriverAction))
    ensures
        r == (DriverState::Building, DriverAction::RunBuild),
{
    (DriverState::Building, DriverAction::RunBuild)
}

/// The state that follows `state` on `event`, and the action to perform.
pub fn step(state: DriverState, event: DriverEvent) -> (r: (DriverState, DriverAction))
    ensures
        r == after(state, event),
{
    match state {
        DriverState::Building => match event {
            DriverEvent::BuildFinished(ok) => {
                if ok {
                    (DriverState::Testing, DriverAction::RunTests)
                } else {
                    (
                        DriverState::Finished(Verdict::BuildBroken),
                        DriverAction::Report(Verdict::BuildBroken),
                    )
                }
            },
            DriverEvent::LaunchFailed => (DriverState::Aborted, DriverAction::Abort),
            DriverEvent::TestsFinished(_) => (state, DriverAction::Ignore),
        },
        DriverState::Testing => match event {
            DriverEvent::TestsFinished(ok) => {
                if ok {
                    (
                        DriverState::Finished(Verdict::Survived),
                        DriverAction::Report(Verdict::Survived),
                    )
                } else {
                    (DriverState::Finished(Verdict::Killed), DriverAction::Report(Verdict::Killed))
                }
            },
            DriverEvent::LaunchFailed => (DriverState::Aborted, DriverAction::Abort),
            DriverEvent::BuildFinished(_) => (state, DriverAction::Ignore),
        },
        DriverState::Finished(_) => (state, DriverAction::Ignore),
        DriverState::Aborted => (state, DriverAction::Ignore),
    }
}

/// The message of the error that stands for a tool that could not be launched.
pub open spec fn launch_failure_message() -> Seq<char> {
    "Failed to execute command"@
}

/// The error that ends the run when the driver aborts: the tool could not be
/// launched, which no verdict can stand for.
pub fn launch_failure() -> (e: Error)
    ensures
        e@ == ErrorView::Tool(launch_failure_message()),
{
    Error::Tool(String::from_str("Failed to execute command"))
}

/// The verdict for a mutant whose build check and test check gave these outcomes.
pub fn classify(build_ok: bool, tests_ok: bool) -> (v: Verdict)
    ensures
        v == verdict_for(build_ok, tests_ok),
{
    if !build_ok {
        Verdict::BuildBroken
    } else if tests_ok {
        Verdict::Survived
    } else {
        Verdict::Killed
    }
}

/// The test check is asked for in one situation only: the build check has
/// just succeeded.
pub proof fn lemma_tests_follow_a_good_build(state: DriverState, event: DriverEvent)
    ensures
        after(state, event).1 == DriverAction::RunTests <==> (state == DriverState::Building
            && event == DriverEvent::BuildFinished(true)),
{
}

/// A mutant that does not build is `BuildBroken` at once, and whatever is
/// reported after that, the test check is never asked for.
pub proof fn lemma_broken_build_is_never_tested(later: DriverEvent)
    ensures
        after(DriverState::Building, DriverEvent::BuildFinished(false)) == (
            DriverState::Finished(Verdict::BuildBroken),
            DriverAction::Report(Verdict::BuildBroken),
        ),
        after(DriverState::Finished(Verdict::BuildBroken), later) == (
            DriverState::Finished(Verdict::BuildBroken),
            DriverAction::Ignore,
        ),
{
}

/// A tool that cannot be launched never gives a verdict, and a verdict never
/// follows an abort.
pub proof fn lemma_launch_failure_is_no_verdict(state: DriverState, later: DriverEvent)
    ensures
        !(after(state, DriverEvent::LaunchFailed).1 is Report),
        !(after(state, DriverEvent::LaunchFailed).0 is Finished) || state is Finished,
        after(DriverState::Aborted, later) == (DriverState::Aborted, DriverAction::Ignore),
{
}

/// A full cycle gives the verdict that `verdict_for` names: the build check
/// first, then, where it succeeded, the test check.
pub proof fn lemma_cycle_gives_verdict(build_ok: bool, tests_ok: bool)
    ensures
        ({
            let built = after(DriverState::Building, DriverEvent::BuildFinished(build_ok));
            if build_ok {
                &&& built == (DriverState::Testing, DriverAction::RunTests)
                &&& after(built.0, DriverEvent::TestsFinished(tests_ok)).1 == DriverAction::Report(
                    verdict_for(build_ok, tests_ok),
                )
            } else {
                built.1 == DriverAction::Report(verdict_for(build_ok, tests_ok))
            }
        }),
{
}

} // verus!
