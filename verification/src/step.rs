//! External build steps and their sequencing.
//!
//! Every backend driver produces a plan: an ordered list of commands. The
//! runner hands the steps out one at a time and interprets each reported
//! exit status — zero is success, anything else aborts the plan with a named
//! error, and no later step is ever handed out.

use vstd::prelude::*;

verus! {

/// Which lifecycle step a command implements.
#[derive(Clone, Copy, PartialEq, Eq, Structural, Debug)]
pub enum StepKind {
    /// The configure step of a configure-script project.
    Configure,
    /// The compile step.
    Compile,
    /// The install step.
    Install,
    /// The one-time setup step of a Ninja-style project.
    Setup,
    /// A recipe's materialized build function.
    BuildFunction,
    /// A recipe's materialized package function, run elevated.
    PackageFunction,
    /// Unpacking a downloaded archive.
    Unpack,
}

/// One external command: program, arguments, working directory, and whether
/// it must run under elevated privileges.
pub struct BuildStep {
    /// The lifecycle step this command implements.
    pub kind: StepKind,
    /// The working directory.
    pub dir: Vec<u8>,
    /// The program to launch.
    pub program: Vec<u8>,
    /// The argument list.
    pub args: Vec<Vec<u8>>,
    /// Run under elevated privileges.
    pub elevated: bool,
}

/// The mathematical shape of a build step.
#[verifier::ext_equal]
pub ghost struct StepModel {
    /// The lifecycle step.
    pub kind: StepKind,
    /// The working directory.
    pub dir: Seq<u8>,
    /// The program.
    pub program: Seq<u8>,
    /// The arguments.
    pub args: Seq<Seq<u8>>,
    /// Elevation flag.
    pub elevated: bool,
}

impl View for BuildStep {
    type V = StepModel;

    open spec fn view(&self) -> StepModel {
        StepModel {
            kind: self.kind,
            dir: self.dir@,
            program: self.program@,
            args: self.args.deep_view(),
            elevated: self.elevated,
        }
    }
}

/// The mathematical shape of a plan.
pub open spec fn plan_view(steps: Seq<BuildStep>) -> Seq<StepModel> {
    steps.map_values(|s: BuildStep| s@)
}

/// Everything that can end a build attempt.
#[derive(Debug)]
pub enum BuildError {
    /// A required recipe function is absent; carries the missing name.
    RecipeIncomplete {
        /// The name of the absent function.
        missing: Vec<u8>,
    },
    /// No recognized build-description file was found.
    NoBackendFound,
    /// A step exited nonzero; carries the step and its exit code.
    BuildStepFailed {
        /// The failing step.
        step: StepKind,
        /// Its exit code.
        code: i32,
    },
    /// The remote existence probe could not conclude; treated as absence.
    RemoteCheckInconclusive,
    /// The privilege mechanism rejected the elevated step.
    ElevationDenied,
}

/// How a launched step ended.
#[derive(Clone, Copy, PartialEq, Eq, Structural, Debug)]
pub enum StepOutcome {
    /// The process exited with this code.
    Exited(i32),
    /// The privilege mechanism rejected the elevated invocation.
    Denied,
}

/// Exit-status interpretation: zero is success, anything else is failure.
pub open spec fn step_succeeded(code: i32) -> bool {
    code == 0
}

/// Walks a plan in order, stopping for good at the first failure.
pub struct StepRunner {
    /// The plan.
    pub steps: Vec<BuildStep>,
    /// The next step to hand out.
    pub next: usize,
    /// The failure that halted the plan, if one did.
    pub failed: Option<BuildError>,
}

impl StepRunner {
    /// The cursor never passes the end of the plan.
    pub open spec fn wf(&self) -> bool {
        self.next <= self.steps@.len()
    }

    /// A failure has been recorded; nothing more will run.
    pub open spec fn halted(&self) -> bool {
        self.failed.is_some()
    }

    /// The index of the step that should run next, if any.
    pub open spec fn spec_current(&self) -> Option<int> {
        if self.failed.is_some() || self.next >= self.steps@.len() {
            None
        } else {
            Some(self.next as int)
        }
    }

    /// A runner at the start of the given plan.
    pub fn new(steps: Vec<BuildStep>) -> (r: StepRunner)
        ensures
            r.steps@ == steps@,
            r.next == 0,
            r.failed.is_none(),
            r.wf(),
    {
        StepRunner { steps, next: 0, failed: None }
    }

    /// The step to run next: none once the plan is exhausted or halted.
    pub fn current(&self) -> (r: Option<&BuildStep>)
        ensures
            match r {
                Some(s) => self.spec_current() == Some(self.next as int) && s == &self.steps@[
                    self.next as int
                ],
                None => self.spec_current().is_none(),
            },
    {
        if self.failed.is_some() || self.next >= self.steps.len() {
            None
        } else {
            Some(&self.steps[self.next])
        }
    }

    /// Record how the current step ended. A zero exit advances the plan; a
    /// nonzero exit or a denied elevation halts it with the matching error,
    /// and the cursor never moves again.
    pub fn report(&mut self, outcome: StepOutcome)
        requires
            old(self).wf(),
            !old(self).halted(),
            old(self).next < old(self).steps@.len(),
            outcome == StepOutcome::Denied ==> old(self).steps@[old(self).next as int]@.elevated,
        ensures
            final(self).wf(),
            final(self).steps@ == old(self).steps@,
            match outcome {
                StepOutcome::Exited(code) => {
                    if step_succeeded(code) {
                        final(self).next == old(self).next + 1 && final(self).failed.is_none()
                    } else {
                        final(self).next == old(self).next && final(self).failed == Some(
                            BuildError::BuildStepFailed {
                                step: old(self).steps@[old(self).next as int]@.kind,
                                code,
                            },
                        )
                    }
                },
                StepOutcome::Denied => final(self).next == old(self).next && final(self).failed
                    == Some(BuildError::ElevationDenied),
            },
    {
        match outcome {
            StepOutcome::Exited(code) => {
                let n = self.steps.len();
                if code == 0 {
                    if self.next < n {
                        self.next += 1;
                    }
                } else {
                    let kind = self.steps[self.next].kind;
                    self.failed = Some(BuildError::BuildStepFailed { step: kind, code });
                }
            },
            StepOutcome::Denied => {
                self.failed = Some(BuildError::ElevationDenied);
            },
        }
    }

    /// The recorded failure, if any.
    pub fn failure(&self) -> (r: &Option<BuildError>)
        ensures
            r == &self.failed,
    {
        &self.failed
    }

    /// The whole plan ran and nothing failed.
    pub fn completed(&self) -> (r: bool)
        ensures
            r == (self.failed.is_none() && self.next == self.steps@.len()),
    {
        self.failed.is_none() && self.next == self.steps.len()
    }
}

/// Once a failure is recorded, no further step is ever handed out.
pub proof fn lemma_failure_halts(r: StepRunner)
    requires
        r.halted(),
    ensures
        r.spec_current().is_none(),
{
}

} // verus!
