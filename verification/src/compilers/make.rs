//! The configure-script backend: `configure --prefix=/usr`, `make`,
//! `make install`, in that order; any nonzero exit aborts the sequence at
//! once when the plan is run.

use vstd::prelude::*;
use vstd::string::StringSliceAdditionalSpecFns;

use crate::bytes::{split_ws, split_ws_bytes, str_bytes};
use crate::step::{plan_view, BuildStep, StepKind, StepModel};

verus! {

/// The configure-backend plan: configure with the install prefix and any
/// extra arguments, then compile, then install, all in the project directory.
pub open spec fn spec_configure_plan(project_dir: Seq<u8>, extra_args: Seq<u8>) -> Seq<StepModel> {
    seq![
        StepModel {
            kind: StepKind::Configure,
            dir: project_dir,
            program: "./configure".spec_bytes(),
            args: seq!["--prefix=/usr".spec_bytes()] + split_ws(extra_args),
            elevated: false,
        },
        StepModel {
            kind: StepKind::Compile,
            dir: project_dir,
            program: "make".spec_bytes(),
            args: Seq::empty(),
            elevated: false,
        },
        StepModel {
            kind: StepKind::Install,
            dir: project_dir,
            program: "make".spec_bytes(),
            args: seq!["install".spec_bytes()],
            elevated: false,
        },
    ]
}

/// The install sequence of a configure-script project, as a plan.
pub fn install(project_dir: &[u8], build_dir: &[u8], arguments: &[u8]) -> (r: Vec<BuildStep>)
    ensures
        plan_view(r@) == spec_configure_plan(project_dir@, arguments@),
{
    let mut configure_args: Vec<Vec<u8>> = Vec::new();
    configure_args.push(str_bytes("--prefix=/usr"));
    let mut extra = split_ws_bytes(arguments);
    configure_args.append(&mut extra);
    proof {
        assert(configure_args.deep_view() =~~= seq!["--prefix=/usr".spec_bytes()] + split_ws(
            arguments@,
        ));
    }
    let mut install_args: Vec<Vec<u8>> = Vec::new();
    install_args.push(str_bytes("install"));
    let mut r: Vec<BuildStep> = Vec::new();
    r.push(
        BuildStep {
            kind: StepKind::Configure,
            dir: vstd::slice::slice_to_vec(project_dir),
            program: str_bytes("./configure"),
            args: configure_args,
            elevated: false,
        },
    );
    r.push(
        BuildStep {
            kind: StepKind::Compile,
            dir: vstd::slice::slice_to_vec(project_dir),
            program: str_bytes("make"),
            args: Vec::new(),
            elevated: false,
        },
    );
    r.push(
        BuildStep {
            kind: StepKind::Install,
            dir: vstd::slice::slice_to_vec(project_dir),
            program: str_bytes("make"),
            args: install_args,
            elevated: false,
        },
    );
    proof {
        assert(plan_view(r@) =~~= spec_configure_plan(project_dir@, arguments@));
    }
    r
}

/// Build a configure-script project: the uniform driver entry.
pub fn build(project_dir: &[u8], build_dir: &[u8], arguments: &[u8]) -> (r: Vec<BuildStep>)
    ensures
        plan_view(r@) == spec_configure_plan(project_dir@, arguments@),
{
    install(project_dir, build_dir, arguments)
}

} // verus!
