//! The Ninja-style backend: a one-time setup step when the build directory
//! is not yet configured, then always a compile step and an install step.
//!
//! The configured-check is the presence of the sentinel build file inside the
//! build directory; setup is idempotent and skippable, compile and install
//! are not.

use vstd::prelude::*;
use vstd::string::StringSliceAdditionalSpecFns;

use crate::backend::{contains_name, has_entry};
use crate::bytes::{split_ws, split_ws_bytes, str_bytes};
use crate::step::{plan_view, BuildStep, StepKind, StepModel};

verus! {

/// The build directory is already configured: its listing holds the sentinel
/// build file.
pub open spec fn spec_is_configured(build_dir_entries: Seq<Seq<u8>>) -> bool {
    contains_name(build_dir_entries, "build.ninja".spec_bytes())
}

/// Whether the build-directory listing shows the sentinel build file.
pub fn is_configured(build_dir_entries: &Vec<Vec<u8>>) -> (r: bool)
    ensures
        r == spec_is_configured(build_dir_entries.deep_view()),
{
    let sentinel = str_bytes("build.ninja");
    has_entry(build_dir_entries, sentinel.as_slice())
}

/// The Ninja-backend plan: setup (unless already configured) with the extra
/// arguments appended, then compile and install against the build directory.
pub open spec fn spec_ninja_plan(
    project_dir: Seq<u8>,
    build_dir: Seq<u8>,
    extra_args: Seq<u8>,
    configured: bool,
) -> Seq<StepModel> {
    let setup = StepModel {
        kind: StepKind::Setup,
        dir: project_dir,
        program: "meson".spec_bytes(),
        args: seq!["setup".spec_bytes(), ".".spec_bytes(), build_dir] + split_ws(extra_args),
        elevated: false,
    };
    let compile = StepModel {
        kind: StepKind::Compile,
        dir: project_dir,
        program: "meson".spec_bytes(),
        args: seq!["compile".spec_bytes(), "-C".spec_bytes(), build_dir],
        elevated: false,
    };
    let install = StepModel {
        kind: StepKind::Install,
        dir: project_dir,
        program: "meson".spec_bytes(),
        args: seq!["install".spec_bytes(), "-C".spec_bytes(), build_dir],
        elevated: false,
    };
    if configured {
        seq![compile, install]
    } else {
        seq![setup, compile, install]
    }
}

/// Build a Ninja-style project: the uniform driver entry, with the
/// configured-check already made against the build directory's listing.
pub fn build(
    project_dir: &[u8],
    build_dir: &[u8],
    arguments: &[u8],
    configured: bool,
) -> (r: Vec<BuildStep>)
    ensures
        plan_view(r@) == spec_ninja_plan(project_dir@, build_dir@, arguments@, configured),
{
    let mut r: Vec<BuildStep> = Vec::new();
    if !configured {
        let mut setup_args: Vec<Vec<u8>> = Vec::new();
        setup_args.push(str_bytes("setup"));
        setup_args.push(str_bytes("."));
        setup_args.push(vstd::slice::slice_to_vec(build_dir));
        let mut extra = split_ws_bytes(arguments);
        setup_args.append(&mut extra);
        proof {
            assert(setup_args.deep_view() =~~= seq![
                "setup".spec_bytes(),
                ".".spec_bytes(),
                build_dir@,
            ] + split_ws(arguments@));
        }
        r.push(
            BuildStep {
                kind: StepKind::Setup,
                dir: vstd::slice::slice_to_vec(project_dir),
                program: str_bytes("meson"),
                args: setup_args,
                elevated: false,
            },
        );
    }
    let mut compile_args: Vec<Vec<u8>> = Vec::new();
    compile_args.push(str_bytes("compile"));
    compile_args.push(str_bytes("-C"));
    compile_args.push(vstd::slice::slice_to_vec(build_dir));
    r.push(
        BuildStep {
            kind: StepKind::Compile,
            dir: vstd::slice::slice_to_vec(project_dir),
            program: str_bytes("meson"),
            args: compile_args,
            elevated: false,
        },
    );
    let mut install_args: Vec<Vec<u8>> = Vec::new();
    install_args.push(str_bytes("install"));
    install_args.push(str_bytes("-C"));
    install_args.push(vstd::slice::slice_to_vec(build_dir));
    r.push(
        BuildStep {
            kind: StepKind::Install,
            dir: vstd::slice::slice_to_vec(project_dir),
            program: str_bytes("meson"),
            args: install_args,
            elevated: false,
        },
    );
    proof {
        assert(plan_view(r@) =~~= spec_ninja_plan(project_dir@, build_dir@, arguments@, configured));
    }
    r
}

} // verus!
