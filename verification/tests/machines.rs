//! Tests for backend selection, the step runner, the remote-existence
//! helpers, path decisions and the dependency-resolution machine.

use uvi::backend::{select_backend, BackendKind};
use uvi::compilers::make;
use uvi::compilers::meson;
use uvi::paths::{cache_path, unpack_command};
use uvi::remote::{backup_clone_url, exists_from_status, exists_with_fallback, pkg_name_from_url,
    probe_url};
use uvi::resolve::{ResolveAction, ResolveEvent, ResolvePhase, Resolver};
use uvi::step::{BuildError, StepKind, StepOutcome, StepRunner};

fn names(entries: &[&str]) -> Vec<Vec<u8>> {
    entries.iter().map(|e| e.as_bytes().to_vec()).collect()
}

#[test]
fn ninja_descriptor_wins_with_notice() {
    // A fixed marker set always selects the same backend: the Ninja
    // descriptor wins even beside a configure marker, and the conflict is
    // surfaced.
    let sel = select_backend(&names(&["Makefile", "meson.build"]));
    assert_eq!(sel.kind, Some(BackendKind::Ninja));
    assert!(sel.conflict_notice);
    let again = select_backend(&names(&["meson.build", "Makefile"]));
    assert_eq!(again.kind, Some(BackendKind::Ninja));
    assert!(again.conflict_notice);
}

#[test]
fn makefile_alone_selects_configure() {
    let sel = select_backend(&names(&["Makefile", "src"]));
    assert_eq!(sel.kind, Some(BackendKind::Configure));
    assert!(!sel.conflict_notice);
}

#[test]
fn recipe_file_selects_recipe_backend() {
    let sel = select_backend(&names(&["PKGBUILD"]));
    assert_eq!(sel.kind, Some(BackendKind::Recipe));
}

#[test]
fn no_marker_finds_no_backend() {
    // With none of the recognized marker files, no backend is found and no
    // plan — hence no external command — exists at all.
    let sel = select_backend(&names(&["README", "src"]));
    assert_eq!(sel.kind, None);
    assert!(!sel.conflict_notice);
    assert!(matches!(
        uvi::backend::require_backend(&sel),
        Err(BuildError::NoBackendFound)
    ));
}

#[test]
fn configure_plan_runs_in_order_and_failure_halts() {
    // Only a Makefile: the configure backend issues configure --prefix=/usr,
    // make, make install, in that order; a nonzero configure exit prevents
    // make from ever being handed out.
    let sel = select_backend(&names(&["Makefile"]));
    assert_eq!(sel.kind, Some(BackendKind::Configure));
    let plan = make::build(b"/tmp/proj", b"/tmp/proj/build", b"");
    assert_eq!(plan.len(), 3);
    assert_eq!(plan[0].program, b"./configure".to_vec());
    assert_eq!(plan[0].args, vec![b"--prefix=/usr".to_vec()]);
    assert_eq!(plan[1].program, b"make".to_vec());
    assert!(plan[1].args.is_empty());
    assert_eq!(plan[2].program, b"make".to_vec());
    assert_eq!(plan[2].args, vec![b"install".to_vec()]);

    let mut runner = StepRunner::new(plan);
    let first = runner.current().expect("a first step");
    assert_eq!(first.kind, StepKind::Configure);
    runner.report(StepOutcome::Exited(2));
    assert!(runner.current().is_none());
    match runner.failure() {
        Some(BuildError::BuildStepFailed { step, code }) => {
            assert_eq!(*step, StepKind::Configure);
            assert_eq!(*code, 2);
        }
        _ => panic!("expected the failing step to be named"),
    }
}

#[test]
fn full_plan_walks_to_completion() {
    let plan = make::build(b"/p", b"/p/build", b"V=1");
    let mut runner = StepRunner::new(plan);
    assert_eq!(runner.current().unwrap().kind, StepKind::Configure);
    runner.report(StepOutcome::Exited(0));
    assert_eq!(runner.current().unwrap().kind, StepKind::Compile);
    runner.report(StepOutcome::Exited(0));
    assert_eq!(runner.current().unwrap().kind, StepKind::Install);
    runner.report(StepOutcome::Exited(0));
    assert!(runner.current().is_none());
    assert!(runner.completed());
}

#[test]
fn extra_arguments_reach_the_configure_step() {
    let plan = make::build(b"/p", b"/p/build", b"--with-x  V=1");
    assert_eq!(
        plan[0].args,
        vec![b"--prefix=/usr".to_vec(), b"--with-x".to_vec(), b"V=1".to_vec()]
    );
}

#[test]
fn denied_elevation_is_its_own_error() {
    let text = "pkgname=foo\nbuild() {\nmake\n}\npackage() {\nmake install\n}\n";
    let plan = uvi::compilers::pkgbuild::build(text.as_bytes(), b"/d").expect("plan");
    let mut runner = StepRunner::new(plan.steps);
    runner.report(StepOutcome::Exited(0));
    assert!(runner.current().expect("package step").elevated);
    runner.report(StepOutcome::Denied);
    assert!(matches!(runner.failure(), Some(BuildError::ElevationDenied)));
    assert!(runner.current().is_none());
}

#[test]
fn unconfigured_ninja_plan_includes_setup() {
    assert!(!meson::is_configured(&names(&["compile_commands.json"])));
    let plan = meson::build(b"/p", b"/p/build", b"-Dx=1", false);
    assert_eq!(plan.len(), 3);
    assert_eq!(plan[0].kind, StepKind::Setup);
    assert_eq!(plan[0].program, b"meson".to_vec());
    assert_eq!(
        plan[0].args,
        vec![b"setup".to_vec(), b".".to_vec(), b"/p/build".to_vec(), b"-Dx=1".to_vec()]
    );
    assert_eq!(plan[1].kind, StepKind::Compile);
    assert_eq!(plan[2].kind, StepKind::Install);
}

#[test]
fn configured_ninja_plan_skips_setup() {
    assert!(meson::is_configured(&names(&["build.ninja", "meson-info"])));
    let plan = meson::build(b"/p", b"/p/build", b"", true);
    assert_eq!(plan.len(), 2);
    assert_eq!(plan[0].kind, StepKind::Compile);
    assert_eq!(plan[0].args, vec![b"compile".to_vec(), b"-C".to_vec(), b"/p/build".to_vec()]);
    assert_eq!(plan[1].kind, StepKind::Install);
    assert_eq!(plan[1].args, vec![b"install".to_vec(), b"-C".to_vec(), b"/p/build".to_vec()]);
}

#[test]
fn probe_address_is_base_packages_name() {
    assert_eq!(
        probe_url(b"https://aur.archlinux.org/", b"yay"),
        b"https://aur.archlinux.org/packages/yay".to_vec()
    );
}

#[test]
fn existence_check_never_fails() {
    // A failed probe — no status at all — is simply non-existence.
    assert!(!exists_from_status(None));
    assert!(!exists_from_status(Some(404)));
    assert!(!exists_from_status(Some(500)));
    assert!(exists_from_status(Some(200)));
    assert!(exists_from_status(Some(204)));
    assert!(!exists_from_status(Some(302)));
}

#[test]
fn backup_host_answers_on_rejection() {
    assert!(exists_with_fallback(Some(404), Some(200)));
    assert!(exists_with_fallback(Some(200), None));
    assert!(!exists_with_fallback(Some(404), None));
    assert!(!exists_with_fallback(None, None));
}

#[test]
fn package_name_comes_from_clone_url() {
    assert_eq!(pkg_name_from_url(b"https://aur.archlinux.org/yay.git"), b"yay".to_vec());
    assert_eq!(pkg_name_from_url(b"plain"), b"plain".to_vec());
    assert_eq!(
        backup_clone_url(b"yay"),
        b"https://gitlab.archlinux.org/archlinux/packaging/packages/yay.git".to_vec()
    );
}

#[test]
fn cache_sits_under_home() {
    assert_eq!(cache_path(b"/home/u"), b"/home/u/.cache/uvi".to_vec());
    assert_eq!(cache_path(b"/tmp"), b"/tmp/.cache/uvi".to_vec());
}

#[test]
fn compressed_archives_get_a_tar_command() {
    let step = unpack_command(b"/c/foo-1.0.tar.gz", b"/c").expect("a tar step");
    assert_eq!(step.kind, StepKind::Unpack);
    assert_eq!(step.program, b"tar".to_vec());
    assert_eq!(step.args, vec![b"-xzf".to_vec(), b"/c/foo-1.0.tar.gz".to_vec()]);
    assert_eq!(step.dir, b"/c".to_vec());
    assert!(unpack_command(b"/c/foo.zip", b"/c").is_none());
    assert!(unpack_command(b"/c/foo", b"/c").is_none());
    assert!(unpack_command(b"/c/.gz", b"/c").is_none());
}

#[test]
fn fast_path_ends_after_one_successful_build() {
    let mut r = Resolver::new(&names(&["liba"]));
    assert_eq!(r.next_action(), ResolveAction::RunPrimaryBuild);
    r.on_event(ResolveEvent::BuildResult { success: true });
    assert_eq!(r.next_action(), ResolveAction::Finished { success: true });
    assert!(!r.deps[0].checked_remote);
}

#[test]
fn resolution_walks_deps_and_retries_once() {
    // Primary build fails; of the two declared names only the one that
    // exists remotely is fetched and built; the final retry then runs
    // exactly once and its result is the outcome.
    let mut r = Resolver::new(&names(&["libx", "liby"]));
    assert_eq!(r.next_action(), ResolveAction::RunPrimaryBuild);
    r.on_event(ResolveEvent::BuildResult { success: false });

    assert_eq!(r.next_action(), ResolveAction::CheckRemote { idx: 0 });
    assert_eq!(r.dep_name(0), b"libx".to_vec());
    r.on_event(ResolveEvent::CheckResult { exists: true, cached: false });

    assert_eq!(r.next_action(), ResolveAction::FetchDep { idx: 0 });
    r.on_event(ResolveEvent::FetchResult { ok: true });

    assert_eq!(r.next_action(), ResolveAction::BuildDep { idx: 0 });
    r.on_event(ResolveEvent::BuildResult { success: false });

    // liby does not exist remotely: skipped, not an error.
    assert_eq!(r.next_action(), ResolveAction::CheckRemote { idx: 1 });
    assert_eq!(r.dep_name(1), b"liby".to_vec());
    r.on_event(ResolveEvent::CheckResult { exists: false, cached: false });

    // All names processed: the one final retry.
    assert_eq!(r.phase, ResolvePhase::FinalRetry);
    assert_eq!(r.next_action(), ResolveAction::RunPrimaryBuild);
    r.on_event(ResolveEvent::BuildResult { success: true });
    assert_eq!(r.next_action(), ResolveAction::Finished { success: true });

    assert!(r.deps[0].checked_remote && r.deps[0].exists_remote);
    assert!(r.deps[0].fetched && r.deps[0].build_attempted);
    assert!(r.deps[1].checked_remote && !r.deps[1].exists_remote);
    assert!(!r.deps[1].fetched && !r.deps[1].build_attempted);
}

#[test]
fn cached_dependency_skips_the_fetch() {
    let mut r = Resolver::new(&names(&["liba"]));
    r.on_event(ResolveEvent::BuildResult { success: false });
    r.on_event(ResolveEvent::CheckResult { exists: true, cached: true });
    assert_eq!(r.next_action(), ResolveAction::BuildDep { idx: 0 });
    assert!(r.deps[0].fetched);
}

#[test]
fn failed_fetch_skips_the_dependency() {
    let mut r = Resolver::new(&names(&["liba"]));
    r.on_event(ResolveEvent::BuildResult { success: false });
    r.on_event(ResolveEvent::CheckResult { exists: true, cached: false });
    r.on_event(ResolveEvent::FetchResult { ok: false });
    assert_eq!(r.phase, ResolvePhase::FinalRetry);
    r.on_event(ResolveEvent::BuildResult { success: false });
    assert_eq!(r.next_action(), ResolveAction::Finished { success: false });
}

#[test]
fn no_deps_goes_straight_to_retry() {
    let mut r = Resolver::new(&Vec::new());
    r.on_event(ResolveEvent::BuildResult { success: false });
    assert_eq!(r.phase, ResolvePhase::FinalRetry);
}
