//! Backend selection: inspect a project directory's marker files and pick
//! exactly one build backend, in a fixed precedence order.
//!
//! A Ninja-style descriptor wins over a legacy configure-script marker; a
//! recipe file comes last; with none of the three, no backend is found, which
//! callers must report rather than treat as success.

use vstd::prelude::*;
use vstd::string::StringSliceAdditionalSpecFns;

use crate::bytes::{bytes_eq, str_bytes};

verus! {

/// One build-tool family.
#[derive(Clone, Copy, PartialEq, Eq, Structural, Debug)]
pub enum BackendKind {
    /// Ninja-style descriptor (`meson.build`).
    Ninja,
    /// Configure-script / Makefile project.
    Configure,
    /// Recipe file (`PKGBUILD`).
    Recipe,
}

/// The outcome of backend selection.
#[derive(Clone, Copy, PartialEq, Eq, Structural, Debug)]
pub struct BackendSelection {
    /// The selected backend, or nothing when no marker file is present.
    pub kind: Option<BackendKind>,
    /// Both a Ninja descriptor and a configure marker are present; the
    /// operator is told which one won.
    pub conflict_notice: bool,
}

/// Whether the file listing holds an entry with exactly this name.
pub open spec fn contains_name(entries: Seq<Seq<u8>>, name: Seq<u8>) -> bool {
    exists|i: int| 0 <= i < entries.len() && entries[i] == name
}

/// Executable mirror of [`contains_name`].
pub fn has_entry(entries: &Vec<Vec<u8>>, name: &[u8]) -> (r: bool)
    ensures
        r == contains_name(entries.deep_view(), name@),
{
    let ghost dv = entries.deep_view();
    let mut i: usize = 0;
    while i < entries.len()
        invariant
            i <= entries@.len(),
            dv == entries.deep_view(),
            forall|k: int| 0 <= k < i ==> dv[k] != name@,
        decreases entries@.len() - i,
    {
        proof {
            assert(dv[i as int] == entries@[i as int].deep_view());
            assert(entries@[i as int].deep_view() =~= entries@[i as int]@);
        }
        if bytes_eq(entries[i].as_slice(), name) {
            return true;
        }
        i += 1;
    }
    false
}

/// Backend precedence on a fixed marker-file set: the Ninja descriptor wins
/// even when a configure marker is also present (with a notice), then the
/// configure marker, then the recipe file, then nothing.
pub open spec fn spec_select(entries: Seq<Seq<u8>>) -> BackendSelection {
    if contains_name(entries, "meson.build".spec_bytes()) {
        BackendSelection {
            kind: Some(BackendKind::Ninja),
            conflict_notice: contains_name(entries, "Makefile".spec_bytes()),
        }
    } else if contains_name(entries, "Makefile".spec_bytes()) {
        BackendSelection { kind: Some(BackendKind::Configure), conflict_notice: false }
    } else if contains_name(entries, "PKGBUILD".spec_bytes()) {
        BackendSelection { kind: Some(BackendKind::Recipe), conflict_notice: false }
    } else {
        BackendSelection { kind: None, conflict_notice: false }
    }
}

/// Select the build backend from the names of the files in the project
/// directory.
pub fn select_backend(entries: &Vec<Vec<u8>>) -> (r: BackendSelection)
    ensures
        r == spec_select(entries.deep_view()),
{
    let meson = str_bytes("meson.build");
    let makefile = str_bytes("Makefile");
    let recipe = str_bytes("PKGBUILD");
    if has_entry(entries, meson.as_slice()) {
        BackendSelection {
            kind: Some(BackendKind::Ninja),
            conflict_notice: has_entry(entries, makefile.as_slice()),
        }
    } else if has_entry(entries, makefile.as_slice()) {
        BackendSelection { kind: Some(BackendKind::Configure), conflict_notice: false }
    } else if has_entry(entries, recipe.as_slice()) {
        BackendSelection { kind: Some(BackendKind::Recipe), conflict_notice: false }
    } else {
        BackendSelection { kind: None, conflict_notice: false }
    }
}

/// The backend a build must use: an absent selection is the no-backend
/// failure, reported to the operator, never treated as success.
pub fn require_backend(sel: &BackendSelection) -> (r: Result<BackendKind, crate::step::BuildError>)
    ensures
        match r {
            Ok(k) => sel.kind == Some(k),
            Err(e) => sel.kind.is_none() && e matches crate::step::BuildError::NoBackendFound,
        },
{
    match sel.kind {
        Some(k) => Ok(k),
        None => Err(crate::step::BuildError::NoBackendFound),
    }
}

/// A directory holding a Ninja descriptor always selects the Ninja backend,
/// whatever else is present: selection is deterministic in the marker set.
pub proof fn lemma_ninja_precedence(entries: Seq<Seq<u8>>)
    requires
        contains_name(entries, "meson.build".spec_bytes()),
    ensures
        spec_select(entries).kind == Some(BackendKind::Ninja),
{
}

} // verus!
