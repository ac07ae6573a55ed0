//! Remote existence resolution: decide, from plain HTTP status values, whether
//! a package exists in a remote repository, trying a primary host and a
//! backup host on rejection.
//!
//! The probes themselves are network work and live outside this crate; what
//! stands here is the URL construction and the interpretation of every
//! possible probe outcome. Absence of proof of existence is non-existence:
//! this check can never fail, only answer no.

use vstd::prelude::*;
use vstd::string::StringSliceAdditionalSpecFns;

use crate::bytes::{last_idx, last_idx_bytes, str_bytes, B_DOT, B_SLASH};

verus! {

/// The address probed for a package: the repository base, the `packages/`
/// collection, then the name.
pub open spec fn spec_probe_url(repo_base: Seq<u8>, name: Seq<u8>) -> Seq<u8> {
    repo_base + "packages/".spec_bytes() + name
}

/// Build the existence-probe address for `name` under `repo_base`.
pub fn probe_url(repo_base: &[u8], name: &[u8]) -> (r: Vec<u8>)
    ensures
        r@ == spec_probe_url(repo_base@, name@),
{
    let mut v = vstd::slice::slice_to_vec(repo_base);
    let seg = str_bytes("packages/");
    v.extend_from_slice(seg.as_slice());
    v.extend_from_slice(name);
    assert(v@ =~= repo_base@ + "packages/".spec_bytes() + name@);
    v
}

/// A probe outcome proves existence only with a success status: 2xx means
/// the entry exists, anything else — other statuses as well as no response
/// at all — means it does not.
pub open spec fn status_ok(status: Option<u16>) -> bool {
    match status {
        Some(c) => 200 <= c < 300,
        None => false,
    }
}

/// Interpret one probe outcome. Total: a failed probe (no status) yields
/// `false`, never an error.
pub fn exists_from_status(status: Option<u16>) -> (r: bool)
    ensures
        r == status_ok(status),
{
    match status {
        Some(c) => 200 <= c && c < 300,
        None => false,
    }
}

/// Interpret a primary probe with a backup probe behind it: the entry exists
/// when either host answered with success.
pub fn exists_with_fallback(primary: Option<u16>, backup: Option<u16>) -> (r: bool)
    ensures
        r == (status_ok(primary) || status_ok(backup)),
{
    exists_from_status(primary) || exists_from_status(backup)
}

/// The file segment of a URL: everything after the last slash, or the whole
/// text when it has none.
pub open spec fn spec_url_file_name(url: Seq<u8>) -> Seq<u8> {
    match last_idx(url, B_SLASH) {
        Some(i) => url.skip(i + 1),
        None => url,
    }
}

/// Executable mirror of [`spec_url_file_name`].
pub fn url_file_name(url: &[u8]) -> (r: Vec<u8>)
    ensures
        r@ == spec_url_file_name(url@),
{
    let n = url.len();
    match last_idx_bytes(url, B_SLASH) {
        Some(i) => {
            proof {
                crate::bytes::lemma_last_idx(url@, B_SLASH);
            }
            let r = vstd::slice::slice_to_vec(vstd::slice::slice_subrange(url, i + 1, n));
            assert(r@ =~= url@.skip(i + 1));
            r
        },
        None => vstd::slice::slice_to_vec(url),
    }
}

/// The package name inside a repository URL: the file segment with its
/// last dotted suffix dropped, so `.../name.git` yields `name`.
pub open spec fn spec_pkg_name_from_url(url: Seq<u8>) -> Seq<u8> {
    let seg = spec_url_file_name(url);
    match last_idx(seg, B_DOT) {
        Some(j) => seg.take(j),
        None => seg,
    }
}

/// Executable mirror of [`spec_pkg_name_from_url`].
pub fn pkg_name_from_url(url: &[u8]) -> (r: Vec<u8>)
    ensures
        r@ == spec_pkg_name_from_url(url@),
{
    let seg = url_file_name(url);
    match last_idx_bytes(seg.as_slice(), B_DOT) {
        Some(j) => {
            proof {
                crate::bytes::lemma_last_idx(seg@, B_DOT);
            }
            let r = vstd::slice::slice_to_vec(
                vstd::slice::slice_subrange(seg.as_slice(), 0, j),
            );
            assert(r@ =~= seg@.take(j as int));
            r
        },
        None => seg,
    }
}

/// The clone address of `name` at the backup host.
pub open spec fn spec_backup_clone_url(name: Seq<u8>) -> Seq<u8> {
    "https://gitlab.archlinux.org/archlinux/packaging/packages/".spec_bytes() + name
        + ".git".spec_bytes()
}

/// Build the backup-host clone address for a package name.
pub fn backup_clone_url(name: &[u8]) -> (r: Vec<u8>)
    ensures
        r@ == spec_backup_clone_url(name@),
{
    let mut v = str_bytes("https://gitlab.archlinux.org/archlinux/packaging/packages/");
    v.extend_from_slice(name);
    let tail = str_bytes(".git");
    v.extend_from_slice(tail.as_slice());
    assert(v@ =~= spec_backup_clone_url(name@));
    v
}

} // verus!
