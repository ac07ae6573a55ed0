//! Path construction and archive handling decisions.
//!
//! The cache location and the choice of an unpack command are pure functions
//! of the names involved; the filesystem work around them stays outside the
//! crate.

use vstd::prelude::*;
use vstd::string::StringSliceAdditionalSpecFns;

use crate::bytes::{last_idx, str_bytes, B_DOT};
use crate::remote::spec_url_file_name;
use crate::step::{BuildStep, StepKind, StepModel};

verus! {

/// The per-user cache directory under the given home directory.
pub open spec fn spec_cache_path(home: Seq<u8>) -> Seq<u8> {
    home + "/.cache/uvi".spec_bytes()
}

/// Build the cache path under `home`.
pub fn cache_path(home: &[u8]) -> (r: Vec<u8>)
    ensures
        r@ == spec_cache_path(home@),
{
    let mut v = vstd::slice::slice_to_vec(home);
    let tail = str_bytes("/.cache/uvi");
    v.extend_from_slice(tail.as_slice());
    assert(v@ =~= spec_cache_path(home@));
    v
}

/// The dotted extension of a path's file segment, when the segment has a dot
/// after its first byte.
pub open spec fn spec_extension(path: Seq<u8>) -> Option<Seq<u8>> {
    let seg = spec_url_file_name(path);
    match last_idx(seg, B_DOT) {
        Some(j) => if j > 0 {
            Some(seg.skip(j + 1))
        } else {
            None
        },
        None => None,
    }
}

/// Executable mirror of [`spec_extension`].
pub fn extension_of(path: &[u8]) -> (r: Option<Vec<u8>>)
    ensures
        match r {
            Some(e) => spec_extension(path@) == Some(e@),
            None => spec_extension(path@).is_none(),
        },
{
    let seg = crate::remote::url_file_name(path);
    let n = seg.len();
    match crate::bytes::last_idx_bytes(seg.as_slice(), B_DOT) {
        Some(j) => {
            proof {
                crate::bytes::lemma_last_idx(seg@, B_DOT);
            }
            if j > 0 {
                let e = vstd::slice::slice_to_vec(
                    vstd::slice::slice_subrange(seg.as_slice(), j + 1, n),
                );
                assert(e@ =~= seg@.skip(j + 1));
                Some(e)
            } else {
                None
            }
        },
        None => None,
    }
}

/// The command that unpacks a compressed archive in `dest_dir`, when the
/// file's extension marks one.
pub open spec fn spec_unpack_command(path: Seq<u8>, dest_dir: Seq<u8>) -> Option<StepModel> {
    match spec_extension(path) {
        Some(e) => if e == "gz".spec_bytes() || e == "xz".spec_bytes() || e == "zst".spec_bytes() {
            Some(
                StepModel {
                    kind: StepKind::Unpack,
                    dir: dest_dir,
                    program: "tar".spec_bytes(),
                    args: seq!["-xzf".spec_bytes(), path],
                    elevated: false,
                },
            )
        } else {
            None
        },
        None => None,
    }
}

/// Decide how to unpack the file at `path` into `dest_dir`: compressed tar
/// archives get a `tar` invocation, anything else is left alone.
pub fn unpack_command(path: &[u8], dest_dir: &[u8]) -> (r: Option<BuildStep>)
    ensures
        match r {
            Some(s) => spec_unpack_command(path@, dest_dir@) == Some(s@),
            None => spec_unpack_command(path@, dest_dir@).is_none(),
        },
{
    match extension_of(path) {
        Some(e) => {
            let gz = str_bytes("gz");
            let xz = str_bytes("xz");
            let zst = str_bytes("zst");
            if crate::bytes::bytes_eq(e.as_slice(), gz.as_slice()) || crate::bytes::bytes_eq(
                e.as_slice(),
                xz.as_slice(),
            ) || crate::bytes::bytes_eq(e.as_slice(), zst.as_slice()) {
                let mut args: Vec<Vec<u8>> = Vec::new();
                args.push(str_bytes("-xzf"));
                args.push(vstd::slice::slice_to_vec(path));
                let step = BuildStep {
                    kind: StepKind::Unpack,
                    dir: vstd::slice::slice_to_vec(dest_dir),
                    program: str_bytes("tar"),
                    args,
                    elevated: false,
                };
                proof {
                    assert(step@.args =~~= seq!["-xzf".spec_bytes(), path@]);
                    assert(step@ =~~= spec_unpack_command(path@, dest_dir@).unwrap());
                }
                Some(step)
            } else {
                None
            }
        },
        None => None,
    }
}

} // verus!
