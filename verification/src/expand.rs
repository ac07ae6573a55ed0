//! The template expander: literal substring substitution of recognized
//! placeholder forms, using the recipe's variables with documented fallbacks.
//!
//! This is a best-effort textual macro pass, not a shell expander: bracketed
//! and longer forms are substituted before their bare counterparts, and a few
//! format-normalizing replacements run at the end.

use vstd::prelude::*;
use vstd::string::StringSliceAdditionalSpecFns;

use crate::bytes::{replace, replace_bytes, seek, seek_bytes, str_bytes, Stop, B_SLASH};
use crate::recipe::{lookup, Recipe};

verus! {

/// The value of variable `key`, or `dflt` where it is absent.
pub open spec fn var_or(vars: Seq<(Seq<u8>, Seq<u8>)>, key: Seq<u8>, dflt: Seq<u8>) -> Seq<u8> {
    match lookup(vars, key) {
        Some(v) => v,
        None => dflt,
    }
}

/// Executable mirror of [`var_or`].
pub fn var_or_bytes(recipe: &Recipe, key: &[u8], dflt: Vec<u8>) -> (r: Vec<u8>)
    ensures
        r@ == var_or(recipe.vars(), key@, dflt@),
{
    match recipe.get_var(key) {
        Some(v) => v,
        None => dflt,
    }
}

/// The text up to the first whitespace: the first token of a variable value.
pub open spec fn first_token(s: Seq<u8>) -> Seq<u8> {
    s.take(seek(s, Stop::Space) as int)
}

/// Executable mirror of [`first_token`].
pub fn first_token_bytes(s: &[u8]) -> (r: Vec<u8>)
    ensures
        r@ == first_token(s@),
{
    let e = seek_bytes(s, Stop::Space);
    let r = vstd::slice::slice_to_vec(vstd::slice::slice_subrange(s, 0, e));
    assert(r@ =~= s@.take(e as int));
    r
}

/// The project directory with a trailing separator.
pub open spec fn dir_slash(dir: Seq<u8>) -> Seq<u8> {
    if dir.len() > 0 && dir.last() == B_SLASH {
        dir
    } else {
        dir + seq![B_SLASH]
    }
}

/// Executable mirror of [`dir_slash`].
pub fn dir_slash_bytes(dir: &[u8]) -> (r: Vec<u8>)
    ensures
        r@ == dir_slash(dir@),
{
    let mut v = vstd::slice::slice_to_vec(dir);
    if dir.len() > 0 && dir[dir.len() - 1] == B_SLASH {
        v
    } else {
        v.push(B_SLASH);
        assert(v@ =~= dir@ + seq![B_SLASH]);
        v
    }
}

/// The fixed, ordered substitution pass over `input`: `$srcdir/` becomes the
/// project directory with a trailing separator; `${pkgver}`/`$pkgver`,
/// `${pkgname}`/`$pkgname`, `$_pkgname`, `$pkgbase`, `$_name` and `$url` take
/// the variable's value or its fallback; then `{,.sig}`, `git+` and stray
/// parentheses are dropped.
pub open spec fn spec_expand(input: Seq<u8>, vars: Seq<(Seq<u8>, Seq<u8>)>, dir: Seq<u8>) -> Seq<
    u8,
> {
    let pv = var_or(vars, "pkgver".spec_bytes(), "1.0.0".spec_bytes());
    let pn = var_or(vars, "pkgname".spec_bytes(), "null".spec_bytes());
    let pn2 = var_or(vars, "_pkgname".spec_bytes(), "null".spec_bytes());
    let pb = var_or(vars, "pkgbase".spec_bytes(), "null".spec_bytes());
    let nm = var_or(vars, "_name".spec_bytes(), pn);
    let pu = var_or(vars, "url".spec_bytes(), "https://placeholder.invalid".spec_bytes());
    let s1 = replace(input, "$srcdir/".spec_bytes(), dir_slash(dir));
    let s2 = replace(s1, "${pkgver}".spec_bytes(), pv);
    let s3 = replace(s2, "$pkgver".spec_bytes(), pv);
    let s4 = replace(s3, "${pkgname}".spec_bytes(), pn);
    let s5 = replace(s4, "$pkgname".spec_bytes(), pn);
    let s6 = replace(s5, "$_pkgname".spec_bytes(), pn2);
    let s7 = replace(s6, "$pkgbase".spec_bytes(), pb);
    let s8 = replace(s7, "$_name".spec_bytes(), nm);
    let s9 = replace(s8, "$url".spec_bytes(), pu);
    let s10 = replace(s9, "{,.sig}".spec_bytes(), Seq::empty());
    let s11 = replace(s10, "git+".spec_bytes(), Seq::empty());
    let s12 = replace(s11, "(".spec_bytes(), Seq::empty());
    replace(s12, ")".spec_bytes(), Seq::empty())
}

/// Expand every recognized placeholder in `input` against the recipe's
/// variables and the project directory.
pub fn format_pkgbuild(input: &[u8], recipe: &Recipe, src_dir: &[u8]) -> (r: Vec<u8>)
    ensures
        r@ == spec_expand(input@, recipe.vars(), src_dir@),
{
    let pv = var_or_bytes(recipe, str_bytes("pkgver").as_slice(), str_bytes("1.0.0"));
    let pn = var_or_bytes(recipe, str_bytes("pkgname").as_slice(), str_bytes("null"));
    let pn2 = var_or_bytes(recipe, str_bytes("_pkgname").as_slice(), str_bytes("null"));
    let pb = var_or_bytes(recipe, str_bytes("pkgbase").as_slice(), str_bytes("null"));
    let nm = var_or_bytes(recipe, str_bytes("_name").as_slice(), crate::bytes::copy_bytes(&pn));
    let pu = var_or_bytes(
        recipe,
        str_bytes("url").as_slice(),
        str_bytes("https://placeholder.invalid"),
    );
    let ds = dir_slash_bytes(src_dir);
    let none: Vec<u8> = Vec::new();
    let s1 = replace_bytes(input, str_bytes("$srcdir/").as_slice(), ds.as_slice());
    let s2 = replace_bytes(s1.as_slice(), str_bytes("${pkgver}").as_slice(), pv.as_slice());
    let s3 = replace_bytes(s2.as_slice(), str_bytes("$pkgver").as_slice(), pv.as_slice());
    let s4 = replace_bytes(s3.as_slice(), str_bytes("${pkgname}").as_slice(), pn.as_slice());
    let s5 = replace_bytes(s4.as_slice(), str_bytes("$pkgname").as_slice(), pn.as_slice());
    let s6 = replace_bytes(s5.as_slice(), str_bytes("$_pkgname").as_slice(), pn2.as_slice());
    let s7 = replace_bytes(s6.as_slice(), str_bytes("$pkgbase").as_slice(), pb.as_slice());
    let s8 = replace_bytes(s7.as_slice(), str_bytes("$_name").as_slice(), nm.as_slice());
    let s9 = replace_bytes(s8.as_slice(), str_bytes("$url").as_slice(), pu.as_slice());
    let s10 = replace_bytes(s9.as_slice(), str_bytes("{,.sig}").as_slice(), none.as_slice());
    let s11 = replace_bytes(s10.as_slice(), str_bytes("git+").as_slice(), none.as_slice());
    let s12 = replace_bytes(s11.as_slice(), str_bytes("(").as_slice(), none.as_slice());
    replace_bytes(s12.as_slice(), str_bytes(")").as_slice(), none.as_slice())
}

/// The placeholder variable names are pairwise distinguishable by length.
proof fn lemma_placeholder_key_lens()
    ensures
        "pkgver".spec_bytes().len() == 6,
        "pkgname".spec_bytes().len() == 7,
        "_pkgname".spec_bytes().len() == 8,
        "pkgbase".spec_bytes().len() == 7,
        "_name".spec_bytes().len() == 5,
        "url".spec_bytes().len() == 3,
{
    broadcast use vstd::string::is_ascii_spec_bytes;

    reveal_strlit("pkgver");
    reveal_strlit("pkgname");
    reveal_strlit("_pkgname");
    reveal_strlit("pkgbase");
    reveal_strlit("_name");
    reveal_strlit("url");
    assert(vstd::string::is_ascii("pkgver"));
    assert(vstd::string::is_ascii("pkgname"));
    assert(vstd::string::is_ascii("_pkgname"));
    assert(vstd::string::is_ascii("pkgbase"));
    assert(vstd::string::is_ascii("_name"));
    assert(vstd::string::is_ascii("url"));
}

/// A recipe text with no `pkgver` declaration leaves the variable absent, and
/// the expander then substitutes exactly as if the recipe had declared
/// `pkgver` as the fallback `1.0.0`.
pub proof fn lemma_pkgver_fallback(s: Seq<u8>, input: Seq<u8>, dir: Seq<u8>)
    requires
        forall|j: int|
            0 <= j < crate::bytes::lines(s).len() ==> (#[trigger] crate::recipe::spec_var_line(
                crate::bytes::lines(s)[j],
            ) matches Some(kv) ==> kv.0 != "pkgver".spec_bytes()),
    ensures
        lookup(crate::recipe::spec_vars(s), "pkgver".spec_bytes()).is_none(),
        spec_expand(input, crate::recipe::spec_vars(s), dir) == spec_expand(
            input,
            crate::recipe::upsert(
                crate::recipe::spec_vars(s),
                "pkgver".spec_bytes(),
                "1.0.0".spec_bytes(),
            ),
            dir,
        ),
{
    let kp = "pkgver".spec_bytes();
    let fb = "1.0.0".spec_bytes();
    crate::recipe::lemma_vars_no_key(crate::bytes::lines(s), kp);
    let vars = crate::recipe::spec_vars(s);
    let vars2 = crate::recipe::upsert(vars, kp, fb);
    crate::recipe::lemma_lookup_upsert_same(vars, kp, fb);
    lemma_placeholder_key_lens();
    crate::recipe::lemma_lookup_upsert_other(vars, kp, fb, "pkgname".spec_bytes());
    crate::recipe::lemma_lookup_upsert_other(vars, kp, fb, "_pkgname".spec_bytes());
    crate::recipe::lemma_lookup_upsert_other(vars, kp, fb, "pkgbase".spec_bytes());
    crate::recipe::lemma_lookup_upsert_other(vars, kp, fb, "_name".spec_bytes());
    crate::recipe::lemma_lookup_upsert_other(vars, kp, fb, "url".spec_bytes());
    assert(var_or(vars2, kp, fb) == var_or(vars, kp, fb));
    assert(var_or(vars2, "pkgname".spec_bytes(), "null".spec_bytes()) == var_or(
        vars,
        "pkgname".spec_bytes(),
        "null".spec_bytes(),
    ));
}

/// The expansion of the `_archive` variable: `$pkgver`, the first token of
/// `$pkgname`, and `$_pkgname` substituted, parentheses stripped.
pub open spec fn spec_archive(vars: Seq<(Seq<u8>, Seq<u8>)>) -> Seq<u8> {
    let archive = var_or(vars, "_archive".spec_bytes(), "null".spec_bytes());
    let pv = var_or(vars, "pkgver".spec_bytes(), "1.0.0".spec_bytes());
    let pn = first_token(var_or(vars, "pkgname".spec_bytes(), "null".spec_bytes()));
    let pn2 = var_or(vars, "_pkgname".spec_bytes(), "null".spec_bytes());
    let s1 = replace(archive, "$pkgver".spec_bytes(), pv);
    let s2 = replace(s1, "$pkgname".spec_bytes(), pn);
    let s3 = replace(s2, "$_pkgname".spec_bytes(), pn2);
    let s4 = replace(s3, "(".spec_bytes(), Seq::empty());
    replace(s4, ")".spec_bytes(), Seq::empty())
}

/// Expand the archive-name template held in the `_archive` variable.
pub fn format_archive(recipe: &Recipe) -> (r: Vec<u8>)
    ensures
        r@ == spec_archive(recipe.vars()),
{
    let archive = var_or_bytes(recipe, str_bytes("_archive").as_slice(), str_bytes("null"));
    let pv = var_or_bytes(recipe, str_bytes("pkgver").as_slice(), str_bytes("1.0.0"));
    let pn_full = var_or_bytes(recipe, str_bytes("pkgname").as_slice(), str_bytes("null"));
    let pn = first_token_bytes(pn_full.as_slice());
    let pn2 = var_or_bytes(recipe, str_bytes("_pkgname").as_slice(), str_bytes("null"));
    let none: Vec<u8> = Vec::new();
    let s1 = replace_bytes(archive.as_slice(), str_bytes("$pkgver").as_slice(), pv.as_slice());
    let s2 = replace_bytes(s1.as_slice(), str_bytes("$pkgname").as_slice(), pn.as_slice());
    let s3 = replace_bytes(s2.as_slice(), str_bytes("$_pkgname").as_slice(), pn2.as_slice());
    let s4 = replace_bytes(s3.as_slice(), str_bytes("(").as_slice(), none.as_slice());
    replace_bytes(s4.as_slice(), str_bytes(")").as_slice(), none.as_slice())
}

} // verus!

