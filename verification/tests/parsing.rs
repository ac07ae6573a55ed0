//! Tests for the recipe parser, the template expander and dependency
//! extraction.

use uvi::compilers::pkgbuild::{build, package_fn_name};
use uvi::deps::extract_dependencies;
use uvi::expand::{format_archive, format_pkgbuild};
use uvi::recipe::parse;
use uvi::backend::BackendKind;

const RECIPE: &str = "pkgname=foo\npkgver=2.0\nbuild() {\nmake PREFIX=$pkgname-$pkgver\n}\npackage() {\nmake install\n}\n";

#[test]
fn variables_are_recorded_and_trimmed() {
    let r = parse(b"pkgname=foo\npkgver= 1.2 \nurl=\"https://x.example\"\n");
    assert_eq!(r.get_var(b"pkgname"), Some(b"foo".to_vec()));
    assert_eq!(r.get_var(b"pkgver"), Some(b"1.2".to_vec()));
    assert_eq!(r.get_var(b"url"), Some(b"https://x.example".to_vec()));
}

#[test]
fn later_declaration_overwrites() {
    let r = parse(b"pkgver=1.0\npkgver=2.0\n");
    assert_eq!(r.get_var(b"pkgver"), Some(b"2.0".to_vec()));
    assert_eq!(r.variables.len(), 1);
}

#[test]
fn value_stops_at_comment_sign() {
    let r = parse(b"opt=val#comment\n");
    assert_eq!(r.get_var(b"opt"), Some(b"val".to_vec()));
}

#[test]
fn empty_value_is_absent() {
    let r = parse(b"novalue=\nother=x\n");
    assert_eq!(r.get_var(b"novalue"), None);
    assert_eq!(r.get_var(b"other"), Some(b"x".to_vec()));
}

#[test]
fn missing_pkgver_is_absent_and_falls_back() {
    // A recipe with no pkgver line: the variable is absent, and the expander
    // substitutes the documented fallback wherever the placeholder appears.
    let r = parse(b"pkgname=foo\n");
    assert_eq!(r.get_var(b"pkgver"), None);
    let out = format_pkgbuild(b"v=$pkgver b=${pkgver}", &r, b"/tmp/p");
    assert_eq!(out, b"v=1.0.0 b=1.0.0".to_vec());
}

#[test]
fn functions_capture_body_to_closing_line() {
    let r = parse(b"build() {\n  make\n  make more\n}\nrest=1\n");
    assert_eq!(r.get_fun(b"build"), Some(b"make\n  make more".to_vec()));
    assert_eq!(r.get_var(b"rest"), Some(b"1".to_vec()));
}

#[test]
fn unclosed_function_is_absent() {
    let r = parse(b"build() {\n  make\n");
    assert_eq!(r.get_fun(b"build"), None);
}

#[test]
fn source_reference_with_alias() {
    let r = parse(b"source=(\"foo::git+https://host/foo.git\")\n");
    let src = r.source.expect("source expected");
    assert_eq!(src.alias, Some(b"foo".to_vec()));
    assert_eq!(src.url, b"git+https://host/foo.git".to_vec());
}

#[test]
fn source_reference_without_alias() {
    let r = parse(b"source=( https://host/a.tar.gz )\n");
    let src = r.source.expect("source expected");
    assert_eq!(src.alias, None);
    assert_eq!(src.url, b"https://host/a.tar.gz".to_vec());
}

#[test]
fn expanded_build_body_is_materialized() {
    // A recipe declaring pkgname=foo, pkgver=2.0 and a build function: its
    // expanded body is exactly the make invocation with both substituted.
    let r = parse(RECIPE.as_bytes());
    let body = r.get_fun(b"build").expect("build function expected");
    let out = format_pkgbuild(&body, &r, b"/tmp/proj");
    assert_eq!(out, b"make PREFIX=foo-2.0".to_vec());
}

#[test]
fn srcdir_gets_trailing_separator() {
    let r = parse(b"pkgname=foo\n");
    let out = format_pkgbuild(b"cd $srcdir/sub", &r, b"/tmp/p");
    assert_eq!(out, b"cd /tmp/p/sub".to_vec());
}

#[test]
fn normalizing_replacements_drop_noise() {
    let r = parse(b"pkgname=foo\n");
    let out = format_pkgbuild(b"git+https://h/x{,.sig}(y)", &r, b"/d");
    assert_eq!(out, b"https://h/xy".to_vec());
}

#[test]
fn archive_template_uses_first_name_token() {
    let r = parse(b"_archive=$pkgname-$pkgver.tar.gz\npkgname=foo bar\npkgver=3.1\n");
    assert_eq!(format_archive(&r), b"foo-3.1.tar.gz".to_vec());
}

#[test]
fn archive_template_defaults() {
    let r = parse(b"pkgname=foo\n");
    assert_eq!(format_archive(&r), b"null".to_vec());
}

#[test]
fn bare_package_wins_over_qualified() {
    // With both package() and package_foo() declared, the bare function is
    // always the one selected.
    let r = parse(b"pkgname=foo\npackage() {\na\n}\npackage_foo() {\nb\n}\n");
    assert_eq!(package_fn_name(&r), Ok(b"package".to_vec()));
}

#[test]
fn qualified_package_is_the_fallback() {
    let r = parse(b"pkgname=foo extra\npackage_foo() {\nb\n}\n");
    assert_eq!(package_fn_name(&r), Ok(b"package_foo".to_vec()));
}

#[test]
fn missing_package_names_the_qualified_function() {
    let r = parse(b"pkgname=foo\nbuild() {\nmake\n}\n");
    assert_eq!(package_fn_name(&r), Err(b"package_foo".to_vec()));
}

#[test]
fn recipe_plan_holds_fetch_and_both_functions() {
    let text = "pkgname=foo\npkgver=2.0\nsource=(\"https://h/$pkgname-$pkgver.tar.gz\")\nbuild() {\nmake\n}\npackage() {\nmake install\n}\n";
    let plan = build(text.as_bytes(), b"/tmp/proj").expect("plan expected");
    let fetch = plan.fetch.expect("fetch expected");
    assert_eq!(fetch.url, b"https://h/foo-2.0.tar.gz".to_vec());
    assert_eq!(fetch.dest_name, b"foo-2.0.tar.gz".to_vec());
    assert_eq!(plan.steps.len(), 2);
    assert_eq!(plan.steps[0].program, b"bash".to_vec());
    assert_eq!(plan.steps[0].args[0], b"-c".to_vec());
    assert_eq!(plan.steps[0].args[1], b"make".to_vec());
    assert!(!plan.steps[0].elevated);
    assert_eq!(plan.steps[1].args[1], b"make install".to_vec());
    assert!(plan.steps[1].elevated);
}

#[test]
fn recipe_without_package_fails_with_name() {
    let text = "pkgname=foo\nbuild() {\nmake\n}\n";
    match build(text.as_bytes(), b"/d") {
        Err(uvi::step::BuildError::RecipeIncomplete { missing }) => {
            assert_eq!(missing, b"package_foo".to_vec());
        }
        _ => panic!("expected the recipe-incomplete error"),
    }
}

#[test]
fn recipe_without_build_fails_with_name() {
    let text = "pkgname=foo\npackage() {\nmake install\n}\n";
    match build(text.as_bytes(), b"/d") {
        Err(uvi::step::BuildError::RecipeIncomplete { missing }) => {
            assert_eq!(missing, b"build".to_vec());
        }
        _ => panic!("expected the recipe-incomplete error"),
    }
}

#[test]
fn recipe_deps_are_stripped_sorted_deduplicated() {
    let text = "depends=('zlib' \"b>=1.2\" a)\nmakedepends=(a\n  'c<2')\n";
    let deps = extract_dependencies(text.as_bytes(), BackendKind::Recipe);
    assert_eq!(
        deps,
        vec![b"a".to_vec(), b"b".to_vec(), b"c".to_vec(), b"zlib".to_vec()]
    );
}

#[test]
fn dep_block_must_open_a_line() {
    let deps = extract_dependencies(b"optdepends=(x)\n notdepends=(y)\n", BackendKind::Recipe);
    assert_eq!(deps, Vec::<Vec<u8>>::new());
}

#[test]
fn descriptor_deps_are_captured() {
    let text = "project('x')\ndep = dependency('zlib')\nother = dependency ( \"abc\" )\n";
    let deps = extract_dependencies(text.as_bytes(), BackendKind::Ninja);
    assert_eq!(deps, vec![b"abc".to_vec(), b"zlib".to_vec()]);
}

#[test]
fn configure_backend_declares_nothing() {
    let deps = extract_dependencies(b"all:\n\tcc main.c\n", BackendKind::Configure);
    assert_eq!(deps, Vec::<Vec<u8>>::new());
}

#[test]
fn extraction_is_idempotent() {
    // Normalizing an extracted set a second time changes nothing.
    let text = "depends=(b a b)\nmakedepends=(a)\n";
    let deps = extract_dependencies(text.as_bytes(), BackendKind::Recipe);
    assert_eq!(deps, vec![b"a".to_vec(), b"b".to_vec()]);
    let again = uvi::order::normalize_vec(deps.clone());
    assert_eq!(again, deps);
}
