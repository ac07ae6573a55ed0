//! The recipe backend: parse the recipe, pick its package function,
//! materialize the build and package bodies through the template expander,
//! and plan the fetch of the primary source followed by the build function
//! (ordinary user) and the package function (elevated).
//!
//! A recipe without a usable package function — neither `package` nor
//! `package_<name>` for the first token of `pkgname` — cannot be built; that
//! is a hard failure carrying the missing name, never a crash.

use vstd::prelude::*;
use vstd::string::StringSliceAdditionalSpecFns;

use crate::bytes::str_bytes;
use crate::expand::{first_token, first_token_bytes, format_pkgbuild, spec_expand, var_or,
    var_or_bytes};
use crate::recipe::{lookup, parse, spec_funs, spec_source, spec_vars, Recipe};
use crate::remote::{spec_url_file_name, url_file_name};
use crate::step::{plan_view, BuildError, BuildStep, StepKind, StepModel};

verus! {

/// The fetch of the recipe's primary source: the expanded URL and the file
/// name it lands under in the project directory.
pub struct FetchStep {
    /// The expanded source URL.
    pub url: Vec<u8>,
    /// The file segment of that URL.
    pub dest_name: Vec<u8>,
}

/// The mathematical shape of a fetch.
#[verifier::ext_equal]
pub ghost struct FetchModel {
    /// The expanded source URL.
    pub url: Seq<u8>,
    /// The file segment of that URL.
    pub dest_name: Seq<u8>,
}

impl View for FetchStep {
    type V = FetchModel;

    open spec fn view(&self) -> FetchModel {
        FetchModel { url: self.url@, dest_name: self.dest_name@ }
    }
}

/// What a recipe build runs: an optional source fetch, then the plan of
/// materialized function steps.
pub struct RecipePlan {
    /// The source fetch, where the recipe declares a source.
    pub fetch: Option<FetchStep>,
    /// The build-function step, then the elevated package-function step.
    pub steps: Vec<BuildStep>,
}

/// The mathematical shape of a recipe plan.
#[verifier::ext_equal]
pub ghost struct RecipePlanModel {
    /// The source fetch, if any.
    pub fetch: Option<FetchModel>,
    /// The steps.
    pub steps: Seq<StepModel>,
}

impl View for RecipePlan {
    type V = RecipePlanModel;

    open spec fn view(&self) -> RecipePlanModel {
        RecipePlanModel {
            fetch: match self.fetch {
                Some(f) => Some(f@),
                None => None,
            },
            steps: plan_view(self.steps@),
        }
    }
}

/// The package function a recipe build must run: the bare `package` function
/// whenever it exists, else `package_<name>` for the first token of the
/// `pkgname` variable; with neither, the qualified name is reported missing.
pub open spec fn spec_pkg_fn(
    vars: Seq<(Seq<u8>, Seq<u8>)>,
    funs: Seq<(Seq<u8>, Seq<u8>)>,
) -> Result<Seq<u8>, Seq<u8>> {
    if lookup(funs, "package".spec_bytes()).is_some() {
        Ok("package".spec_bytes())
    } else {
        let name = "package_".spec_bytes() + first_token(
            var_or(vars, "pkgname".spec_bytes(), "null".spec_bytes()),
        );
        if lookup(funs, name).is_some() {
            Ok(name)
        } else {
            Err(name)
        }
    }
}

/// Whenever a bare `package` function exists, it is the one selected — never
/// the name-qualified variant.
pub proof fn lemma_bare_package_preferred(
    vars: Seq<(Seq<u8>, Seq<u8>)>,
    funs: Seq<(Seq<u8>, Seq<u8>)>,
)
    requires
        lookup(funs, "package".spec_bytes()).is_some(),
    ensures
        spec_pkg_fn(vars, funs) == Ok::<Seq<u8>, Seq<u8>>("package".spec_bytes()),
{
}

/// Pick the package function of a parsed recipe, or name what is missing.
pub fn package_fn_name(recipe: &Recipe) -> (r: Result<Vec<u8>, Vec<u8>>)
    ensures
        match r {
            Ok(n) => spec_pkg_fn(recipe.vars(), recipe.funs()) == Ok::<Seq<u8>, Seq<u8>>(n@),
            Err(m) => spec_pkg_fn(recipe.vars(), recipe.funs()) == Err::<Seq<u8>, Seq<u8>>(m@),
        },
{
    let pkg = str_bytes("package");
    if recipe.get_fun(pkg.as_slice()).is_some() {
        return Ok(pkg);
    }
    let pn = var_or_bytes(recipe, str_bytes("pkgname").as_slice(), str_bytes("null"));
    let tok = first_token_bytes(pn.as_slice());
    let mut name = str_bytes("package_");
    name.extend_from_slice(tok.as_slice());
    assert(name@ =~= "package_".spec_bytes() + first_token(
        var_or(recipe.vars(), "pkgname".spec_bytes(), "null".spec_bytes()),
    ));
    if recipe.get_fun(name.as_slice()).is_some() {
        Ok(name)
    } else {
        Err(name)
    }
}

/// What building a recipe text in `dir` does: the missing function name on
/// failure, else the fetch of the expanded source and the two function steps,
/// the build function under the ordinary user and the package function
/// elevated.
pub open spec fn spec_recipe_plan(content: Seq<u8>, dir: Seq<u8>) -> Result<
    RecipePlanModel,
    Seq<u8>,
> {
    let vars = spec_vars(content);
    let funs = spec_funs(content);
    match spec_pkg_fn(vars, funs) {
        Err(m) => Err(m),
        Ok(pname) => match lookup(funs, "build".spec_bytes()) {
            None => Err("build".spec_bytes()),
            Some(bbody) => match lookup(funs, pname) {
                None => Err(pname),
                Some(pbody) => {
                    let b = spec_expand(bbody, vars, dir);
                    let p = spec_expand(pbody, vars, dir);
                    let fetch = match spec_source(content) {
                        None => None,
                        Some(sr) => {
                            let fu = spec_expand(sr.1, vars, dir);
                            Some(FetchModel { url: fu, dest_name: spec_url_file_name(fu) })
                        },
                    };
                    Ok(
                        RecipePlanModel {
                            fetch,
                            steps: seq![
                                StepModel {
                                    kind: StepKind::BuildFunction,
                                    dir: dir,
                                    program: "bash".spec_bytes(),
                                    args: seq!["-c".spec_bytes(), b],
                                    elevated: false,
                                },
                                StepModel {
                                    kind: StepKind::PackageFunction,
                                    dir: dir,
                                    program: "bash".spec_bytes(),
                                    args: seq!["-c".spec_bytes(), p],
                                    elevated: true,
                                },
                            ],
                        },
                    )
                },
            },
        },
    }
}

/// Build a recipe project: parse the text, materialize its functions, and
/// return the plan, or the recipe-incomplete error naming the absent
/// function.
pub fn build(content: &[u8], src_dir: &[u8]) -> (r: Result<RecipePlan, BuildError>)
    ensures
        match r {
            Ok(p) => spec_recipe_plan(content@, src_dir@) == Ok::<RecipePlanModel, Seq<u8>>(p@),
            Err(e) => e matches BuildError::RecipeIncomplete { missing } && spec_recipe_plan(
                content@,
                src_dir@,
            ) == Err::<RecipePlanModel, Seq<u8>>(missing@),
        },
{
    let recipe = parse(content);
    let pname = match package_fn_name(&recipe) {
        Ok(n) => n,
        Err(m) => {
            return Err(BuildError::RecipeIncomplete { missing: m });
        },
    };
    let bbody = match recipe.get_fun(str_bytes("build").as_slice()) {
        Some(b) => b,
        None => {
            return Err(BuildError::RecipeIncomplete { missing: str_bytes("build") });
        },
    };
    let pbody = match recipe.get_fun(pname.as_slice()) {
        Some(p) => p,
        None => {
            return Err(BuildError::RecipeIncomplete { missing: pname });
        },
    };
    let b = format_pkgbuild(bbody.as_slice(), &recipe, src_dir);
    let p = format_pkgbuild(pbody.as_slice(), &recipe, src_dir);
    let fetch = match &recipe.source {
        Some(sr) => {
            let fu = format_pkgbuild(sr.url.as_slice(), &recipe, src_dir);
            let dn = url_file_name(fu.as_slice());
            Some(FetchStep { url: fu, dest_name: dn })
        },
        None => None,
    };
    let mut bargs: Vec<Vec<u8>> = Vec::new();
    bargs.push(str_bytes("-c"));
    bargs.push(b);
    let mut pargs: Vec<Vec<u8>> = Vec::new();
    pargs.push(str_bytes("-c"));
    pargs.push(p);
    let mut steps: Vec<BuildStep> = Vec::new();
    steps.push(
        BuildStep {
            kind: StepKind::BuildFunction,
            dir: vstd::slice::slice_to_vec(src_dir),
            program: str_bytes("bash"),
            args: bargs,
            elevated: false,
        },
    );
    steps.push(
        BuildStep {
            kind: StepKind::PackageFunction,
            dir: vstd::slice::slice_to_vec(src_dir),
            program: str_bytes("bash"),
            args: pargs,
            elevated: true,
        },
    );
    let plan = RecipePlan { fetch, steps };
    proof {
        assert(spec_recipe_plan(content@, src_dir@) matches Ok(m) && m =~~= plan@);
    }
    Ok(plan)
}

} // verus!
