//! Recipes: the declarative description of one package, and the
//! requirements that its dependency strings stand for.

use vstd::prelude::*;
use crate::error::{dependency_error, ErrorView, RavenError};
use crate::text::{find_space, space_from, texts};
use crate::version::{requirement_accepts, semver_parse_requirement, semver_requirement,
    semver_requirement_matches, semver_version};

verus! {

/// The name of a package. Names are compared character by character.
#[derive(Debug)]
pub struct PackageName(pub String);

impl View for PackageName {
    type V = Seq<char>;

    open spec fn view(&self) -> Seq<char> {
        self.0@
    }
}

impl Clone for PackageName {
    fn clone(&self) -> (r: Self)
        ensures
            r == *self,
    {
        PackageName(self.0.clone())
    }
}

impl PartialEq for PackageName {
    fn eq(&self, other: &Self) -> (r: bool) {
        self.0 == other.0
    }
}

impl Eq for PackageName {

}

impl vstd::std_specs::cmp::PartialEqSpecImpl for PackageName {
    open spec fn obeys_eq_spec() -> bool {
        true
    }

    open spec fn eq_spec(&self, other: &Self) -> bool {
        self.0@ == other.0@
    }
}

/// The lowercase hexadecimal SHA-256 digest of a source archive.
#[derive(Debug)]
pub struct HashSum(pub String);

impl View for HashSum {
    type V = Seq<char>;

    open spec fn view(&self) -> Seq<char> {
        self.0@
    }
}

impl Clone for HashSum {
    fn clone(&self) -> (r: Self)
        ensures
            r == *self,
    {
        HashSum(self.0.clone())
    }
}

impl PartialEq for HashSum {
    fn eq(&self, other: &Self) -> (r: bool) {
        self.0 == other.0
    }
}

impl Eq for HashSum {

}

impl vstd::std_specs::cmp::PartialEqSpecImpl for HashSum {
    open spec fn obeys_eq_spec() -> bool {
        true
    }

    open spec fn eq_spec(&self, other: &Self) -> bool {
        self.0@ == other.0@
    }
}

/// How to fetch, build and install one package.
#[derive(Debug)]
pub struct Recipe {
    pub name: PackageName,
    pub version: String,
    pub description: String,
    pub target_arch: Option<String>,
    /// Each entry is `NAME` or `NAME REQ`.
    pub dependencies: Vec<String>,
    pub source_url: String,
    pub sha256_sum: HashSum,
    pub build_commands: Vec<String>,
    pub install_commands: Vec<String>,
}

/// A recipe as a value of specifications.
pub struct RecipeView {
    pub name: Seq<char>,
    pub version: Seq<char>,
    pub description: Seq<char>,
    pub target_arch: Option<Seq<char>>,
    pub dependencies: Seq<Seq<char>>,
    pub source_url: Seq<char>,
    pub sha256_sum: Seq<char>,
    pub build_commands: Seq<Seq<char>>,
    pub install_commands: Seq<Seq<char>>,
}

impl View for Recipe {
    type V = RecipeView;

    open spec fn view(&self) -> RecipeView {
        RecipeView {
            name: self.name@,
            version: self.version@,
            description: self.description@,
            target_arch: match self.target_arch {
                Some(a) => Some(a@),
                None => None,
            },
            dependencies: texts(self.dependencies@),
            source_url: self.source_url@,
            sha256_sum: self.sha256_sum@,
            build_commands: texts(self.build_commands@),
            install_commands: texts(self.install_commands@),
        }
    }
}

/// A copy of a list of strings.
pub fn copy_texts(v: &Vec<String>) -> (r: Vec<String>)
    ensures
        r@ == v@,
{
    let mut out: Vec<String> = Vec::new();
    let mut i: usize = 0;
    while i < v.len()
        invariant
            i <= v.len(),
            out@ == v@.take(i as int),
        decreases v.len() - i,
    {
        out.push(v[i].clone());
        assert(v@.take(i + 1) == v@.take(i as int).push(v@[i as int]));
        i = i + 1;
    }
    assert(v@.take(v.len() as int) == v@);
    out
}

impl Clone for Recipe {
    fn clone(&self) -> (r: Self)
        ensures
            r@ == self@,
    {
        Recipe {
            name: self.name.clone(),
            version: self.version.clone(),
            description: self.description.clone(),
            target_arch: match &self.target_arch {
                Some(a) => Some(a.clone()),
                None => None,
            },
            dependencies: copy_texts(&self.dependencies),
            source_url: self.source_url.clone(),
            sha256_sum: self.sha256_sum.clone(),
            build_commands: copy_texts(&self.build_commands),
            install_commands: copy_texts(&self.install_commands),
        }
    }
}

/// A dependency of a recipe: the package it names and the requirement on
/// that package's version, as text.
#[derive(Debug)]
pub struct DependencyReq {
    pub name: PackageName,
    pub req: String,
}

impl View for DependencyReq {
    type V = (Seq<char>, Seq<char>);

    open spec fn view(&self) -> (Seq<char>, Seq<char>) {
        (self.name@, self.req@)
    }
}

impl DependencyReq {
    /// Whether the requirement accepts `version`. `false` where the
    /// requirement or the version does not parse.
    pub fn matches(&self, version: &str) -> (r: bool)
        ensures
            r == requirement_accepts(self.req@, version@),
            r ==> semver_requirement(self.req@) is Ok && semver_version(version@) is Ok,
    {
        match semver_requirement_matches(self.req.as_str(), version) {
            Some(accepted) => accepted,
            None => false,
        }
    }
}

/// The package that a dependency string names: what stands before its first
/// white space.
pub open spec fn dependency_name(dep: Seq<char>) -> Seq<char> {
    dep.subrange(0, space_from(dep, 0))
}

/// The requirement of a dependency string: what follows its first white
/// space, or `*` (any version) where it has none.
pub open spec fn dependency_requirement(dep: Seq<char>) -> Seq<char> {
    let cut = space_from(dep, 0);
    if cut < dep.len() {
        dep.subrange(cut + 1, dep.len() as int)
    } else {
        "*"@
    }
}

/// The name and the requirement of a dependency string.
pub open spec fn split_dependency(dep: Seq<char>) -> (Seq<char>, Seq<char>) {
    (dependency_name(dep), dependency_requirement(dep))
}

/// Whether the requirement of a dependency string parses.
pub open spec fn dependency_parses(dep: Seq<char>) -> bool {
    semver_requirement(dependency_requirement(dep)) is Ok
}

/// The least index at or after `from` whose dependency string has a
/// requirement that does not parse, or the length of `deps`.
pub open spec fn bad_dependency_from(deps: Seq<Seq<char>>, from: int) -> int
    decreases deps.len() - from,
{
    if from < 0 || from >= deps.len() {
        deps.len() as int
    } else if !dependency_parses(deps[from]) {
        from
    } else {
        bad_dependency_from(deps, from + 1)
    }
}

/// The error for a dependency string whose requirement does not parse.
pub open spec fn invalid_requirement(dep: Seq<char>) -> ErrorView {
    dependency_error(
        "Invalid requirement for "@ + dependency_name(dep) + ": "@ + semver_requirement(
            dependency_requirement(dep),
        )->Err_0,
    )
}

/// What `Recipe::parse_dependencies` returns for a list of dependency
/// strings: each string split into name and requirement, or the error for
/// the first string whose requirement does not parse.
pub open spec fn parse_dependencies_spec(deps: Seq<Seq<char>>) -> Result<
    Seq<(Seq<char>, Seq<char>)>,
    ErrorView,
> {
    let bad = bad_dependency_from(deps, 0);
    if bad < deps.len() {
        Err(invalid_requirement(deps[bad]))
    } else {
        Ok(Seq::new(deps.len(), |i: int| split_dependency(deps[i])))
    }
}

pub proof fn lemma_bad_dependency_bounds(deps: Seq<Seq<char>>, from: int)
    requires
        0 <= from <= deps.len(),
    ensures
        from <= bad_dependency_from(deps, from) <= deps.len(),
        forall|k: int|
            from <= k < bad_dependency_from(deps, from) ==> dependency_parses(#[trigger] deps[k]),
        bad_dependency_from(deps, from) < deps.len() ==> !dependency_parses(
            deps[bad_dependency_from(deps, from)],
        ),
    decreases deps.len() - from,
{
    if from < deps.len() && dependency_parses(deps[from]) {
        lemma_bad_dependency_bounds(deps, from + 1);
    }
}

/// The views of a list of requirements.
pub open spec fn requirements_view(v: Seq<DependencyReq>) -> Seq<(Seq<char>, Seq<char>)> {
    Seq::new(v.len(), |i: int| v[i]@)
}

/// The views of a result of `Recipe::parse_dependencies`.
pub open spec fn dependencies_result_view(r: Result<Vec<DependencyReq>, RavenError>) -> Result<
    Seq<(Seq<char>, Seq<char>)>,
    ErrorView,
> {
    match r {
        Ok(v) => Ok(requirements_view(v@)),
        Err(e) => Err(e@),
    }
}

/// Splits a dependency string at its first white space.
pub fn split_dependency_text(dep: &str) -> (r: DependencyReq)
    ensures
        r@ == split_dependency(dep@),
{
    let cut: usize = find_space(dep, 0);
    let n: usize = dep.unicode_len();
    let name = dep.substring_char(0, cut).to_owned();
    let req = if cut < n {
        dep.substring_char(cut + 1, n).to_owned()
    } else {
        "*".to_owned()
    };
    DependencyReq { name: PackageName(name), req }
}

impl Recipe {
    /// Splits every dependency string into a package name and a version
    /// requirement, and checks that each requirement parses. The first one
    /// that does not gives a `DependencyError` that names its package.
    pub fn parse_dependencies(&self) -> (r: Result<Vec<DependencyReq>, RavenError>)
        ensures
            dependencies_result_view(r) == parse_dependencies_spec(self@.dependencies),
    {
        let ghost deps = self@.dependencies;
        let mut parsed: Vec<DependencyReq> = Vec::new();
        let mut i: usize = 0;
        while i < self.dependencies.len()
            invariant
                deps == self@.dependencies,
                i <= self.dependencies.len(),
                bad_dependency_from(deps, 0) == bad_dependency_from(deps, i as int),
                parsed@.len() == i,
                forall|k: int| 0 <= k < i ==> (#[trigger] parsed@[k])@ == split_dependency(deps[k]),
            decreases self.dependencies.len() - i,
        {
            let dep = split_dependency_text(self.dependencies[i].as_str());
            match semver_parse_requirement(dep.req.as_str()) {
                Ok(_) => {
                    parsed.push(dep);
                },
                Err(e) => {
                    let mut detail = "Invalid requirement for ".to_owned();
                    detail.append(dep.name.0.as_str());
                    detail.append(": ");
                    detail.append(e.as_str());
                    return Err(RavenError::DependencyError(detail));
                },
            }
            i = i + 1;
        }
        assert(requirements_view(parsed@) =~= Seq::new(
            deps.len(),
            |i: int| split_dependency(deps[i]),
        ));
        Ok(parsed)
    }
}

} // verus!
