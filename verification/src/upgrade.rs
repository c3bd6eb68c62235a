//! The choice of the packages to upgrade: those whose recipe offers a
//! strictly later version than the one installed.

use vstd::prelude::*;
use crate::error::{ErrorView, RavenError};
use crate::recipe::{PackageName, RecipeView};
use crate::recipe_set::RecipeSet;
use crate::reactor::names_view;
use crate::transaction::installed_view;
use crate::version::{semver_parse_version, semver_version, version_error, version_is_newer,
    version_newer};

verus! {

/// Whether one installed package is to be upgraded: `false` where it has no
/// recipe; an error where the installed version, or else the version of
/// the recipe, is no semantic version; else whether the recipe's version is
/// strictly later than the one installed.
pub open spec fn upgrade_check(
    recipes: Map<Seq<char>, RecipeView>,
    name: Seq<char>,
    installed: Seq<char>,
) -> Result<bool, ErrorView> {
    if !recipes.dom().contains(name) {
        Ok(false)
    } else if semver_version(installed) is Err {
        Err(version_error(semver_version(installed)->Err_0))
    } else if semver_version(recipes[name].version) is Err {
        Err(version_error(semver_version(recipes[name].version)->Err_0))
    } else {
        Ok(version_is_newer(recipes[name].version, installed))
    }
}

/// The packages to upgrade among `installed[from..]`, in the order listed,
/// or the error of the first package whose check fails.
pub open spec fn upgrades_from(
    recipes: Map<Seq<char>, RecipeView>,
    installed: Seq<(Seq<char>, Seq<char>)>,
    from: int,
) -> Result<Seq<Seq<char>>, ErrorView>
    decreases installed.len() - from,
{
    if from < 0 || from >= installed.len() {
        Ok(Seq::empty())
    } else {
        match upgrade_check(recipes, installed[from].0, installed[from].1) {
            Err(e) => Err(e),
            Ok(chosen) => match upgrades_from(recipes, installed, from + 1) {
                Err(e) => Err(e),
                Ok(rest) => if chosen {
                    Ok(seq![installed[from].0] + rest)
                } else {
                    Ok(rest)
                },
            },
        }
    }
}

/// `found`, then the outcome `rest`.
pub open spec fn after_found(found: Seq<Seq<char>>, rest: Result<Seq<Seq<char>>, ErrorView>) -> Result<
    Seq<Seq<char>>,
    ErrorView,
> {
    match rest {
        Err(e) => Err(e),
        Ok(more) => Ok(found + more),
    }
}

/// The views of a result of `select_upgrades`.
pub open spec fn upgrades_view(r: Result<Vec<PackageName>, RavenError>) -> Result<
    Seq<Seq<char>>,
    ErrorView,
> {
    match r {
        Ok(names) => Ok(names_view(names@)),
        Err(e) => Err(e@),
    }
}

/// Selects, among the installed packages (name and version), those whose
/// recipe has a strictly later version, in the order listed. A package
/// without a recipe is passed over. An installed or offered version that
/// is no semantic version gives a `VersionError`.
pub fn select_upgrades(installed: &Vec<(PackageName, String)>, recipes: &RecipeSet) -> (r: Result<
    Vec<PackageName>,
    RavenError,
>)
    ensures
        upgrades_view(r) == upgrades_from(recipes@, installed_view(installed@), 0),
{
    let ghost rows = installed_view(installed@);
    let mut chosen: Vec<PackageName> = Vec::new();
    let mut i: usize = 0;
    assert(names_view(chosen@) =~= Seq::<Seq<char>>::empty());
    assert(after_found(Seq::empty(), upgrades_from(recipes@, rows, 0)) == upgrades_from(
        recipes@,
        rows,
        0,
    )) by {
        match upgrades_from(recipes@, rows, 0) {
            Ok(more) => {
                assert(Seq::<Seq<char>>::empty() + more =~= more);
            },
            Err(e) => {},
        }
    }
    while i < installed.len()
        invariant
            rows == installed_view(installed@),
            i <= installed.len(),
            upgrades_from(recipes@, rows, 0) == after_found(
                names_view(chosen@),
                upgrades_from(recipes@, rows, i as int),
            ),
        decreases installed.len() - i,
    {
        let ghost found = names_view(chosen@);
        let name = &installed[i].0;
        let version = installed[i].1.as_str();
        assert(rows[i as int] == (name@, version@));
        match recipes.get(name.0.as_str()) {
            None => {},
            Some(recipe) => {
                match semver_parse_version(version) {
                    Err(reason) => {
                        return Err(RavenError::VersionError(reason));
                    },
                    Ok(_) => {},
                }
                match semver_parse_version(recipe.version.as_str()) {
                    Err(reason) => {
                        return Err(RavenError::VersionError(reason));
                    },
                    Ok(_) => {},
                }
                if version_newer(recipe.version.as_str(), version) {
                    chosen.push(name.clone());
                    proof {
                        assert(names_view(chosen@) =~= found.push(name@));
                        match upgrades_from(recipes@, rows, i + 1) {
                            Ok(more) => {
                                assert(found + (seq![name@] + more) =~= found.push(name@) + more);
                            },
                            Err(e) => {},
                        }
                    }
                }
            },
        }
        i = i + 1;
    }
    proof {
        assert(names_view(chosen@) + Seq::<Seq<char>>::empty() =~= names_view(chosen@));
    }
    Ok(chosen)
}

/// One installed package with a recipe is chosen exactly where the recipe
/// is newer. Where the package `name` is installed at the version
/// `installed`, has a recipe, and both versions parse, the upgrade selects
/// `name` if the recipe's version is strictly later, and nothing
/// otherwise.
pub proof fn upgrade_selects_newer(
    recipes: Map<Seq<char>, RecipeView>,
    name: Seq<char>,
    installed: Seq<char>,
)
    requires
        recipes.dom().contains(name),
        semver_version(installed) is Ok,
        semver_version(recipes[name].version) is Ok,
    ensures
        upgrades_from(recipes, seq![(name, installed)], 0) == Ok::<Seq<Seq<char>>, ErrorView>(
            if version_is_newer(recipes[name].version, installed) {
                seq![name]
            } else {
                Seq::empty()
            },
        ),
{
    let rows = seq![(name, installed)];
    assert(upgrades_from(recipes, rows, 1) == Ok::<Seq<Seq<char>>, ErrorView>(Seq::empty()));
    assert(seq![name] + Seq::<Seq<char>>::empty() =~= seq![name]);
}

} // verus!
