//! The recipe tree: how it is brought up to date, and how the recipes read
//! from it become a recipe set.

use vstd::prelude::*;
use crate::error::{ErrorView, RavenError};
use crate::recipe::{Recipe, RecipeView};
use crate::recipe_set::RecipeSet;
use crate::text::same_text;
use crate::version::{semver_parse_version, semver_version, version_error};

verus! {

/// How the local recipe tree is brought up to date.
#[derive(Debug)]
pub enum SyncAction {
    /// There is no local tree yet: clone `url` into `into`.
    Clone { url: String, into: String },
    /// There is a local tree: pull inside `dir`.
    Pull { dir: String },
}

/// Where the recipes are, locally and remotely.
#[derive(Debug)]
pub struct SourceManager {
    pub local_path: String,
    pub remote_url: String,
}

/// Whether a path names a recipe file: it ends in `.toml`, and a file name
/// of at least one character stands before that ending.
pub open spec fn is_recipe_path(path: Seq<char>) -> bool {
    let n = path.len() as int;
    n > 5 && path.subrange(n - 5, n) == ".toml"@ && path[n - 6] != '/'
}

/// The views of the recipes of a list.
pub open spec fn recipes_view(recipes: Seq<Recipe>) -> Seq<RecipeView> {
    Seq::new(recipes.len(), |i: int| recipes[i]@)
}

/// The version error for a recipe whose version is no semantic version;
/// `reason` is the text of the parse error.
pub open spec fn invalid_recipe_version(name: Seq<char>, reason: Seq<char>) -> ErrorView {
    version_error("Invalid version in "@ + name + ": "@ + reason)
}

/// The least index at or after `from` of a recipe whose version is no
/// semantic version, or the length of `recipes`.
pub open spec fn bad_version_from(recipes: Seq<RecipeView>, from: int) -> int
    decreases recipes.len() - from,
{
    if from < 0 || from >= recipes.len() {
        recipes.len() as int
    } else if semver_version(recipes[from].version) is Err {
        from
    } else {
        bad_version_from(recipes, from + 1)
    }
}

/// The recipes of a list by name; of two with the same name the later one
/// stays.
pub open spec fn by_name(recipes: Seq<RecipeView>) -> Map<Seq<char>, RecipeView>
    decreases recipes.len(),
{
    if recipes.len() == 0 {
        Map::empty()
    } else {
        by_name(recipes.drop_last()).insert(recipes.last().name, recipes.last())
    }
}

/// What `SourceManager::load` makes of the recipes read: the error for the
/// first whose version does not parse, else the recipes by name.
pub open spec fn load_spec(recipes: Seq<RecipeView>) -> Result<Map<Seq<char>, RecipeView>, ErrorView> {
    let bad = bad_version_from(recipes, 0);
    if bad < recipes.len() {
        Err(
            invalid_recipe_version(
                recipes[bad].name,
                semver_version(recipes[bad].version)->Err_0,
            ),
        )
    } else {
        Ok(by_name(recipes))
    }
}

/// The views of a result of `SourceManager::load`.
pub open spec fn load_result_view(r: Result<RecipeSet, RavenError>) -> Result<
    Map<Seq<char>, RecipeView>,
    ErrorView,
> {
    match r {
        Ok(set) => Ok(set@),
        Err(e) => Err(e@),
    }
}

impl SourceManager {
    /// A manager of the recipe tree at `local_path`, fed from `remote_url`.
    pub fn new(local_path: String, remote_url: String) -> (r: Self)
        ensures
            r.local_path@ == local_path@,
            r.remote_url@ == remote_url@,
    {
        SourceManager { local_path, remote_url }
    }

    /// Whether the file at `path` is read as a recipe.
    pub fn is_recipe_file(path: &str) -> (r: bool)
        ensures
            r == is_recipe_path(path@),
    {
        let n: usize = path.unicode_len();
        if n <= 5 {
            return false;
        }
        same_text(path.substring_char(n - 5, n), ".toml") && path.get_char(n - 6) != '/'
    }

    /// What brings the local tree up to date: a clone where it does not
    /// exist yet, else a pull.
    pub fn sync(&self, local_exists: bool) -> (r: SyncAction)
        ensures
            match r {
                SyncAction::Clone { url, into } => !local_exists && url@ == self.remote_url@
                    && into@ == self.local_path@,
                SyncAction::Pull { dir } => local_exists && dir@ == self.local_path@,
            },
    {
        if local_exists {
            SyncAction::Pull { dir: self.local_path.clone() }
        } else {
            SyncAction::Clone { url: self.remote_url.clone(), into: self.local_path.clone() }
        }
    }

    /// The warning to show after a pull; a failed pull is no error.
    pub fn pull_warning(success: bool) -> (r: Option<String>)
        ensures
            match r {
                Some(w) => !success && w@ == "Warning: Failed to update recipes (offline mode?)"@,
                None => success,
            },
    {
        if success {
            None
        } else {
            Some("Warning: Failed to update recipes (offline mode?)".to_owned())
        }
    }

    /// Takes one recipe into the set, if its version is a strict semantic
    /// version; else the set stays as it is and a `VersionError` names the
    /// recipe. A recipe of the same name is replaced.
    pub fn accept(set: &mut RecipeSet, recipe: Recipe) -> (r: Result<(), RavenError>)
        ensures
            match r {
                Ok(_) => semver_version(recipe@.version) is Ok && final(set)@ == old(set)@.insert(
                    recipe@.name,
                    recipe@,
                ),
                Err(e) => semver_version(recipe@.version) is Err && final(set)@ == old(set)@ && e@
                    == invalid_recipe_version(
                    recipe@.name,
                    semver_version(recipe@.version)->Err_0,
                ),
            },
    {
        match semver_parse_version(recipe.version.as_str()) {
            Ok(_) => {
                set.insert(recipe);
                Ok(())
            },
            Err(reason) => {
                let mut detail = "Invalid version in ".to_owned();
                detail.append(recipe.name.0.as_str());
                detail.append(": ");
                detail.append(reason.as_str());
                Err(RavenError::VersionError(detail))
            },
        }
    }

    /// Makes a recipe set of the recipes read from the tree, in the order
    /// read. Fails with a `VersionError` at the first recipe whose version
    /// is no strict semantic version.
    pub fn load(&self, recipes: &Vec<Recipe>) -> (r: Result<RecipeSet, RavenError>)
        ensures
            load_result_view(r) == load_spec(recipes_view(recipes@)),
    {
        let ghost all = recipes_view(recipes@);
        let mut set = RecipeSet::new();
        let mut i: usize = 0;
        assert(all.take(0) =~= Seq::<RecipeView>::empty());
        while i < recipes.len()
            invariant
                all == recipes_view(recipes@),
                i <= recipes.len(),
                bad_version_from(all, 0) == bad_version_from(all, i as int),
                set@ == by_name(all.take(i as int)),
            decreases recipes.len() - i,
        {
            let recipe = recipes[i].clone();
            assert(recipe@ == all[i as int]);
            match Self::accept(&mut set, recipe) {
                Err(e) => {
                    return Err(e);
                },
                Ok(_) => {},
            }
            proof {
                let next = all.take(i + 1);
                assert(next.drop_last() =~= all.take(i as int));
                assert(next.last() == all[i as int]);
            }
            i = i + 1;
        }
        assert(all.take(recipes.len() as int) =~= all);
        Ok(set)
    }
}

} // verus!
