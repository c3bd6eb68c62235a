//! The recipes loaded for one command, indexed by package name.

use vstd::prelude::*;
use crate::recipe::{Recipe, RecipeView};

verus! {

/// A set of recipes with at most one recipe per package name.
pub struct RecipeSet {
    recipes: Vec<Recipe>,
}

/// The names of a list of recipes, in order.
pub open spec fn recipe_names(recipes: Seq<Recipe>) -> Seq<Seq<char>> {
    Seq::new(recipes.len(), |i: int| recipes[i].name@)
}

impl View for RecipeSet {
    type V = Map<Seq<char>, RecipeView>;

    /// The recipe of each name.
    closed spec fn view(&self) -> Map<Seq<char>, RecipeView> {
        Map::new(
            |n: Seq<char>| recipe_names(self.recipes@).contains(n),
            |n: Seq<char>| self.recipes@[recipe_names(self.recipes@).index_of(n)]@,
        )
    }
}

impl RecipeSet {
    #[verifier::type_invariant]
    closed spec fn distinct(self) -> bool {
        forall|i: int, j: int|
            0 <= i < j < self.recipes@.len() ==> self.recipes@[i].name@ != self.recipes@[j].name@
    }

    /// The recipes in the order in which their names first came in.
    pub closed spec fn entries(&self) -> Seq<RecipeView> {
        Seq::new(self.recipes@.len(), |i: int| self.recipes@[i]@)
    }

    /// A set is finite.
    pub proof fn lemma_finite(&self)
        ensures
            self@.dom().finite(),
    {
        let names = recipe_names(self.recipes@);
        vstd::seq_lib::seq_to_set_is_finite(names);
        assert(self@.dom() =~= names.to_set());
    }

    /// The set without any recipe.
    pub fn new() -> (r: Self)
        ensures
            r@ == Map::<Seq<char>, RecipeView>::empty(),
            r.entries().len() == 0,
    {
        let r = RecipeSet { recipes: Vec::new() };
        assert(r@ =~= Map::<Seq<char>, RecipeView>::empty());
        r
    }

    /// The number of recipes.
    pub fn len(&self) -> (n: usize)
        ensures
            n == self.entries().len(),
            n == self@.dom().len(),
    {
        proof {
            use_type_invariant(self);
            let names = recipe_names(self.recipes@);
            assert(names.no_duplicates());
            names.unique_seq_to_set();
            assert(self@.dom() =~= names.to_set());
        }
        self.recipes.len()
    }

    fn position(&self, name: &str) -> (r: Option<usize>)
        ensures
            match r {
                Some(i) => i < self.recipes@.len() && self.recipes@[i as int].name@ == name@,
                None => forall|k: int|
                    0 <= k < self.recipes@.len() ==> self.recipes@[k].name@ != name@,
            },
    {
        let key = name.to_owned();
        let mut i: usize = 0;
        while i < self.recipes.len()
            invariant
                key@ == name@,
                i <= self.recipes@.len(),
                forall|k: int| 0 <= k < i ==> self.recipes@[k].name@ != name@,
            decreases self.recipes.len() - i,
        {
            if self.recipes[i].name.0 == key {
                return Some(i);
            }
            i = i + 1;
        }
        None
    }

    /// The recipe of the package `name`, if the set has one.
    pub fn get(&self, name: &str) -> (r: Option<&Recipe>)
        ensures
            self@.dom().finite(),
            match r {
                Some(recipe) => self@.dom().contains(name@) && recipe@ == self@[name@]
                    && recipe@.name == name@,
                None => !self@.dom().contains(name@),
            },
    {
        proof {
            use_type_invariant(self);
            self.lemma_finite();
        }
        let ghost names = recipe_names(self.recipes@);
        match self.position(name) {
            Some(i) => {
                proof {
                    assert(names[i as int] == name@);
                    let j = names.index_of(name@);
                    assert(names[j] == name@);
                    assert(j == i);
                }
                Some(&self.recipes[i])
            },
            None => {
                assert(!names.contains(name@));
                None
            },
        }
    }

    /// Whether the set has a recipe for the package `name`.
    pub fn contains(&self, name: &str) -> (r: bool)
        ensures
            r == self@.dom().contains(name@),
    {
        self.get(name).is_some()
    }

    /// Puts `recipe` into the set. A recipe of the same name is replaced.
    pub fn insert(&mut self, recipe: Recipe)
        ensures
            final(self)@ == old(self)@.insert(recipe@.name, recipe@),
    {
        proof {
            use_type_invariant(&*self);
        }
        let ghost before = *self;
        let ghost old_names = recipe_names(self.recipes@);
        let ghost added = recipe@;
        let found = self.position(recipe.name.0.as_str());
        let mut taken = RecipeSet { recipes: Vec::new() };
        core::mem::swap(self, &mut taken);
        let RecipeSet { recipes: mut list } = taken;
        match found {
            Some(i) => {
                list.set(i, recipe);
                *self = RecipeSet { recipes: list };
                proof {
                    let names = recipe_names(self.recipes@);
                    assert(names =~= old_names);
                    assert forall|n: Seq<char>| self@.dom().contains(n) implies #[trigger] self@[n]
                        == before@.insert(added.name, added)[n] by {
                        let j = names.index_of(n);
                        assert(names[j] == n);
                        if n == added.name {
                            assert(names[i as int] == n);
                            assert(j == i);
                        } else {
                            assert(j != i);
                        }
                    }
                    assert(self@.dom() =~= before@.insert(added.name, added).dom()) by {
                        assert(old_names[i as int] == added.name);
                    }
                    assert(self@ =~= before@.insert(added.name, added));
                }
            },
            None => {
                list.push(recipe);
                *self = RecipeSet { recipes: list };
                proof {
                    let names = recipe_names(self.recipes@);
                    assert(names =~= old_names.push(added.name));
                    let last = old_names.len() as int;
                    assert(names[last] == added.name);
                    assert forall|n: Seq<char>| #[trigger]
                        self@.dom().contains(n) <==> before@.insert(added.name, added).dom().contains(
                            n,
                        ) by {
                        if names.contains(n) {
                            let j = names.index_of(n);
                            assert(names[j] == n);
                            if j < last {
                                assert(old_names[j] == n);
                            }
                        }
                        if old_names.contains(n) {
                            let j = old_names.index_of(n);
                            assert(names[j] == n);
                        }
                    }
                    assert forall|n: Seq<char>| self@.dom().contains(n) implies #[trigger] self@[n]
                        == before@.insert(added.name, added)[n] by {
                        let j = names.index_of(n);
                        assert(names[j] == n);
                        if n == added.name {
                            assert(j == last);
                        } else {
                            assert(j < last);
                            let k = old_names.index_of(n);
                            assert(old_names[j] == n);
                            assert(old_names[k] == n);
                            assert(k == j);
                        }
                    }
                    assert(self@.dom() =~= before@.insert(added.name, added).dom());
                    assert(self@ =~= before@.insert(added.name, added));
                }
            },
        }
    }

    /// The recipes of the set, one per name.
    pub fn values(&self) -> (r: &Vec<Recipe>)
        ensures
            r@.len() == self.entries().len(),
            forall|i: int| 0 <= i < r@.len() ==> (#[trigger] r@[i])@ == self.entries()[i],
            forall|i: int|
                0 <= i < r@.len() ==> self@.dom().contains((#[trigger] r@[i])@.name) && self@[r@[i]@.name]
                    == r@[i]@,
            forall|i: int, j: int| 0 <= i < j < r@.len() ==> r@[i]@.name != r@[j]@.name,
    {
        proof {
            use_type_invariant(self);
            let names = recipe_names(self.recipes@);
            assert forall|i: int| 0 <= i < self.recipes@.len() implies self@.dom().contains(
                (#[trigger] self.recipes@[i])@.name,
            ) && self@[self.recipes@[i]@.name] == self.recipes@[i]@ by {
                let n = self.recipes@[i].name@;
                assert(names[i] == n);
                let j = names.index_of(n);
                assert(names[j] == n);
                assert(j == i);
            }
        }
        &self.recipes
    }
}

} // verus!
