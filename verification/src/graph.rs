//! The dependency graph of a recipe set, and what the resolver's result has
//! to do with it.

use vstd::prelude::*;
use crate::error::ErrorView;
use crate::reactor::{check_dependency, cycle_error, lemma_stack_grows, mismatch_error,
    resolve_from, resolve_spec, visit_all_spec, visit_spec};
use crate::recipe::{bad_dependency_from, dependency_name, dependency_parses,
    dependency_requirement, lemma_bad_dependency_bounds, parse_dependencies_spec,
    split_dependency, RecipeView};
use crate::version::{requirement_accepts, semver_requirement, semver_version};

verus! {

/// Whether the recipe of `a` lists `b` as a dependency.
pub open spec fn depends_on(recipes: Map<Seq<char>, RecipeView>, a: Seq<char>, b: Seq<char>) -> bool {
    recipes.dom().contains(a) && exists|i: int|
        0 <= i < recipes[a].dependencies.len() && #[trigger] dependency_name(
            recipes[a].dependencies[i],
        ) == b
}

/// Whether `p[i]` depends on `p[i + 1]`.
pub open spec fn link(recipes: Map<Seq<char>, RecipeView>, p: Seq<Seq<char>>, i: int) -> bool {
    depends_on(recipes, p[i], p[i + 1])
}

/// Whether `p` is a walk along dependencies: each package of it depends on
/// the next.
pub open spec fn is_path(recipes: Map<Seq<char>, RecipeView>, p: Seq<Seq<char>>) -> bool {
    p.len() >= 1 && forall|i: int| 0 <= i < p.len() - 1 ==> #[trigger] link(recipes, p, i)
}

/// Whether `p` is a path from `a` to `b`.
pub open spec fn joins(
    recipes: Map<Seq<char>, RecipeView>,
    p: Seq<Seq<char>>,
    a: Seq<char>,
    b: Seq<char>,
) -> bool {
    is_path(recipes, p) && p[0] == a && p[p.len() - 1] == b
}

/// Whether `b` is `a` or one of its direct or transitive dependencies.
pub open spec fn reaches(recipes: Map<Seq<char>, RecipeView>, a: Seq<char>, b: Seq<char>) -> bool {
    exists|p: Seq<Seq<char>>| #[trigger] joins(recipes, p, a, b)
}

/// Whether `b` is a direct or transitive dependency of `a`.
pub open spec fn needs(recipes: Map<Seq<char>, RecipeView>, a: Seq<char>, b: Seq<char>) -> bool {
    exists|p: Seq<Seq<char>>| #[trigger] joins(recipes, p, a, b) && p.len() >= 2
}

/// Whether `n` is a target or a direct or transitive dependency of one.
pub open spec fn wanted(
    recipes: Map<Seq<char>, RecipeView>,
    targets: Seq<Seq<char>>,
    n: Seq<char>,
) -> bool {
    exists|t: int| 0 <= t < targets.len() && #[trigger] reaches(recipes, targets[t], n)
}

/// Whether `n` lies on a cycle of dependencies.
pub open spec fn on_cycle(recipes: Map<Seq<char>, RecipeView>, n: Seq<char>) -> bool {
    needs(recipes, n, n)
}

/// Whether a dependency string is in order: its requirement parses, the
/// package it names has a recipe, and the version of that recipe parses and
/// meets the requirement.
pub open spec fn dependency_met(recipes: Map<Seq<char>, RecipeView>, dep: Seq<char>) -> bool {
    dependency_parses(dep) && check_dependency(recipes, split_dependency(dep)) is None
}

/// Whether every package that the targets want has a recipe whose
/// dependency strings are all in order.
pub open spec fn all_met(recipes: Map<Seq<char>, RecipeView>, targets: Seq<Seq<char>>) -> bool {
    forall|n: Seq<char>| #[trigger]
        wanted(recipes, targets, n) ==> recipes.dom().contains(n) && forall|i: int|
            0 <= i < recipes[n].dependencies.len() ==> dependency_met(
                recipes,
                #[trigger] recipes[n].dependencies[i],
            )
}

/// Whether `d` stands in `order` before index `i`.
pub open spec fn before(order: Seq<Seq<char>>, i: int, d: Seq<char>) -> bool {
    exists|j: int| 0 <= j < i && j < order.len() && #[trigger] order[j] == d
}

/// Whether every package of `order` stands after all that it depends on.
pub open spec fn sorted(recipes: Map<Seq<char>, RecipeView>, order: Seq<Seq<char>>) -> bool {
    forall|i: int, d: Seq<char>|
        0 <= i < order.len() && #[trigger] depends_on(recipes, order[i], d) ==> before(order, i, d)
}

/// Whether `longer` begins with `order`.
pub open spec fn extends(order: Seq<Seq<char>>, longer: Seq<Seq<char>>) -> bool {
    order.len() <= longer.len() && forall|i: int| 0 <= i < order.len() ==> longer[i] == order[i]
}

pub proof fn lemma_reaches_itself(recipes: Map<Seq<char>, RecipeView>, n: Seq<char>)
    ensures
        reaches(recipes, n, n),
{
    let p = seq![n];
    assert(joins(recipes, p, n, n));
}

pub proof fn lemma_needs_reaches(recipes: Map<Seq<char>, RecipeView>, a: Seq<char>, b: Seq<char>)
    requires
        needs(recipes, a, b),
    ensures
        reaches(recipes, a, b),
{
    let p = choose|p: Seq<Seq<char>>| #[trigger] joins(recipes, p, a, b) && p.len() >= 2;
    assert(joins(recipes, p, a, b));
}

/// A path goes on by one dependency.
pub proof fn lemma_step(
    recipes: Map<Seq<char>, RecipeView>,
    a: Seq<char>,
    b: Seq<char>,
    c: Seq<char>,
)
    requires
        reaches(recipes, a, b),
        depends_on(recipes, b, c),
    ensures
        needs(recipes, a, c),
{
    let p = choose|p: Seq<Seq<char>>| #[trigger] joins(recipes, p, a, b);
    let q = p.push(c);
    assert forall|i: int| 0 <= i < q.len() - 1 implies #[trigger] link(recipes, q, i) by {
        if i < p.len() - 1 {
            assert(link(recipes, p, i));
        }
    }
    assert(joins(recipes, q, a, c));
}

/// What a wanted package depends on is wanted too.
pub proof fn lemma_wanted_step(
    recipes: Map<Seq<char>, RecipeView>,
    targets: Seq<Seq<char>>,
    b: Seq<char>,
    c: Seq<char>,
)
    requires
        wanted(recipes, targets, b),
        depends_on(recipes, b, c),
    ensures
        wanted(recipes, targets, c),
{
    let t = choose|t: int| 0 <= t < targets.len() && #[trigger] reaches(recipes, targets[t], b);
    lemma_step(recipes, targets[t], b, c);
    lemma_needs_reaches(recipes, targets[t], c);
}

/// A sorted order that holds the start of a path holds its end.
pub proof fn lemma_sorted_closed(
    recipes: Map<Seq<char>, RecipeView>,
    order: Seq<Seq<char>>,
    p: Seq<Seq<char>>,
)
    requires
        sorted(recipes, order),
        is_path(recipes, p),
        order.contains(p[0]),
    ensures
        order.contains(p[p.len() - 1]),
    decreases p.len(),
{
    if p.len() >= 2 {
        let i = choose|i: int| 0 <= i < order.len() && order[i] == p[0];
        assert(link(recipes, p, 0));
        assert(depends_on(recipes, order[i], p[1]));
        assert(before(order, i, p[1]));
        let q = p.subrange(1, p.len() as int);
        assert forall|k: int| 0 <= k < q.len() - 1 implies #[trigger] link(recipes, q, k) by {
            assert(link(recipes, p, k + 1));
        }
        lemma_sorted_closed(recipes, order, q);
    }
}

/// In a sorted order without duplicates, the end of a path of at least one
/// dependency stands before its start.
pub proof fn lemma_sorted_descends(
    recipes: Map<Seq<char>, RecipeView>,
    order: Seq<Seq<char>>,
    p: Seq<Seq<char>>,
    i: int,
    j: int,
)
    requires
        sorted(recipes, order),
        order.no_duplicates(),
        is_path(recipes, p),
        p.len() >= 2,
        0 <= i < order.len(),
        0 <= j < order.len(),
        order[i] == p[0],
        order[j] == p[p.len() - 1],
    ensures
        j < i,
    decreases p.len(),
{
    assert(link(recipes, p, 0));
    assert(depends_on(recipes, order[i], p[1]));
    assert(before(order, i, p[1]));
    let m = choose|m: int| 0 <= m < i && m < order.len() && #[trigger] order[m] == p[1];
    if p.len() == 2 {
        assert(order[m] == order[j]);
    } else {
        let q = p.subrange(1, p.len() as int);
        assert forall|k: int| 0 <= k < q.len() - 1 implies #[trigger] link(recipes, q, k) by {
            assert(link(recipes, p, k + 1));
        }
        lemma_sorted_descends(recipes, order, q, m, j);
    }
}

/// Whether `order` is a state that the resolver can be in while the
/// packages of `on_stack` are being visited: sorted, without duplicates, and
/// made of wanted packages that are not on the stack.
pub open spec fn tidy(
    recipes: Map<Seq<char>, RecipeView>,
    targets: Seq<Seq<char>>,
    on_stack: Set<Seq<char>>,
    order: Seq<Seq<char>>,
) -> bool {
    &&& sorted(recipes, order)
    &&& order.no_duplicates()
    &&& forall|i: int|
        0 <= i < order.len() ==> wanted(recipes, targets, #[trigger] order[i]) && !on_stack.contains(
            order[i],
        )
}

/// Whether `e` reports a cycle through a wanted package that lies on one.
pub open spec fn reports_cycle(
    recipes: Map<Seq<char>, RecipeView>,
    targets: Seq<Seq<char>>,
    e: ErrorView,
) -> bool {
    exists|x: Seq<char>| #[trigger]
        cycle_error(x) == e && on_cycle(recipes, x) && wanted(recipes, targets, x)
}

/// Whether a step of the resolver that began at `order` ended well: with a
/// longer tidy order, or with the report of a cycle.
pub open spec fn ends_well(
    recipes: Map<Seq<char>, RecipeView>,
    targets: Seq<Seq<char>>,
    on_stack: Set<Seq<char>>,
    order: Seq<Seq<char>>,
    r: Result<Seq<Seq<char>>, ErrorView>,
) -> bool {
    match r {
        Ok(after) => extends(order, after) && tidy(recipes, targets, on_stack, after),
        Err(e) => reports_cycle(recipes, targets, e),
    }
}

/// The dependency strings of a recipe, each split.
pub open spec fn split_all(raw: Seq<Seq<char>>) -> Seq<(Seq<char>, Seq<char>)> {
    Seq::new(raw.len(), |i: int| split_dependency(raw[i]))
}

/// The visit of a wanted package ends well, and leaves the package in the
/// order.
pub proof fn lemma_visit(
    recipes: Map<Seq<char>, RecipeView>,
    targets: Seq<Seq<char>>,
    node: Seq<char>,
    on_stack: Set<Seq<char>>,
    order: Seq<Seq<char>>,
)
    requires
        recipes.dom().finite(),
        all_met(recipes, targets),
        wanted(recipes, targets, node),
        forall|s: Seq<char>| on_stack.contains(s) ==> needs(recipes, s, node),
        tidy(recipes, targets, on_stack, order),
    ensures
        ends_well(recipes, targets, on_stack, order, visit_spec(recipes, node, on_stack, order)),
        visit_spec(recipes, node, on_stack, order) matches Ok(after) ==> after.contains(node),
    decreases (recipes.dom() - on_stack).len(), 0nat,
{
    if on_stack.contains(node) {
        assert(cycle_error(node) == cycle_error(node));
    } else if order.contains(node) {
    } else {
        assert(recipes.dom().contains(node));
        let raw = recipes[node].dependencies;
        lemma_bad_dependency_bounds(raw, 0);
        assert(bad_dependency_from(raw, 0) == raw.len()) by {
            if bad_dependency_from(raw, 0) < raw.len() {
                assert(dependency_met(recipes, raw[bad_dependency_from(raw, 0)]));
            }
        }
        let deps = split_all(raw);
        assert(parse_dependencies_spec(raw) == Ok::<Seq<(Seq<char>, Seq<char>)>, ErrorView>(deps));
        let inner = on_stack.insert(node);
        lemma_stack_grows(recipes.dom(), on_stack, node);
        lemma_reaches_itself(recipes, node);
        assert forall|s: Seq<char>| inner.contains(s) implies reaches(recipes, s, node) by {
            if s != node {
                lemma_needs_reaches(recipes, s, node);
            }
        }
        lemma_visit_all(recipes, targets, node, deps, 0, inner, order);
        match visit_all_spec(recipes, deps, 0, inner, order) {
            Err(e) => {},
            Ok(after) => {
                let done = after.push(node);
                assert(visit_spec(recipes, node, on_stack, order) == Ok::<Seq<Seq<char>>, ErrorView>(
                    done,
                ));
                assert(done[after.len() as int] == node);
                assert(!after.contains(node)) by {
                    if after.contains(node) {
                        let k = choose|k: int| 0 <= k < after.len() && after[k] == node;
                        assert(!inner.contains(after[k]));
                    }
                }
                assert(done.no_duplicates());
                assert forall|i: int, d: Seq<char>|
                    0 <= i < done.len() && #[trigger] depends_on(recipes, done[i], d) implies before(
                    done,
                    i,
                    d,
                ) by {
                    if i < after.len() {
                        assert(depends_on(recipes, after[i], d));
                        assert(before(after, i, d));
                        let j = choose|j: int| 0 <= j < i && j < after.len() && #[trigger] after[j] == d;
                        assert(done[j] == d);
                    } else {
                        let k = choose|k: int|
                            0 <= k < raw.len() && #[trigger] dependency_name(raw[k]) == d;
                        assert(deps[k].0 == d);
                        assert(after.contains(d));
                        let j = choose|j: int| 0 <= j < after.len() && after[j] == d;
                        assert(done[j] == d);
                    }
                }
                assert forall|i: int| 0 <= i < done.len() implies wanted(
                    recipes,
                    targets,
                    #[trigger] done[i],
                ) && !on_stack.contains(done[i]) by {
                    if i < after.len() {
                        assert(!inner.contains(after[i]));
                    }
                }
            },
        }
    }
}

/// The visits of the dependencies of a wanted package end well, and leave
/// every one of them in the order.
pub proof fn lemma_visit_all(
    recipes: Map<Seq<char>, RecipeView>,
    targets: Seq<Seq<char>>,
    parent: Seq<char>,
    deps: Seq<(Seq<char>, Seq<char>)>,
    from: int,
    on_stack: Set<Seq<char>>,
    order: Seq<Seq<char>>,
)
    requires
        recipes.dom().finite(),
        all_met(recipes, targets),
        wanted(recipes, targets, parent),
        recipes.dom().contains(parent),
        deps == split_all(recipes[parent].dependencies),
        0 <= from <= deps.len(),
        forall|s: Seq<char>| on_stack.contains(s) ==> reaches(recipes, s, parent),
        tidy(recipes, targets, on_stack, order),
        forall|k: int| 0 <= k < from ==> order.contains(#[trigger] deps[k].0),
    ensures
        ends_well(
            recipes,
            targets,
            on_stack,
            order,
            visit_all_spec(recipes, deps, from, on_stack, order),
        ),
        visit_all_spec(recipes, deps, from, on_stack, order) matches Ok(after) ==> forall|k: int|
            0 <= k < deps.len() ==> after.contains(#[trigger] deps[k].0),
    decreases (recipes.dom() - on_stack).len(), 1 + deps.len() - from,
{
    if from < deps.len() {
        let raw = recipes[parent].dependencies;
        let dep = deps[from];
        assert(dep == split_dependency(raw[from]));
        assert(dependency_met(recipes, raw[from]));
        assert(dependency_name(raw[from]) == dep.0);
        assert(depends_on(recipes, parent, dep.0));
        lemma_wanted_step(recipes, targets, parent, dep.0);
        assert forall|s: Seq<char>| on_stack.contains(s) implies needs(recipes, s, dep.0) by {
            lemma_step(recipes, s, parent, dep.0);
        }
        lemma_visit(recipes, targets, dep.0, on_stack, order);
        match visit_spec(recipes, dep.0, on_stack, order) {
            Err(e) => {},
            Ok(next) => {
                assert forall|k: int| 0 <= k < from + 1 implies next.contains(
                    #[trigger] deps[k].0,
                ) by {
                    if k < from {
                        let j = choose|j: int| 0 <= j < order.len() && order[j] == deps[k].0;
                        assert(next[j] == deps[k].0);
                    }
                }
                lemma_visit_all(recipes, targets, parent, deps, from + 1, on_stack, next);
            },
        }
    }
}

/// The visits of the targets end well, and leave every target in the order.
pub proof fn lemma_resolve_from(
    recipes: Map<Seq<char>, RecipeView>,
    targets: Seq<Seq<char>>,
    from: int,
    order: Seq<Seq<char>>,
)
    requires
        recipes.dom().finite(),
        all_met(recipes, targets),
        0 <= from <= targets.len(),
        tidy(recipes, targets, Set::empty(), order),
        forall|k: int| 0 <= k < from ==> order.contains(#[trigger] targets[k]),
    ensures
        ends_well(
            recipes,
            targets,
            Set::empty(),
            order,
            resolve_from(recipes, targets, from, order),
        ),
        resolve_from(recipes, targets, from, order) matches Ok(after) ==> forall|k: int|
            0 <= k < targets.len() ==> after.contains(#[trigger] targets[k]),
    decreases targets.len() - from,
{
    if from < targets.len() {
        let node = targets[from];
        lemma_reaches_itself(recipes, node);
        assert(wanted(recipes, targets, node));
        lemma_visit(recipes, targets, node, Set::empty(), order);
        match visit_spec(recipes, node, Set::empty(), order) {
            Err(e) => {},
            Ok(next) => {
                assert forall|k: int| 0 <= k < from + 1 implies next.contains(
                    #[trigger] targets[k],
                ) by {
                    if k < from {
                        let j = choose|j: int| 0 <= j < order.len() && order[j] == targets[k];
                        assert(next[j] == targets[k]);
                    }
                }
                lemma_resolve_from(recipes, targets, from + 1, next);
            },
        }
    }
}

/// Where every wanted package has a recipe and every dependency is in
/// order, the resolver either reports a cycle through a wanted package, or
/// returns the wanted packages, each once and each after all that it
/// depends on.
pub proof fn lemma_resolve_outcome(recipes: Map<Seq<char>, RecipeView>, targets: Seq<Seq<char>>)
    requires
        recipes.dom().finite(),
        all_met(recipes, targets),
    ensures
        match resolve_spec(recipes, targets) {
            Ok(order) => {
                &&& order.no_duplicates()
                &&& sorted(recipes, order)
                &&& forall|n: Seq<char>| order.contains(n) <==> wanted(recipes, targets, n)
            },
            Err(e) => reports_cycle(recipes, targets, e),
        },
{
    let start = Seq::<Seq<char>>::empty();
    lemma_resolve_from(recipes, targets, 0, start);
    match resolve_spec(recipes, targets) {
        Err(e) => {},
        Ok(order) => {
            assert forall|n: Seq<char>| wanted(recipes, targets, n) implies order.contains(n) by {
                let t = choose|t: int|
                    0 <= t < targets.len() && #[trigger] reaches(recipes, targets[t], n);
                let p = choose|p: Seq<Seq<char>>| #[trigger] joins(recipes, p, targets[t], n);
                assert(order.contains(targets[t]));
                lemma_sorted_closed(recipes, order, p);
            }
            assert forall|n: Seq<char>| order.contains(n) implies wanted(recipes, targets, n) by {
                let j = choose|j: int| 0 <= j < order.len() && order[j] == n;
                assert(wanted(recipes, targets, order[j]));
            }
        },
    }
}

/// The resolver is total on acyclic input. Where every package that the
/// targets want has a recipe, every dependency's requirement is met, and no
/// wanted package lies on a cycle, the resolver returns an order that holds
/// exactly the wanted packages, each once, and every package after all its
/// direct and transitive dependencies.
pub proof fn resolve_orders_acyclic(recipes: Map<Seq<char>, RecipeView>, targets: Seq<Seq<char>>)
    requires
        recipes.dom().finite(),
        all_met(recipes, targets),
        forall|n: Seq<char>| wanted(recipes, targets, n) ==> !on_cycle(recipes, n),
    ensures
        resolve_spec(recipes, targets) is Ok,
        resolve_spec(recipes, targets)->Ok_0.no_duplicates(),
        forall|n: Seq<char>|
            resolve_spec(recipes, targets)->Ok_0.contains(n) <==> wanted(recipes, targets, n),
        forall|i: int, j: int|
            #![trigger
                resolve_spec(recipes, targets)->Ok_0[i],
                resolve_spec(recipes, targets)->Ok_0[j]
            ]
            0 <= i < resolve_spec(recipes, targets)->Ok_0.len() && 0 <= j < resolve_spec(
                recipes,
                targets,
            )->Ok_0.len() && needs(
                recipes,
                resolve_spec(recipes, targets)->Ok_0[i],
                resolve_spec(recipes, targets)->Ok_0[j],
            ) ==> j < i,
{
    lemma_resolve_outcome(recipes, targets);
    match resolve_spec(recipes, targets) {
        Err(e) => {
            let x = choose|x: Seq<char>| #[trigger]
                cycle_error(x) == e && on_cycle(recipes, x) && wanted(recipes, targets, x);
            assert(false);
        },
        Ok(order) => {
            assert forall|i: int, j: int|
                0 <= i < order.len() && 0 <= j < order.len() && needs(
                    recipes,
                    order[i],
                    order[j],
                ) implies j < i by {
                let p = choose|p: Seq<Seq<char>>| #[trigger]
                    joins(recipes, p, order[i], order[j]) && p.len() >= 2;
                lemma_sorted_descends(recipes, order, p, i, j);
            }
        },
    }
}

/// The resolver detects cycles. Where every package that the targets want
/// has a recipe and every dependency's requirement is met, but some wanted
/// package lies on a cycle of dependencies, the resolver fails with the
/// dependency error that reports a cycle, and the package that the error
/// names is wanted and lies on a cycle.
pub proof fn resolve_reports_cycle(recipes: Map<Seq<char>, RecipeView>, targets: Seq<Seq<char>>)
    requires
        recipes.dom().finite(),
        all_met(recipes, targets),
        exists|n: Seq<char>| wanted(recipes, targets, n) && #[trigger] on_cycle(recipes, n),
    ensures
        resolve_spec(recipes, targets) is Err,
        reports_cycle(recipes, targets, resolve_spec(recipes, targets)->Err_0),
{
    lemma_resolve_outcome(recipes, targets);
    match resolve_spec(recipes, targets) {
        Err(e) => {},
        Ok(order) => {
            let n = choose|n: Seq<char>| wanted(recipes, targets, n) && #[trigger] on_cycle(recipes, n);
            assert(order.contains(n));
            let i = choose|i: int| 0 <= i < order.len() && order[i] == n;
            let p = choose|p: Seq<Seq<char>>| #[trigger] joins(recipes, p, n, n) && p.len() >= 2;
            lemma_sorted_descends(recipes, order, p, i, i);
        },
    }
}

/// A chain is built leaves first. Where `a` depends on `b` alone, `b` on
/// `c` alone and `c` on nothing, and both dependencies are in order, the
/// build order for the target `a` is `c`, `b`, `a`.
pub proof fn chain_resolves_leaves_first(
    recipes: Map<Seq<char>, RecipeView>,
    a: Seq<char>,
    b: Seq<char>,
    c: Seq<char>,
)
    requires
        recipes.dom().finite(),
        recipes.dom().contains(a),
        recipes.dom().contains(b),
        recipes.dom().contains(c),
        a != b && b != c && a != c,
        recipes[a].dependencies.len() == 1,
        dependency_name(recipes[a].dependencies[0]) == b,
        dependency_met(recipes, recipes[a].dependencies[0]),
        recipes[b].dependencies.len() == 1,
        dependency_name(recipes[b].dependencies[0]) == c,
        dependency_met(recipes, recipes[b].dependencies[0]),
        recipes[c].dependencies.len() == 0,
    ensures
        resolve_spec(recipes, seq![a]) == Ok::<Seq<Seq<char>>, ErrorView>(seq![c, b, a]),
{
    let none = Set::<Seq<char>>::empty();
    let start = Seq::<Seq<char>>::empty();
    let raw_a = recipes[a].dependencies;
    let raw_b = recipes[b].dependencies;
    let raw_c = recipes[c].dependencies;
    lemma_bad_dependency_bounds(raw_a, 0);
    lemma_bad_dependency_bounds(raw_b, 0);
    lemma_bad_dependency_bounds(raw_c, 0);
    let deps_a = parse_dependencies_spec(raw_a)->Ok_0;
    let deps_b = parse_dependencies_spec(raw_b)->Ok_0;
    let deps_c = parse_dependencies_spec(raw_c)->Ok_0;
    assert(parse_dependencies_spec(raw_a) is Ok && deps_a.len() == 1 && deps_a[0]
        == split_dependency(raw_a[0]));
    assert(parse_dependencies_spec(raw_b) is Ok && deps_b.len() == 1 && deps_b[0]
        == split_dependency(raw_b[0]));
    assert(parse_dependencies_spec(raw_c) is Ok && deps_c.len() == 0);

    let on_a = none.insert(a);
    let on_ab = on_a.insert(b);
    let on_abc = on_ab.insert(c);
    let after_c = start.push(c);
    let after_b = after_c.push(b);
    let after_a = after_b.push(a);

    assert(visit_all_spec(recipes, deps_c, 0, on_abc, start) == Ok::<Seq<Seq<char>>, ErrorView>(
        start,
    ));
    assert(visit_spec(recipes, c, on_ab, start) == Ok::<Seq<Seq<char>>, ErrorView>(after_c));

    assert(check_dependency(recipes, deps_b[0]) is None);
    assert(visit_all_spec(recipes, deps_b, 1, on_ab, after_c) == Ok::<Seq<Seq<char>>, ErrorView>(
        after_c,
    ));
    assert(visit_all_spec(recipes, deps_b, 0, on_ab, start) == Ok::<Seq<Seq<char>>, ErrorView>(
        after_c,
    ));
    assert(visit_spec(recipes, b, on_a, start) == Ok::<Seq<Seq<char>>, ErrorView>(after_b));

    assert(check_dependency(recipes, deps_a[0]) is None);
    assert(visit_all_spec(recipes, deps_a, 1, on_a, after_b) == Ok::<Seq<Seq<char>>, ErrorView>(
        after_b,
    ));
    assert(visit_all_spec(recipes, deps_a, 0, on_a, start) == Ok::<Seq<Seq<char>>, ErrorView>(
        after_b,
    ));
    assert(visit_spec(recipes, a, none, start) == Ok::<Seq<Seq<char>>, ErrorView>(after_a));

    let targets = seq![a];
    assert(resolve_from(recipes, targets, 1, after_a) == Ok::<Seq<Seq<char>>, ErrorView>(after_a));
    assert(resolve_from(recipes, targets, 0, start) == Ok::<Seq<Seq<char>>, ErrorView>(after_a));
    assert(after_a =~= seq![c, b, a]);
}

/// A dependency that is not in order stops the resolver before anything is
/// ordered. Where the requirements of a target's dependency strings all
/// parse and the check of its first dependency fails, be it for a missing
/// recipe, a version that does not parse or a version that the requirement
/// does not accept, the resolver fails with the error of that check.
pub proof fn unmet_dependency_fails(
    recipes: Map<Seq<char>, RecipeView>,
    target: Seq<char>,
)
    requires
        recipes.dom().finite(),
        recipes.dom().contains(target),
        recipes[target].dependencies.len() >= 1,
        forall|i: int|
            0 <= i < recipes[target].dependencies.len() ==> dependency_parses(
                #[trigger] recipes[target].dependencies[i],
            ),
        check_dependency(recipes, split_dependency(recipes[target].dependencies[0])) is Some,
    ensures
        resolve_spec(recipes, seq![target]) == Err::<Seq<Seq<char>>, ErrorView>(
            check_dependency(recipes, split_dependency(recipes[target].dependencies[0]))->Some_0,
        ),
{
    let none = Set::<Seq<char>>::empty();
    let start = Seq::<Seq<char>>::empty();
    let raw = recipes[target].dependencies;
    lemma_bad_dependency_bounds(raw, 0);
    assert(bad_dependency_from(raw, 0) == raw.len()) by {
        if bad_dependency_from(raw, 0) < raw.len() {
            assert(dependency_parses(raw[bad_dependency_from(raw, 0)]));
        }
    }
    let deps = parse_dependencies_spec(raw)->Ok_0;
    assert(parse_dependencies_spec(raw) is Ok && deps[0] == split_dependency(raw[0]));
    let e = check_dependency(recipes, deps[0])->Some_0;
    assert(visit_all_spec(recipes, deps, 0, none.insert(target), start) == Err::<
        Seq<Seq<char>>,
        ErrorView,
    >(e));
    assert(visit_spec(recipes, target, none, start) == Err::<Seq<Seq<char>>, ErrorView>(e));
    let targets = seq![target];
    assert(resolve_from(recipes, targets, 0, start) == Err::<Seq<Seq<char>>, ErrorView>(e));
}

/// A version that the requirement refuses is a version mismatch. Where the
/// first dependency of a target names a package whose recipe has a version
/// that parses but that the requirement does not accept, the resolver
/// fails with the mismatch error that shows the package, the requirement
/// and the version found.
pub proof fn version_mismatch_fails(
    recipes: Map<Seq<char>, RecipeView>,
    target: Seq<char>,
)
    requires
        recipes.dom().finite(),
        recipes.dom().contains(target),
        recipes[target].dependencies.len() >= 1,
        forall|i: int|
            0 <= i < recipes[target].dependencies.len() ==> dependency_parses(
                #[trigger] recipes[target].dependencies[i],
            ),
        recipes.dom().contains(dependency_name(recipes[target].dependencies[0])),
        semver_version(recipes[dependency_name(recipes[target].dependencies[0])].version) is Ok,
        !requirement_accepts(
            dependency_requirement(recipes[target].dependencies[0]),
            recipes[dependency_name(recipes[target].dependencies[0])].version,
        ),
    ensures
        resolve_spec(recipes, seq![target]) == Err::<Seq<Seq<char>>, ErrorView>(
            mismatch_error(
                dependency_name(recipes[target].dependencies[0]),
                semver_requirement(dependency_requirement(recipes[target].dependencies[0]))->Ok_0,
                recipes[dependency_name(recipes[target].dependencies[0])].version,
            ),
        ),
{
    unmet_dependency_fails(recipes, target);
}

} // verus!
