//! The resolver: from target packages and a set of recipes to the order in
//! which the packages are built, every package after all it depends on.

use vstd::prelude::*;
use crate::builder::{is_plan_for, BuildPlan, Builder};
use crate::error::{dependency_error, ErrorView, RavenError};
use crate::transaction::TransactionManager;
use crate::recipe::{dependency_parses, lemma_bad_dependency_bounds, parse_dependencies_spec,
    requirements_view, split_dependency, DependencyReq, PackageName, RecipeView};
use crate::recipe_set::RecipeSet;
use crate::version::{requirement_accepts, semver_parse_requirement, semver_parse_version,
    semver_requirement, semver_version};

verus! {

/// The error for a package that depends, directly or not, on itself.
pub open spec fn cycle_error(name: Seq<char>) -> ErrorView {
    dependency_error("Circular dependency detected involving "@ + name)
}

/// The error for a target that has no recipe.
pub open spec fn not_found_error(name: Seq<char>) -> ErrorView {
    dependency_error("Package not found: "@ + name)
}

/// The error for a dependency that has no recipe.
pub open spec fn missing_dependency_error(name: Seq<char>) -> ErrorView {
    dependency_error("Missing dependency: "@ + name)
}

/// The error for a dependency whose recipe has a version that does not
/// parse; `reason` is the text of the parse error.
pub open spec fn invalid_version_error(name: Seq<char>, reason: Seq<char>) -> ErrorView {
    dependency_error("Package "@ + name + " has invalid semver: "@ + reason)
}

/// The error for a dependency whose recipe has a version that its
/// requirement does not accept.
pub open spec fn mismatch_error(name: Seq<char>, required: Seq<char>, found: Seq<char>) -> ErrorView {
    dependency_error(
        "Version mismatch for '"@ + name + "': required '"@ + required + "', but found '"@ + found
            + "'"@,
    )
}

/// What is wrong with one dependency, before it is visited: its package has
/// no recipe, the version of that recipe does not parse, or the requirement
/// does not accept it. `None` where all is well.
pub open spec fn check_dependency(
    recipes: Map<Seq<char>, RecipeView>,
    dep: (Seq<char>, Seq<char>),
) -> Option<ErrorView> {
    if !recipes.dom().contains(dep.0) {
        Some(missing_dependency_error(dep.0))
    } else if semver_version(recipes[dep.0].version) is Err {
        Some(invalid_version_error(recipes[dep.0].name, semver_version(recipes[dep.0].version)->Err_0))
    } else if !requirement_accepts(dep.1, recipes[dep.0].version) {
        Some(mismatch_error(dep.0, semver_requirement(dep.1)->Ok_0, recipes[dep.0].version))
    } else {
        None
    }
}

/// Putting a package with a recipe on the stack leaves fewer packages off
/// the stack.
pub proof fn lemma_stack_grows(
    names: Set<Seq<char>>,
    on_stack: Set<Seq<char>>,
    node: Seq<char>,
)
    requires
        names.finite(),
        names.contains(node),
        !on_stack.contains(node),
    ensures
        (names - on_stack.insert(node)).len() < (names - on_stack).len(),
{
    let rest = names - on_stack;
    assert(rest.contains(node));
    assert(names - on_stack.insert(node) =~= rest.remove(node));
}

/// The depth-first visit of `node`. `on_stack` holds the packages whose
/// visit has begun and not ended, `order` the packages whose visit has
/// ended, in the order in which it ended. Returns the new order: `order`,
/// then what `node` depends on and was not yet there, each package after
/// its own dependencies, then `node`.
pub open spec fn visit_spec(
    recipes: Map<Seq<char>, RecipeView>,
    node: Seq<char>,
    on_stack: Set<Seq<char>>,
    order: Seq<Seq<char>>,
) -> Result<Seq<Seq<char>>, ErrorView>
    decreases (recipes.dom() - on_stack).len(), 0nat,
    when recipes.dom().finite()
{
    if on_stack.contains(node) {
        Err(cycle_error(node))
    } else if order.contains(node) {
        Ok(order)
    } else if !recipes.dom().contains(node) {
        Err(not_found_error(node))
    } else {
        match parse_dependencies_spec(recipes[node].dependencies) {
            Err(e) => Err(e),
            Ok(deps) => {
                proof {
                    lemma_stack_grows(recipes.dom(), on_stack, node);
                }
                match visit_all_spec(recipes, deps, 0, on_stack.insert(node), order) {
                    Err(e) => Err(e),
                    Ok(after) => Ok(after.push(node)),
                }
            },
        }
    }
}

/// The visits of the dependencies `deps[from..]`, in the order listed. Each
/// is checked before it is visited.
pub open spec fn visit_all_spec(
    recipes: Map<Seq<char>, RecipeView>,
    deps: Seq<(Seq<char>, Seq<char>)>,
    from: int,
    on_stack: Set<Seq<char>>,
    order: Seq<Seq<char>>,
) -> Result<Seq<Seq<char>>, ErrorView>
    decreases (recipes.dom() - on_stack).len(), 1 + deps.len() - from,
    when recipes.dom().finite()
{
    if from < 0 || from >= deps.len() {
        Ok(order)
    } else {
        match check_dependency(recipes, deps[from]) {
            Some(e) => Err(e),
            None => match visit_spec(recipes, deps[from].0, on_stack, order) {
                Err(e) => Err(e),
                Ok(after) => visit_all_spec(recipes, deps, from + 1, on_stack, after),
            },
        }
    }
}

/// The visits of the targets `targets[from..]`, in the order supplied.
pub open spec fn resolve_from(
    recipes: Map<Seq<char>, RecipeView>,
    targets: Seq<Seq<char>>,
    from: int,
    order: Seq<Seq<char>>,
) -> Result<Seq<Seq<char>>, ErrorView>
    decreases targets.len() - from,
{
    if from < 0 || from >= targets.len() {
        Ok(order)
    } else {
        match visit_spec(recipes, targets[from], Set::empty(), order) {
            Err(e) => Err(e),
            Ok(after) => resolve_from(recipes, targets, from + 1, after),
        }
    }
}

/// The build order for `targets`: a depth-first post-order of the
/// dependency graph, dependencies in the order listed in each recipe and
/// targets in the order supplied; or the first error that the traversal
/// meets.
pub open spec fn resolve_spec(
    recipes: Map<Seq<char>, RecipeView>,
    targets: Seq<Seq<char>>,
) -> Result<Seq<Seq<char>>, ErrorView> {
    resolve_from(recipes, targets, 0, Seq::empty())
}

/// The names of a list of packages, in order.
pub open spec fn names_view(v: Seq<PackageName>) -> Seq<Seq<char>> {
    Seq::new(v.len(), |i: int| v[i]@)
}

/// The views of a result of `Reactor::resolve`.
pub open spec fn order_result_view(r: Result<Vec<PackageName>, RavenError>) -> Result<
    Seq<Seq<char>>,
    ErrorView,
> {
    match r {
        Ok(order) => Ok(names_view(order@)),
        Err(e) => Err(e@),
    }
}

/// The outcome of a visit that left `order` behind.
pub open spec fn visited(r: Result<(), RavenError>, order: Seq<Seq<char>>) -> Result<
    Seq<Seq<char>>,
    ErrorView,
> {
    match r {
        Ok(_) => Ok(order),
        Err(e) => Err(e@),
    }
}

/// Whether `list` holds the package `name`.
pub fn has_name(list: &Vec<PackageName>, name: &PackageName) -> (r: bool)
    ensures
        r == names_view(list@).contains(name@),
{
    let mut i: usize = 0;
    while i < list.len()
        invariant
            i <= list.len(),
            forall|k: int| 0 <= k < i ==> names_view(list@)[k] != name@,
        decreases list.len() - i,
    {
        if list[i].0 == name.0 {
            assert(names_view(list@)[i as int] == name@);
            return true;
        }
        i = i + 1;
    }
    false
}

fn cycle_failure(node: &PackageName) -> (e: RavenError)
    ensures
        e@ == cycle_error(node@),
{
    let mut detail = "Circular dependency detected involving ".to_owned();
    detail.append(node.0.as_str());
    RavenError::DependencyError(detail)
}

fn not_found_failure(node: &PackageName) -> (e: RavenError)
    ensures
        e@ == not_found_error(node@),
{
    let mut detail = "Package not found: ".to_owned();
    detail.append(node.0.as_str());
    RavenError::DependencyError(detail)
}

fn missing_dependency_failure(name: &PackageName) -> (e: RavenError)
    ensures
        e@ == missing_dependency_error(name@),
{
    let mut detail = "Missing dependency: ".to_owned();
    detail.append(name.0.as_str());
    RavenError::DependencyError(detail)
}

fn invalid_version_failure(name: &PackageName, reason: &str) -> (e: RavenError)
    ensures
        e@ == invalid_version_error(name@, reason@),
{
    let mut detail = "Package ".to_owned();
    detail.append(name.0.as_str());
    detail.append(" has invalid semver: ");
    detail.append(reason);
    RavenError::DependencyError(detail)
}

fn mismatch_failure(name: &PackageName, required: &str, found: &str) -> (e: RavenError)
    ensures
        e@ == mismatch_error(name@, required@, found@),
{
    let mut detail = "Version mismatch for '".to_owned();
    detail.append(name.0.as_str());
    detail.append("': required '");
    detail.append(required);
    detail.append("', but found '");
    detail.append(found);
    detail.append("'");
    RavenError::DependencyError(detail)
}

/// Checks one dependency, whose requirement parses, against the recipe
/// set.
fn check(recipes: &RecipeSet, dep: &DependencyReq) -> (r: Option<RavenError>)
    requires
        semver_requirement(dep@.1) is Ok,
    ensures
        match r {
            Some(e) => check_dependency(recipes@, dep@) == Some(e@),
            None => check_dependency(recipes@, dep@) is None,
        },
{
    let candidate = match recipes.get(dep.name.0.as_str()) {
        None => {
            return Some(missing_dependency_failure(&dep.name));
        },
        Some(c) => c,
    };
    match semver_parse_version(candidate.version.as_str()) {
        Err(reason) => {
            return Some(invalid_version_failure(&candidate.name, reason.as_str()));
        },
        Ok(_) => {},
    }
    if !dep.matches(candidate.version.as_str()) {
        let required = match semver_parse_requirement(dep.req.as_str()) {
            Ok(text) => text,
            Err(text) => text,
        };
        return Some(mismatch_failure(&dep.name, required.as_str(), candidate.version.as_str()));
    }
    None
}

/// Every package of an order that a visit returns has a recipe, if every
/// package of the order that it began with has one.
pub proof fn lemma_visit_known(
    recipes: Map<Seq<char>, RecipeView>,
    node: Seq<char>,
    on_stack: Set<Seq<char>>,
    order: Seq<Seq<char>>,
)
    requires
        recipes.dom().finite(),
        forall|i: int| 0 <= i < order.len() ==> recipes.dom().contains(#[trigger] order[i]),
    ensures
        visit_spec(recipes, node, on_stack, order) matches Ok(after) ==> forall|i: int|
            0 <= i < after.len() ==> recipes.dom().contains(#[trigger] after[i]),
    decreases (recipes.dom() - on_stack).len(), 0nat,
{
    if !on_stack.contains(node) && !order.contains(node) && recipes.dom().contains(node) {
        match parse_dependencies_spec(recipes[node].dependencies) {
            Err(e) => {},
            Ok(deps) => {
                lemma_stack_grows(recipes.dom(), on_stack, node);
                lemma_visit_all_known(recipes, deps, 0, on_stack.insert(node), order);
            },
        }
    }
}

/// The same for the visits of a list of dependencies.
pub proof fn lemma_visit_all_known(
    recipes: Map<Seq<char>, RecipeView>,
    deps: Seq<(Seq<char>, Seq<char>)>,
    from: int,
    on_stack: Set<Seq<char>>,
    order: Seq<Seq<char>>,
)
    requires
        recipes.dom().finite(),
        forall|i: int| 0 <= i < order.len() ==> recipes.dom().contains(#[trigger] order[i]),
    ensures
        visit_all_spec(recipes, deps, from, on_stack, order) matches Ok(after) ==> forall|i: int|
            0 <= i < after.len() ==> recipes.dom().contains(#[trigger] after[i]),
    decreases (recipes.dom() - on_stack).len(), 1 + deps.len() - from,
{
    if 0 <= from < deps.len() && check_dependency(recipes, deps[from]) is None {
        lemma_visit_known(recipes, deps[from].0, on_stack, order);
        match visit_spec(recipes, deps[from].0, on_stack, order) {
            Err(e) => {},
            Ok(next) => {
                lemma_visit_all_known(recipes, deps, from + 1, on_stack, next);
            },
        }
    }
}

/// The same for the visits of the targets.
pub proof fn lemma_resolve_known(
    recipes: Map<Seq<char>, RecipeView>,
    targets: Seq<Seq<char>>,
    from: int,
    order: Seq<Seq<char>>,
)
    requires
        recipes.dom().finite(),
        forall|i: int| 0 <= i < order.len() ==> recipes.dom().contains(#[trigger] order[i]),
    ensures
        resolve_from(recipes, targets, from, order) matches Ok(after) ==> forall|i: int|
            0 <= i < after.len() ==> recipes.dom().contains(#[trigger] after[i]),
    decreases targets.len() - from,
{
    if 0 <= from < targets.len() {
        lemma_visit_known(recipes, targets[from], Set::empty(), order);
        match visit_spec(recipes, targets[from], Set::empty(), order) {
            Err(e) => {},
            Ok(next) => {
                lemma_resolve_known(recipes, targets, from + 1, next);
            },
        }
    }
}

/// One package to build, and the plan of its build.
#[derive(Debug)]
pub struct BuildStep {
    pub package: PackageName,
    pub plan: BuildPlan,
}

/// Binds the resolver to the builder and the transaction manager.
pub struct Reactor {
    pub tm: TransactionManager,
    pub builder: Builder,
}

impl Reactor {
    /// A reactor over a transaction manager and a builder.
    pub fn new(tm: TransactionManager, builder: Builder) -> (r: Self)
        ensures
            r.tm == tm,
            r.builder == builder,
    {
        Reactor { tm, builder }
    }

    /// Resolves `targets` and plans the build of every package of the build
    /// order, in that order. Nothing is planned where the resolver fails.
    pub fn execute(
        &self,
        targets: &Vec<PackageName>,
        recipes: &RecipeSet,
        host_arch: &str,
    ) -> (r: Result<Vec<BuildStep>, RavenError>)
        ensures
            match r {
                Err(e) => resolve_spec(recipes@, names_view(targets@)) == Err::<
                    Seq<Seq<char>>,
                    ErrorView,
                >(e@),
                Ok(steps) => {
                    &&& resolve_spec(recipes@, names_view(targets@)) matches Ok(order)
                    &&& steps@.len() == order.len()
                    &&& forall|i: int|
                        0 <= i < steps@.len() ==> {
                            &&& (#[trigger] steps@[i]).package@ == order[i]
                            &&& recipes@.dom().contains(order[i])
                            &&& is_plan_for(
                                steps@[i].plan,
                                self.builder.work_dir@,
                                recipes@[order[i]],
                                host_arch@,
                            )
                        }
                },
            },
    {
        let order = match Self::resolve(targets, recipes) {
            Err(e) => {
                return Err(e);
            },
            Ok(order) => order,
        };
        let ghost names = names_view(order@);
        proof {
            recipes.lemma_finite();
            lemma_resolve_known(recipes@, names_view(targets@), 0, Seq::empty());
            let outcome = resolve_from(recipes@, names_view(targets@), 0, Seq::empty());
            assert(outcome == resolve_spec(recipes@, names_view(targets@)));
            assert(outcome == Ok::<Seq<Seq<char>>, ErrorView>(names));
            assert(outcome->Ok_0 == names);
            assert forall|k: int| 0 <= k < names.len() implies recipes@.dom().contains(
                #[trigger] names[k],
            ) by {
                assert(recipes@.dom().contains(outcome->Ok_0[k]));
            }
        }
        let mut steps: Vec<BuildStep> = Vec::new();
        let mut i: usize = 0;
        while i < order.len()
            invariant
                names == names_view(order@),
                forall|k: int| 0 <= k < names.len() ==> recipes@.dom().contains(#[trigger] names[k]),
                i <= order.len(),
                steps@.len() == i,
                forall|k: int|
                    0 <= k < i ==> {
                        &&& (#[trigger] steps@[k]).package@ == names[k]
                        &&& is_plan_for(
                            steps@[k].plan,
                            self.builder.work_dir@,
                            recipes@[names[k]],
                            host_arch@,
                        )
                    },
            decreases order.len() - i,
        {
            assert(names[i as int] == order@[i as int]@);
            let recipe = match recipes.get(order[i].0.as_str()) {
                Some(recipe) => recipe,
                None => {
                    proof {
                        assert(recipes@.dom().contains(names[i as int]));
                    }
                    return Err(not_found_failure(&order[i]));
                },
            };
            let plan = self.builder.build(recipe, host_arch);
            steps.push(BuildStep { package: order[i].clone(), plan });
            i = i + 1;
        }
        Ok(steps)
    }

    /// The build order for `targets`: every package that a target needs,
    /// each after all it depends on, or the first error met. Dependencies
    /// are visited in the order listed in the recipe, targets in the order
    /// given.
    pub fn resolve(targets: &Vec<PackageName>, recipes: &RecipeSet) -> (r: Result<
        Vec<PackageName>,
        RavenError,
    >)
        ensures
            order_result_view(r) == resolve_spec(recipes@, names_view(targets@)),
    {
        let mut order: Vec<PackageName> = Vec::new();
        let mut on_stack: Vec<PackageName> = Vec::new();
        let ghost wanted = names_view(targets@);
        assert(names_view(order@) =~= Seq::<Seq<char>>::empty());
        let mut i: usize = 0;
        while i < targets.len()
            invariant
                wanted == names_view(targets@),
                i <= targets.len(),
                on_stack@.len() == 0,
                resolve_spec(recipes@, wanted) == resolve_from(
                    recipes@,
                    wanted,
                    i as int,
                    names_view(order@),
                ),
            decreases targets.len() - i,
        {
            assert(names_view(on_stack@).to_set() =~= Set::<Seq<char>>::empty());
            assert(wanted[i as int] == targets@[i as int]@);
            match Self::visit(&targets[i], recipes, &mut on_stack, &mut order) {
                Err(e) => {
                    return Err(e);
                },
                Ok(_) => {},
            }
            i = i + 1;
        }
        Ok(order)
    }

    fn visit(
        node: &PackageName,
        recipes: &RecipeSet,
        on_stack: &mut Vec<PackageName>,
        order: &mut Vec<PackageName>,
    ) -> (r: Result<(), RavenError>)
        ensures
            visited(r, names_view(final(order)@)) == visit_spec(
                recipes@,
                node@,
                names_view(old(on_stack)@).to_set(),
                names_view(old(order)@),
            ),
            r is Ok ==> final(on_stack)@.len() == old(on_stack)@.len() && names_view(
                final(on_stack)@,
            ) == names_view(old(on_stack)@),
        decreases (recipes@.dom() - names_view(old(on_stack)@).to_set()).len(),
    {
        proof {
            recipes.lemma_finite();
        }
        let ghost stack0 = names_view(on_stack@);
        let ghost set0 = stack0.to_set();
        let ghost order0 = names_view(order@);
        if has_name(on_stack, node) {
            return Err(cycle_failure(node));
        }
        if has_name(order, node) {
            return Ok(());
        }
        let recipe = match recipes.get(node.0.as_str()) {
            None => {
                return Err(not_found_failure(node));
            },
            Some(r) => r,
        };
        let deps = match recipe.parse_dependencies() {
            Err(e) => {
                return Err(e);
            },
            Ok(d) => d,
        };
        let ghost depsv = requirements_view(deps@);
        let ghost inner = set0.insert(node@);
        on_stack.push(node.clone());
        proof {
            assert(names_view(on_stack@) =~= stack0.push(node@));
            assert(names_view(on_stack@).to_set() =~= inner) by {
                assert forall|n: Seq<char>| #[trigger]
                    stack0.push(node@).contains(n) <==> inner.contains(n) by {
                    if stack0.push(node@).contains(n) {
                        let k = choose|k: int|
                            0 <= k < stack0.push(node@).len() && stack0.push(node@)[k] == n;
                        if k < stack0.len() {
                            assert(stack0[k] == n);
                        }
                    }
                    if stack0.contains(n) {
                        let k = choose|k: int| 0 <= k < stack0.len() && stack0[k] == n;
                        assert(stack0.push(node@)[k] == n);
                    }
                    if n == node@ {
                        assert(stack0.push(node@)[stack0.len() as int] == n);
                    }
                }
            }
            lemma_stack_grows(recipes@.dom(), set0, node@);
            let raw = recipes@[node@].dependencies;
            lemma_bad_dependency_bounds(raw, 0);
            assert forall|k: int| 0 <= k < depsv.len() implies semver_requirement(
                (#[trigger] depsv[k]).1,
            ) is Ok by {
                assert(dependency_parses(raw[k]));
                assert(depsv[k] == split_dependency(raw[k]));
            }
        }
        let mut i: usize = 0;
        while i < deps.len()
            invariant
                recipes@.dom().finite(),
                stack0 == names_view(old(on_stack)@),
                set0 == stack0.to_set(),
                order0 == names_view(old(order)@),
                depsv == requirements_view(deps@),
                inner == set0.insert(node@),
                i <= deps.len(),
                on_stack@.len() == old(on_stack)@.len() + 1,
                names_view(on_stack@) == stack0.push(node@),
                names_view(on_stack@).to_set() == inner,
                (recipes@.dom() - inner).len() < (recipes@.dom() - set0).len(),
                forall|k: int| 0 <= k < depsv.len() ==> semver_requirement((#[trigger] depsv[k]).1) is Ok,
                visit_spec(recipes@, node@, set0, order0) == (match visit_all_spec(
                    recipes@,
                    depsv,
                    0,
                    inner,
                    order0,
                ) {
                    Err(e) => Err(e),
                    Ok(after) => Ok(after.push(node@)),
                }),
                visit_all_spec(recipes@, depsv, 0, inner, order0) == visit_all_spec(
                    recipes@,
                    depsv,
                    i as int,
                    inner,
                    names_view(order@),
                ),
            decreases deps.len() - i,
        {
            let dep = &deps[i];
            assert(depsv[i as int] == dep@);
            match check(recipes, dep) {
                Some(e) => {
                    return Err(e);
                },
                None => {},
            }
            match Self::visit(&dep.name, recipes, on_stack, order) {
                Err(e) => {
                    return Err(e);
                },
                Ok(_) => {},
            }
            i = i + 1;
        }
        let ghost full = on_stack@;
        on_stack.pop();
        order.push(node.clone());
        proof {
            assert forall|k: int| 0 <= k < stack0.len() implies names_view(on_stack@)[k]
                == stack0[k] by {
                assert(names_view(full)[k] == stack0.push(node@)[k]);
            }
            assert(names_view(on_stack@) =~= stack0);
            let after = visit_all_spec(recipes@, depsv, 0, inner, order0)->Ok_0;
            assert(names_view(order@) =~= after.push(node@));
        }
        Ok(())
    }
}

/// What the driver of an install does next. The packages of the build
/// order are numbered from 0.
#[derive(Debug)]
pub enum Action {
    /// Build the package with this number.
    Build(usize),
    /// Install the package with this number from what its build left.
    Install(usize),
    /// Every package is built and installed.
    Finish,
    /// Stop with this error; nothing more is built or installed.
    Abort(RavenError),
}

/// An action as a value of specifications.
pub enum ActionView {
    Build(int),
    Install(int),
    Finish,
    Abort(ErrorView),
}

impl View for Action {
    type V = ActionView;

    open spec fn view(&self) -> ActionView {
        match self {
            Action::Build(i) => ActionView::Build(*i as int),
            Action::Install(i) => ActionView::Install(*i as int),
            Action::Finish => ActionView::Finish,
            Action::Abort(e) => ActionView::Abort(e@),
        }
    }
}

/// The action that begins the work on `steps` packages.
pub open spec fn first_action(steps: int) -> ActionView {
    if steps > 0 {
        ActionView::Build(0)
    } else {
        ActionView::Finish
    }
}

/// The action after `last` has ended with `failure`, `None` standing for
/// success. A failure stops everything. After a build comes the install of
/// the same package, after an install the build of the next package, and
/// after the last install the end. The end and a stop stay as they are.
pub open spec fn next_action(steps: int, last: ActionView, failure: Option<ErrorView>) -> ActionView {
    match last {
        ActionView::Build(i) => match failure {
            Some(e) => ActionView::Abort(e),
            None => ActionView::Install(i),
        },
        ActionView::Install(i) => match failure {
            Some(e) => ActionView::Abort(e),
            None => if i + 1 < steps {
                ActionView::Build(i + 1)
            } else {
                ActionView::Finish
            },
        },
        ActionView::Finish => ActionView::Finish,
        ActionView::Abort(e) => ActionView::Abort(e),
    }
}

/// The view of an outcome: the error of a failure, `None` for success.
pub open spec fn failure_of(outcome: Result<(), RavenError>) -> Option<ErrorView> {
    match outcome {
        Ok(_) => None,
        Err(e) => Some(e@),
    }
}

/// Action number `k` of the work on `steps` packages, where call number
/// `j` (a build or an install) ends with `failures(j)`.
pub open spec fn action_at(steps: int, failures: spec_fn(int) -> Option<ErrorView>, k: nat) -> ActionView
    decreases k,
{
    if k == 0 {
        first_action(steps)
    } else {
        next_action(steps, action_at(steps, failures, (k - 1) as nat), failures(k - 1))
    }
}

/// While nothing fails, the packages are built and installed one after the
/// other, in order. Where the first `k` calls succeed, action number `k`
/// is the build of package `k / 2` for an even `k` and its install for an
/// odd `k`, as long as there are packages left, and the end after that.
pub proof fn actions_follow_the_order(
    steps: int,
    failures: spec_fn(int) -> Option<ErrorView>,
    k: nat,
)
    requires
        steps >= 0,
        forall|j: int| 0 <= j < k ==> (#[trigger] failures(j)) is None,
    ensures
        action_at(steps, failures, k) == (if k >= 2 * steps {
            ActionView::Finish
        } else if k % 2 == 0 {
            ActionView::Build(k as int / 2)
        } else {
            ActionView::Install(k as int / 2)
        }),
    decreases k,
{
    if k > 0 {
        actions_follow_the_order(steps, failures, (k - 1) as nat);
        assert(failures(k - 1) is None);
    }
}

/// The first failure stops the work. Where the first `k` calls succeed and
/// call number `k` fails, with a package left to build or install, every
/// later action is the stop with the error of that call: no further
/// package is built or installed.
pub proof fn first_failure_stops(
    steps: int,
    failures: spec_fn(int) -> Option<ErrorView>,
    k: nat,
    later: nat,
)
    requires
        0 <= k < 2 * steps,
        forall|j: int| 0 <= j < k ==> (#[trigger] failures(j)) is None,
        failures(k as int) is Some,
        later > k,
    ensures
        action_at(steps, failures, later) == ActionView::Abort(failures(k as int)->Some_0),
    decreases later,
{
    if later == k + 1 {
        actions_follow_the_order(steps, failures, k);
    } else {
        first_failure_stops(steps, failures, k, (later - 1) as nat);
    }
}

impl Reactor {
    /// The action that begins the work on `steps` packages.
    pub fn begin(steps: usize) -> (r: Action)
        ensures
            r@ == first_action(steps as int),
    {
        if steps > 0 {
            Action::Build(0)
        } else {
            Action::Finish
        }
    }

    /// The action that follows `last`, given how `last` ended.
    pub fn proceed(steps: usize, last: Action, outcome: Result<(), RavenError>) -> (r: Action)
        ensures
            r@ == next_action(steps as int, last@, failure_of(outcome)),
    {
        match last {
            Action::Build(i) => match outcome {
                Err(e) => Action::Abort(e),
                Ok(_) => Action::Install(i),
            },
            Action::Install(i) => match outcome {
                Err(e) => Action::Abort(e),
                Ok(_) => {
                    if i < steps && i + 1 < steps {
                        Action::Build(i + 1)
                    } else {
                        Action::Finish
                    }
                },
            },
            Action::Finish => Action::Finish,
            Action::Abort(e) => Action::Abort(e),
        }
    }
}

} // verus!
