use raven::error::{ErrorKind, RavenError};
use raven::reactor::{Action, Reactor};
use raven::recipe::{HashSum, PackageName, Recipe};
use raven::recipe_set::RecipeSet;

fn recipe(name: &str, version: &str, deps: &[&str]) -> Recipe {
    Recipe {
        name: PackageName(name.to_string()),
        version: version.to_string(),
        description: format!("{} package", name),
        target_arch: None,
        dependencies: deps.iter().map(|d| d.to_string()).collect(),
        source_url: format!("https://example.org/{}.tar.gz", name),
        sha256_sum: HashSum("00".repeat(32)),
        build_commands: vec!["make".to_string()],
        install_commands: vec!["make install".to_string()],
    }
}

fn set_of(recipes: Vec<Recipe>) -> RecipeSet {
    let mut set = RecipeSet::new();
    for r in recipes {
        set.insert(r);
    }
    set
}

fn targets(names: &[&str]) -> Vec<PackageName> {
    names.iter().map(|n| PackageName(n.to_string())).collect()
}

fn names(order: &[PackageName]) -> Vec<String> {
    order.iter().map(|n| n.0.clone()).collect()
}

fn detail(e: &RavenError) -> String {
    match e {
        RavenError::DependencyError(d) => d.clone(),
        other => panic!("not a dependency error: {:?}", other),
    }
}

#[test]
fn linear_chain_is_built_leaves_first() {
    let set = set_of(vec![
        recipe("A", "1.0.0", &["B >=1.0"]),
        recipe("B", "1.2.0", &["C"]),
        recipe("C", "0.1.0", &[]),
    ]);
    let order = Reactor::resolve(&targets(&["A"]), &set).unwrap();
    assert_eq!(names(&order), vec!["C", "B", "A"]);
}

#[test]
fn cycle_is_reported() {
    let set = set_of(vec![recipe("A", "1.0.0", &["B"]), recipe("B", "1.0.0", &["A"])]);
    let err = Reactor::resolve(&targets(&["A"]), &set).unwrap_err();
    assert_eq!(err.kind(), ErrorKind::Dependency);
    assert_eq!(detail(&err), "Circular dependency detected involving A");
    assert_eq!(
        err.message(),
        "Dependency resolution failed: Circular dependency detected involving A"
    );
}

#[test]
fn self_dependency_is_a_cycle() {
    let set = set_of(vec![recipe("A", "1.0.0", &["A"])]);
    let err = Reactor::resolve(&targets(&["A"]), &set).unwrap_err();
    assert_eq!(detail(&err), "Circular dependency detected involving A");
}

#[test]
fn cycle_below_a_target_names_a_package_on_it() {
    let set = set_of(vec![
        recipe("T", "1.0.0", &["X"]),
        recipe("X", "1.0.0", &["Y"]),
        recipe("Y", "1.0.0", &["Z"]),
        recipe("Z", "1.0.0", &["X"]),
    ]);
    let err = Reactor::resolve(&targets(&["T"]), &set).unwrap_err();
    assert_eq!(detail(&err), "Circular dependency detected involving X");
}

#[test]
fn version_mismatch_is_reported() {
    let set = set_of(vec![recipe("A", "1.0.0", &["B >=2.0.0"]), recipe("B", "1.5.0", &[])]);
    let err = Reactor::resolve(&targets(&["A"]), &set).unwrap_err();
    assert_eq!(
        detail(&err),
        "Version mismatch for 'B': required '>=2.0.0', but found '1.5.0'"
    );
}

#[test]
fn version_mismatch_shows_the_requirement_as_parsed() {
    let set = set_of(vec![recipe("A", "1.0.0", &["B 2.1"]), recipe("B", "1.5.0", &[])]);
    let err = Reactor::resolve(&targets(&["A"]), &set).unwrap_err();
    assert_eq!(detail(&err), "Version mismatch for 'B': required '^2.1', but found '1.5.0'");
}

#[test]
fn version_mismatch_plans_no_build() {
    let set = set_of(vec![recipe("A", "1.0.0", &["B >=2.0.0"]), recipe("B", "1.5.0", &[])]);
    let reactor = Reactor::new(
        raven::transaction::TransactionManager::new("/tmp/raven_stage".to_string()),
        raven::builder::Builder::new("/tmp/raven_build".to_string()),
    );
    let r = reactor.execute(&targets(&["A"]), &set, "x86_64");
    assert!(r.is_err());
    assert_eq!(reactor.tm.list_installed().len(), 0);
}

#[test]
fn missing_target_is_reported() {
    let set = set_of(vec![recipe("A", "1.0.0", &[])]);
    let err = Reactor::resolve(&targets(&["Z"]), &set).unwrap_err();
    assert_eq!(detail(&err), "Package not found: Z");
}

#[test]
fn missing_dependency_is_reported() {
    let set = set_of(vec![recipe("A", "1.0.0", &["B"])]);
    let err = Reactor::resolve(&targets(&["A"]), &set).unwrap_err();
    assert_eq!(detail(&err), "Missing dependency: B");
}

#[test]
fn invalid_requirement_is_reported() {
    let set = set_of(vec![recipe("A", "1.0.0", &["B @1.0"]), recipe("B", "1.0.0", &[])]);
    let err = Reactor::resolve(&targets(&["A"]), &set).unwrap_err();
    let d = detail(&err);
    assert!(d.starts_with("Invalid requirement for B: "), "{}", d);
    assert!(d.len() > "Invalid requirement for B: ".len());
}

#[test]
fn invalid_dependency_version_is_reported() {
    let set = set_of(vec![recipe("A", "1.0.0", &["B"]), recipe("B", "1.0", &[])]);
    let err = Reactor::resolve(&targets(&["A"]), &set).unwrap_err();
    let d = detail(&err);
    assert!(d.starts_with("Package B has invalid semver: "), "{}", d);
    assert!(d.len() > "Package B has invalid semver: ".len());
}

#[test]
fn dependencies_are_visited_in_the_order_listed() {
    let set = set_of(vec![
        recipe("A", "1.0.0", &["C", "B"]),
        recipe("B", "1.0.0", &[]),
        recipe("C", "1.0.0", &[]),
    ]);
    let order = Reactor::resolve(&targets(&["A"]), &set).unwrap();
    assert_eq!(names(&order), vec!["C", "B", "A"]);
    let set = set_of(vec![
        recipe("A", "1.0.0", &["B", "C"]),
        recipe("B", "1.0.0", &[]),
        recipe("C", "1.0.0", &[]),
    ]);
    let order = Reactor::resolve(&targets(&["A"]), &set).unwrap();
    assert_eq!(names(&order), vec!["B", "C", "A"]);
}

#[test]
fn targets_are_visited_in_the_order_given() {
    let set = set_of(vec![
        recipe("A", "1.0.0", &[]),
        recipe("B", "1.0.0", &[]),
        recipe("C", "1.0.0", &["A"]),
    ]);
    let order = Reactor::resolve(&targets(&["B", "C", "A", "B"]), &set).unwrap();
    assert_eq!(names(&order), vec!["B", "A", "C"]);
}

#[test]
fn diamond_holds_each_package_once_after_its_dependencies() {
    let set = set_of(vec![
        recipe("top", "2.0.0", &["left ^1", "right >=0.3, <1.0"]),
        recipe("left", "1.4.2", &["base"]),
        recipe("right", "0.9.0", &["base >=3"]),
        recipe("base", "3.1.0", &[]),
        recipe("unrelated", "1.0.0", &[]),
    ]);
    let order = names(&Reactor::resolve(&targets(&["top"]), &set).unwrap());
    assert_eq!(order, vec!["base", "left", "right", "top"]);
    let at = |n: &str| order.iter().position(|x| x == n).unwrap();
    assert!(at("base") < at("left"));
    assert!(at("base") < at("right"));
    assert!(at("left") < at("top"));
    assert!(at("right") < at("top"));
    assert!(!order.contains(&"unrelated".to_string()));
}

#[test]
fn no_targets_give_an_empty_order() {
    let set = set_of(vec![recipe("A", "1.0.0", &[])]);
    let order = Reactor::resolve(&targets(&[]), &set).unwrap();
    assert!(order.is_empty());
}

#[test]
fn first_error_in_traversal_order_wins() {
    let set = set_of(vec![
        recipe("A", "1.0.0", &["B", "C"]),
        recipe("B", "1.0.0", &["ghost"]),
        recipe("C", "1.0.0", &["A"]),
    ]);
    let err = Reactor::resolve(&targets(&["A"]), &set).unwrap_err();
    assert_eq!(detail(&err), "Missing dependency: ghost");
}

#[test]
fn execute_plans_every_build_in_order() {
    let set = set_of(vec![
        recipe("A", "1.0.0", &["B >=1.0"]),
        recipe("B", "1.2.0", &["C"]),
        recipe("C", "0.1.0", &[]),
    ]);
    let reactor = Reactor::new(
        raven::transaction::TransactionManager::new("/tmp/raven_stage".to_string()),
        raven::builder::Builder::new("/tmp/raven_build".to_string()),
    );
    let steps = reactor.execute(&targets(&["A"]), &set, "x86_64").unwrap();
    let built: Vec<String> = steps.iter().map(|s| s.package.0.clone()).collect();
    assert_eq!(built, vec!["C", "B", "A"]);
    assert_eq!(steps[0].plan.pkg_dir, "/tmp/raven_build/C-build");
    assert_eq!(steps[2].plan.out_dir, "/tmp/raven_build/A-build/out");
}

fn trace(steps: usize, fail_at: Option<usize>) -> Vec<String> {
    let mut seen = Vec::new();
    let mut action = Reactor::begin(steps);
    let mut call = 0usize;
    loop {
        let shown = match &action {
            Action::Build(i) => format!("build {}", i),
            Action::Install(i) => format!("install {}", i),
            Action::Finish => "finish".to_string(),
            Action::Abort(e) => format!("abort: {}", e.message()),
        };
        seen.push(shown);
        if matches!(action, Action::Finish | Action::Abort(_)) {
            return seen;
        }
        let outcome = if fail_at == Some(call) {
            Err(RavenError::IoError(format!("call {}", call)))
        } else {
            Ok(())
        };
        call += 1;
        action = Reactor::proceed(steps, action, outcome);
    }
}

#[test]
fn packages_are_built_and_installed_one_after_the_other() {
    assert_eq!(
        trace(3, None),
        vec!["build 0", "install 0", "build 1", "install 1", "build 2", "install 2", "finish"]
    );
    assert_eq!(trace(0, None), vec!["finish"]);
    assert_eq!(trace(1, None), vec!["build 0", "install 0", "finish"]);
}

#[test]
fn the_first_failure_stops_the_work() {
    assert_eq!(
        trace(3, Some(2)),
        vec!["build 0", "install 0", "build 1", "abort: File system error: call 2"]
    );
    assert_eq!(
        trace(3, Some(3)),
        vec!["build 0", "install 0", "build 1", "install 1", "abort: File system error: call 3"]
    );
    assert_eq!(trace(2, Some(0)), vec!["build 0", "abort: File system error: call 0"]);
}

#[test]
fn finish_and_abort_stay() {
    assert!(matches!(Reactor::proceed(3, Action::Finish, Ok(())), Action::Finish));
    let stopped = Reactor::proceed(3, Action::Abort(RavenError::HashMismatch), Ok(()));
    assert!(matches!(stopped, Action::Abort(RavenError::HashMismatch)));
}
