use raven::error::{ErrorKind, RavenError};
use raven::metadata::{DependencyEdge, InstalledFile, InstalledPackage};
use raven::reactor::Reactor;
use raven::recipe::{HashSum, PackageName, Recipe};
use raven::recipe_set::RecipeSet;
use raven::transaction::TransactionManager;
use raven::upgrade::select_upgrades;

fn recipe(name: &str, version: &str, deps: &[&str]) -> Recipe {
    Recipe {
        name: PackageName(name.to_string()),
        version: version.to_string(),
        description: String::new(),
        target_arch: None,
        dependencies: deps.iter().map(|d| d.to_string()).collect(),
        source_url: String::new(),
        sha256_sum: HashSum(format!("hash-of-{}-{}", name, version)),
        build_commands: Vec::new(),
        install_commands: Vec::new(),
    }
}

fn staged(paths: &[&str]) -> Vec<String> {
    paths.iter().map(|p| p.to_string()).collect()
}

fn name(n: &str) -> PackageName {
    PackageName(n.to_string())
}

fn packages(tm: &TransactionManager) -> Vec<(String, String)> {
    let mut rows: Vec<(String, String)> =
        tm.list_installed().into_iter().map(|(n, v)| (n.0, v)).collect();
    rows.sort();
    rows
}

fn files(tm: &TransactionManager) -> Vec<(String, String)> {
    let mut rows: Vec<(String, String)> =
        tm.installed_files().into_iter().map(|f| (f.package_name.0, f.filepath)).collect();
    rows.sort();
    rows
}

fn edges(tm: &TransactionManager) -> Vec<(String, String)> {
    let mut rows: Vec<(String, String)> = tm.edges.rows().clone();
    rows.sort();
    rows
}

fn chain() -> Vec<Recipe> {
    vec![
        recipe("A", "1.0.0", &["B >=1.0"]),
        recipe("B", "1.2.0", &["C"]),
        recipe("C", "0.1.0", &[]),
    ]
}

fn install_chain(tm: &mut TransactionManager) {
    let mut set = RecipeSet::new();
    for r in chain() {
        set.insert(r);
    }
    let order = Reactor::resolve(&vec![name("A")], &set).unwrap();
    for pkg in order {
        let r = set.get(&pkg.0).unwrap();
        let file = format!("usr/lib/lib{}.so", pkg.0);
        tm.install_package(r, true, &vec![file]).unwrap();
    }
}

#[test]
fn new_store_is_empty() {
    let tm = TransactionManager::new("/tmp/raven_stage".to_string());
    assert_eq!(tm.staging_root, "/tmp/raven_stage");
    assert!(packages(&tm).is_empty());
    assert!(files(&tm).is_empty());
    assert!(edges(&tm).is_empty());
}

#[test]
fn staging_names_directory_and_copy() {
    let tm = TransactionManager::new("/tmp/raven_stage".to_string());
    let plan = tm.staging(&recipe("zlib", "1.3.1", &[]), "/tmp/raven_build/zlib-build/out");
    assert_eq!(plan.stage_dir, "/tmp/raven_stage/zlib_1.3.1");
    assert_eq!(plan.copy_from, "/tmp/raven_build/zlib-build/out/.");
    assert_eq!(plan.copy_to, "/tmp/raven_stage/zlib_1.3.1/");
}

#[test]
fn install_records_files_edges_and_package() {
    let mut tm = TransactionManager::new("/stage".to_string());
    let r = recipe("zlib", "1.3.1", &["libc >=2.30", "make"]);
    let plan =
        tm.install_package(&r, true, &staged(&["usr/lib/libz.so", "usr/include/zlib.h"])).unwrap();
    assert_eq!(plan.placements.len(), 2);
    assert_eq!(plan.placements[0].source, "/stage/zlib_1.3.1/usr/lib/libz.so");
    assert_eq!(plan.placements[0].destination, "/usr/lib/libz.so");
    assert_eq!(plan.placements[1].source, "/stage/zlib_1.3.1/usr/include/zlib.h");
    assert_eq!(plan.placements[1].destination, "/usr/include/zlib.h");
    assert_eq!(plan.edges.len(), 2);
    assert_eq!(plan.edges[0].package.0, "zlib");
    assert_eq!(plan.edges[0].depends_on.0, "libc");
    assert_eq!(plan.edges[1].depends_on.0, "make");
    assert_eq!(plan.package.name.0, "zlib");
    assert_eq!(plan.package.version, "1.3.1");
    assert_eq!(plan.package.hash.0, "hash-of-zlib-1.3.1");
    assert_eq!(packages(&tm), vec![("zlib".to_string(), "1.3.1".to_string())]);
    assert_eq!(
        files(&tm),
        vec![
            ("zlib".to_string(), "/usr/include/zlib.h".to_string()),
            ("zlib".to_string(), "/usr/lib/libz.so".to_string()),
        ]
    );
    assert_eq!(
        edges(&tm),
        vec![
            ("zlib".to_string(), "libc".to_string()),
            ("zlib".to_string(), "make".to_string()),
        ]
    );
}

#[test]
fn edge_goes_to_the_first_token() {
    let mut tm = TransactionManager::new("/stage".to_string());
    tm.install_package(&recipe("a", "1.0.0", &["  b   >=1", "c\t^2", ""]), true, &staged(&[])).unwrap();
    assert_eq!(
        edges(&tm),
        vec![
            ("a".to_string(), "".to_string()),
            ("a".to_string(), "b".to_string()),
            ("a".to_string(), "c".to_string()),
        ]
    );
}

#[test]
fn linear_chain_leaves_three_packages() {
    let mut tm = TransactionManager::new("/stage".to_string());
    install_chain(&mut tm);
    assert_eq!(
        packages(&tm),
        vec![
            ("A".to_string(), "1.0.0".to_string()),
            ("B".to_string(), "1.2.0".to_string()),
            ("C".to_string(), "0.1.0".to_string()),
        ]
    );
    assert_eq!(tm.packages.len(), 3);
}

#[test]
fn cycle_leaves_packages_empty() {
    let mut tm = TransactionManager::new("/stage".to_string());
    let mut set = RecipeSet::new();
    set.insert(recipe("A", "1.0.0", &["B"]));
    set.insert(recipe("B", "1.0.0", &["A"]));
    match Reactor::resolve(&vec![name("A")], &set) {
        Ok(order) => {
            for pkg in order {
                tm.install_package(set.get(&pkg.0).unwrap(), true, &staged(&[])).unwrap();
            }
        }
        Err(e) => assert!(e.message().contains("Circular dependency")),
    }
    assert!(packages(&tm).is_empty());
}

#[test]
fn remove_blocked_names_the_blocker_and_changes_nothing() {
    let mut tm = TransactionManager::new("/stage".to_string());
    install_chain(&mut tm);
    let before = (packages(&tm), files(&tm), edges(&tm));
    let err = tm.remove_package(&name("C")).unwrap_err();
    assert_eq!(err.kind(), ErrorKind::Dependency);
    match &err {
        RavenError::DependencyError(d) => assert_eq!(d, "Cannot remove 'C', it is required by: B"),
        other => panic!("unexpected {:?}", other),
    }
    assert_eq!((packages(&tm), files(&tm), edges(&tm)), before);
}

#[test]
fn remove_lists_every_blocker_once() {
    let mut tm = TransactionManager::new("/stage".to_string());
    tm.install_package(&recipe("base", "1.0.0", &[]), true, &staged(&[])).unwrap();
    tm.install_package(&recipe("x", "1.0.0", &["base", "base >=1"]), true, &staged(&[])).unwrap();
    tm.install_package(&recipe("y", "1.0.0", &["base"]), true, &staged(&[])).unwrap();
    let err = tm.remove_package(&name("base")).unwrap_err();
    match &err {
        RavenError::DependencyError(d) => {
            assert_eq!(d, "Cannot remove 'base', it is required by: x, y")
        }
        other => panic!("unexpected {:?}", other),
    }
}

#[test]
fn remove_succeeds_from_the_top_down() {
    let mut tm = TransactionManager::new("/stage".to_string());
    install_chain(&mut tm);
    let gone = tm.remove_package(&name("A")).unwrap();
    assert_eq!(gone, vec!["/usr/lib/libA.so".to_string()]);
    let gone = tm.remove_package(&name("B")).unwrap();
    assert_eq!(gone, vec!["/usr/lib/libB.so".to_string()]);
    let gone = tm.remove_package(&name("C")).unwrap();
    assert_eq!(gone, vec!["/usr/lib/libC.so".to_string()]);
    assert!(packages(&tm).is_empty());
    assert!(files(&tm).is_empty());
    assert!(edges(&tm).is_empty());
}

#[test]
fn remove_of_unknown_package_changes_nothing() {
    let mut tm = TransactionManager::new("/stage".to_string());
    install_chain(&mut tm);
    let before = (packages(&tm), files(&tm), edges(&tm));
    let gone = tm.remove_package(&name("nothing")).unwrap();
    assert!(gone.is_empty());
    assert_eq!((packages(&tm), files(&tm), edges(&tm)), before);
}

#[test]
fn install_then_remove_restores_the_store() {
    let mut tm = TransactionManager::new("/stage".to_string());
    install_chain(&mut tm);
    let before = (packages(&tm), files(&tm), edges(&tm));
    let r = recipe("tool", "0.3.0", &["A ^1", "C"]);
    let plan = tm.install_package(&r, true, &staged(&["usr/bin/tool", "usr/share/tool/data"])).unwrap();
    assert_ne!((packages(&tm), files(&tm), edges(&tm)), before);
    let mut deleted = tm.remove_package(&name("tool")).unwrap();
    deleted.sort();
    let mut placed: Vec<String> = plan.placements.iter().map(|p| p.destination.clone()).collect();
    placed.sort();
    assert_eq!(deleted, placed);
    assert_eq!((packages(&tm), files(&tm), edges(&tm)), before);
}

#[test]
fn installing_twice_changes_nothing_more() {
    let mut tm = TransactionManager::new("/stage".to_string());
    let r = recipe("zlib", "1.3.1", &["libc", "libc >=2"]);
    let list = staged(&["usr/lib/libz.so", "usr/include/zlib.h", "usr/lib/libz.so"]);
    tm.install_package(&r, true, &list).unwrap();
    let once = (packages(&tm), files(&tm), edges(&tm));
    tm.install_package(&r, true, &list).unwrap();
    assert_eq!((packages(&tm), files(&tm), edges(&tm)), once);
    assert_eq!(tm.files.len(), 2);
    assert_eq!(tm.edges.len(), 1);
    assert_eq!(tm.packages.len(), 1);
}

#[test]
fn upgrade_selects_the_newer_recipe_and_install_replaces_the_row() {
    let mut tm = TransactionManager::new("/stage".to_string());
    tm.install_package(&recipe("A", "1.0.0", &[]), true, &staged(&["usr/bin/a"])).unwrap();
    let mut offered = RecipeSet::new();
    offered.insert(recipe("A", "1.2.0", &[]));
    let chosen = select_upgrades(&tm.list_installed(), &offered).unwrap();
    assert_eq!(chosen.len(), 1);
    assert_eq!(chosen[0].0, "A");
    let order = Reactor::resolve(&chosen, &offered).unwrap();
    for pkg in order {
        tm.install_package(offered.get(&pkg.0).unwrap(), true, &staged(&["usr/bin/a"])).unwrap();
    }
    assert_eq!(packages(&tm), vec![("A".to_string(), "1.2.0".to_string())]);
    assert_eq!(tm.packages.get("A").unwrap().version, "1.2.0");
    assert_eq!(tm.packages.get("A").unwrap().hash.0, "hash-of-A-1.2.0");
    assert_eq!(files(&tm), vec![("A".to_string(), "/usr/bin/a".to_string())]);
}

#[test]
fn restore_takes_rows_as_a_store_would_hold_them() {
    let pk = vec![
        InstalledPackage {
            name: name("a"),
            version: "1.0.0".to_string(),
            hash: HashSum("h1".to_string()),
        },
        InstalledPackage {
            name: name("b"),
            version: "2.0.0".to_string(),
            hash: HashSum("h2".to_string()),
        },
        InstalledPackage {
            name: name("a"),
            version: "1.1.0".to_string(),
            hash: HashSum("h3".to_string()),
        },
    ];
    let fl = vec![
        InstalledFile { package_name: name("a"), filepath: "/usr/bin/a".to_string() },
        InstalledFile { package_name: name("a"), filepath: "/usr/bin/a".to_string() },
        InstalledFile { package_name: name("b"), filepath: "/usr/bin/b".to_string() },
    ];
    let ed = vec![DependencyEdge { package: name("b"), depends_on: name("a") }];
    let mut tm = TransactionManager::restore("/stage".to_string(), &pk, &fl, &ed);
    assert_eq!(
        packages(&tm),
        vec![("a".to_string(), "1.1.0".to_string()), ("b".to_string(), "2.0.0".to_string())]
    );
    assert_eq!(
        files(&tm),
        vec![
            ("a".to_string(), "/usr/bin/a".to_string()),
            ("b".to_string(), "/usr/bin/b".to_string()),
        ]
    );
    assert_eq!(edges(&tm), vec![("b".to_string(), "a".to_string())]);
    assert!(tm.remove_package(&name("a")).is_err());
    assert!(tm.remove_package(&name("b")).is_ok());
    assert!(tm.remove_package(&name("a")).is_ok());
}

#[test]
fn failed_copy_is_an_io_error() {
    assert!(TransactionManager::copy_outcome(true).is_ok());
    let err = TransactionManager::copy_outcome(false).unwrap_err();
    assert_eq!(err.kind(), ErrorKind::Io);
    assert_eq!(err.message(), "File system error: Failed to copy artifacts to staging");
}

#[test]
fn failed_copy_installs_nothing() {
    let mut tm = TransactionManager::new("/stage".to_string());
    install_chain(&mut tm);
    let before = (packages(&tm), files(&tm), edges(&tm));
    let r = recipe("tool", "0.3.0", &["A"]);
    let err = tm.install_package(&r, false, &staged(&["usr/bin/tool"])).unwrap_err();
    assert_eq!(err.kind(), ErrorKind::Io);
    assert_eq!(err.message(), "File system error: Failed to copy artifacts to staging");
    assert_eq!((packages(&tm), files(&tm), edges(&tm)), before);
    let err = tm.plan_install(&r, false, &staged(&[])).unwrap_err();
    assert_eq!(err.kind(), ErrorKind::Io);
}

#[test]
fn planning_changes_nothing_until_recorded() {
    let mut tm = TransactionManager::new("/stage".to_string());
    install_chain(&mut tm);
    let before = (packages(&tm), files(&tm), edges(&tm));
    let r = recipe("tool", "0.3.0", &["A ^1"]);
    let plan = tm.plan_install(&r, true, &staged(&["usr/bin/tool"])).unwrap();
    assert_eq!((packages(&tm), files(&tm), edges(&tm)), before);
    assert_eq!(plan.placements[0].source, "/stage/tool_0.3.0/usr/bin/tool");
    assert_eq!(plan.placements[0].destination, "/usr/bin/tool");
    tm.record_install(&plan);
    let mut other = TransactionManager::new("/stage".to_string());
    install_chain(&mut other);
    other.install_package(&r, true, &staged(&["usr/bin/tool"])).unwrap();
    assert_eq!(
        (packages(&tm), files(&tm), edges(&tm)),
        (packages(&other), files(&other), edges(&other))
    );
    assert!(files(&tm).contains(&("tool".to_string(), "/usr/bin/tool".to_string())));
    assert!(edges(&tm).contains(&("tool".to_string(), "A".to_string())));
}

#[test]
fn planning_a_removal_changes_nothing() {
    let mut tm = TransactionManager::new("/stage".to_string());
    install_chain(&mut tm);
    let before = (packages(&tm), files(&tm), edges(&tm));
    assert!(tm.plan_removal(&name("C")).is_err());
    let paths = tm.plan_removal(&name("A")).unwrap();
    assert_eq!(paths, vec!["/usr/lib/libA.so".to_string()]);
    assert_eq!((packages(&tm), files(&tm), edges(&tm)), before);
    assert_eq!(tm.remove_package(&name("A")).unwrap(), paths);
}
