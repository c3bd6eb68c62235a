use raven::config::{ConfigManager, RavenConfig};
use raven::error::RavenError;
use raven::recipe::{HashSum, PackageName, Recipe};
use raven::recipe_set::RecipeSet;
use raven::sandbox::{DirProbe, HostProbe, SandboxStep, ScriptSandbox, STAGES};
use raven::search::{SearchEngine, SearchHit};
use raven::sources::{SourceManager, SyncAction};
use raven::upgrade::select_upgrades;
use raven::version::{is_version, Version};

fn recipe(name: &str, version: &str) -> Recipe {
    Recipe {
        name: PackageName(name.to_string()),
        version: version.to_string(),
        description: format!("about {}", name),
        target_arch: None,
        dependencies: Vec::new(),
        source_url: String::new(),
        sha256_sum: HashSum(String::new()),
        build_commands: Vec::new(),
        install_commands: Vec::new(),
    }
}

#[test]
fn version_parses_into_its_parts() {
    let v = Version::parse("1.20.3-alpha.1+build.5").unwrap();
    assert_eq!((v.major, v.minor, v.patch), (1, 20, 3));
    assert_eq!(v.pre, "alpha.1");
    assert_eq!(v.build, "build.5");
    let v = Version::parse("0.1.0").unwrap();
    assert_eq!((v.major, v.minor, v.patch), (0, 1, 0));
    assert_eq!(v.pre, "");
    assert_eq!(v.build, "");
}

#[test]
fn version_parse_refuses_what_is_no_strict_version() {
    for text in ["1.0", "", "1.0.01", "1.0.unknown", "1.0.0-", "v1.0.0", " 1.0.0"] {
        match Version::parse(text) {
            Err(RavenError::VersionError(reason)) => assert!(!reason.is_empty()),
            other => panic!("{:?} gave {:?}", text, other),
        }
        assert!(!is_version(text));
    }
    assert!(is_version("1.0.0"));
    let e = Version::parse("1.0").unwrap_err();
    assert!(e.message().starts_with("Version Error: "));
}

#[test]
fn upgrades_are_the_strictly_newer_recipes() {
    let mut offered = RecipeSet::new();
    offered.insert(recipe("a", "1.2.0"));
    offered.insert(recipe("b", "2.0.0"));
    offered.insert(recipe("c", "0.9.0"));
    offered.insert(recipe("d", "1.0.0"));
    offered.insert(recipe("e", "1.0.0"));
    let installed = vec![
        (PackageName("d".to_string()), "1.0.0-rc.1".to_string()),
        (PackageName("a".to_string()), "1.0.0".to_string()),
        (PackageName("b".to_string()), "2.0.0".to_string()),
        (PackageName("c".to_string()), "1.0.0".to_string()),
        (PackageName("gone".to_string()), "not even a version".to_string()),
        (PackageName("e".to_string()), "0.10.0".to_string()),
    ];
    let chosen: Vec<String> =
        select_upgrades(&installed, &offered).unwrap().into_iter().map(|n| n.0).collect();
    assert_eq!(chosen, vec!["d", "a", "e"]);
}

#[test]
fn upgrade_fails_on_a_version_that_does_not_parse() {
    let mut offered = RecipeSet::new();
    offered.insert(recipe("a", "1.2.0"));
    offered.insert(recipe("b", "two"));
    let installed = vec![(PackageName("a".to_string()), "1.x".to_string())];
    assert!(matches!(select_upgrades(&installed, &offered), Err(RavenError::VersionError(_))));
    let installed = vec![
        (PackageName("a".to_string()), "1.0.0".to_string()),
        (PackageName("b".to_string()), "1.0.0".to_string()),
    ];
    assert!(matches!(select_upgrades(&installed, &offered), Err(RavenError::VersionError(_))));
}

#[test]
fn nothing_installed_nothing_to_upgrade() {
    let mut offered = RecipeSet::new();
    offered.insert(recipe("a", "1.2.0"));
    assert!(select_upgrades(&Vec::new(), &offered).unwrap().is_empty());
}

fn probe(proc_exists: bool, on_host: [bool; 6], in_sandbox: [bool; 6]) -> HostProbe {
    let mut dirs = [DirProbe { on_host: false, in_sandbox: false }; 6];
    for i in 0..6 {
        dirs[i] = DirProbe { on_host: on_host[i], in_sandbox: in_sandbox[i] };
    }
    HostProbe { proc_exists, dirs }
}

fn show(step: &SandboxStep) -> String {
    match step {
        SandboxStep::Unshare => "unshare".to_string(),
        SandboxStep::MakePrivate => "private".to_string(),
        SandboxStep::MountProc { target } => format!("proc {}", target),
        SandboxStep::BindMount { source, target, create_target } => {
            format!("bind {} {} {}", source, target, create_target)
        }
        SandboxStep::Chroot { root } => format!("chroot {}", root),
        SandboxStep::Chdir => "chdir".to_string(),
    }
}

#[test]
fn sandbox_steps_on_a_full_host() {
    let sandbox = ScriptSandbox::new("/tmp/raven_build/zlib-build");
    assert_eq!(sandbox.root, "/tmp/raven_build/zlib-build");
    let steps = sandbox.setup(&probe(true, [true; 6], [true; 6]));
    let shown: Vec<String> = steps.iter().map(show).collect();
    assert_eq!(
        shown,
        vec![
            "unshare",
            "private",
            "proc /tmp/raven_build/zlib-build/proc",
            "bind /bin /tmp/raven_build/zlib-build/bin false",
            "bind /usr /tmp/raven_build/zlib-build/usr false",
            "bind /lib /tmp/raven_build/zlib-build/lib false",
            "bind /lib64 /tmp/raven_build/zlib-build/lib64 false",
            "bind /dev /tmp/raven_build/zlib-build/dev false",
            "bind /etc /tmp/raven_build/zlib-build/etc false",
            "chroot /tmp/raven_build/zlib-build",
            "chdir",
        ]
    );
}

#[test]
fn sandbox_skips_what_the_host_lacks() {
    let sandbox = ScriptSandbox::new("/r");
    let steps = sandbox.setup(&probe(
        false,
        [true, true, false, false, true, false],
        [true, false, false, true, false, true],
    ));
    let shown: Vec<String> = steps.iter().map(show).collect();
    assert_eq!(
        shown,
        vec![
            "unshare",
            "private",
            "bind /bin /r/bin false",
            "bind /usr /r/usr true",
            "bind /dev /r/dev true",
            "chroot /r",
            "chdir",
        ]
    );
    let steps = sandbox.setup(&probe(false, [false; 6], [false; 6]));
    let shown: Vec<String> = steps.iter().map(show).collect();
    assert_eq!(shown, vec!["unshare", "private", "chroot /r", "chdir"]);
}

#[test]
fn sandbox_command() {
    assert_eq!(ScriptSandbox::command("make"), vec!["/bin/sh", "-c", "make"]);
}

#[test]
fn sandbox_run_is_good_only_for_exit_status_zero() {
    let sandbox = ScriptSandbox::new("/tmp/raven_build/zlib-build");
    let log = "/tmp/raven_build/zlib-build/build.log";
    assert!(sandbox.run(log, Some(0)).is_ok());
    for status in [Some(1), Some(2), Some(127), Some(-1), None] {
        match sandbox.run(log, status) {
            Err(RavenError::DependencyError(d)) => assert_eq!(
                d,
                "Build script failed (check /tmp/raven_build/zlib-build/build.log)"
            ),
            other => panic!("unexpected {:?}", other),
        }
    }
    match sandbox.run("/elsewhere/log.txt", Some(3)) {
        Err(e) => assert_eq!(
            e.message(),
            "Dependency resolution failed: Build script failed (check /elsewhere/log.txt)"
        ),
        other => panic!("unexpected {:?}", other),
    }
}

#[test]
fn sandbox_stages_one_by_one() {
    let sandbox = ScriptSandbox::new("/r");
    assert_eq!(STAGES, 11);
    let found = |on_host, in_sandbox| DirProbe { on_host, in_sandbox };
    let request = sandbox.to_probe(0);
    assert!(request.host.is_none() && request.sandbox.is_none());
    let request = sandbox.to_probe(2);
    assert!(request.host.is_none());
    assert_eq!(request.sandbox.unwrap(), "/r/proc");
    let hosts = ["/bin", "/usr", "/lib", "/lib64", "/dev", "/etc"];
    for (i, host) in hosts.iter().enumerate() {
        let request = sandbox.to_probe(3 + i);
        assert_eq!(request.host.unwrap(), *host);
        assert_eq!(request.sandbox.unwrap(), format!("/r{}", host));
    }
    for stage in [9, 10, 11, 50] {
        let request = sandbox.to_probe(stage);
        assert!(request.host.is_none() && request.sandbox.is_none());
    }
    assert_eq!(show(&sandbox.step(0, found(false, false)).unwrap()), "unshare");
    assert_eq!(show(&sandbox.step(1, found(true, true)).unwrap()), "private");
    assert_eq!(show(&sandbox.step(2, found(false, true)).unwrap()), "proc /r/proc");
    assert!(sandbox.step(2, found(true, false)).is_none());
    assert_eq!(show(&sandbox.step(6, found(true, false)).unwrap()), "bind /lib64 /r/lib64 true");
    assert_eq!(show(&sandbox.step(8, found(true, true)).unwrap()), "bind /etc /r/etc false");
    assert!(sandbox.step(5, found(false, true)).is_none());
    assert_eq!(show(&sandbox.step(9, found(false, false)).unwrap()), "chroot /r");
    assert_eq!(show(&sandbox.step(10, found(false, false)).unwrap()), "chdir");
    assert!(sandbox.step(11, found(true, true)).is_none());
}

#[test]
fn recipe_files_end_in_toml() {
    for path in ["zlib.toml", "/var/lib/raven/recipes/libs/zlib.toml", "a.b.toml", "x..toml"] {
        assert!(SourceManager::is_recipe_file(path), "{}", path);
        assert_eq!(std::path::Path::new(path).extension().and_then(|s| s.to_str()), Some("toml"));
    }
    for path in ["", ".toml", "dir/.toml", "zlib.tom", "zlib.toml.bak", "zlib.TOML", "toml", "README"] {
        assert!(!SourceManager::is_recipe_file(path), "{}", path);
        assert_ne!(std::path::Path::new(path).extension().and_then(|s| s.to_str()), Some("toml"));
    }
}

#[test]
fn sync_clones_once_and_pulls_after() {
    let sm = SourceManager::new("/var/lib/raven/recipes".to_string(), "https://r.git".to_string());
    match sm.sync(false) {
        SyncAction::Clone { url, into } => {
            assert_eq!(url, "https://r.git");
            assert_eq!(into, "/var/lib/raven/recipes");
        }
        other => panic!("unexpected {:?}", other),
    }
    match sm.sync(true) {
        SyncAction::Pull { dir } => assert_eq!(dir, "/var/lib/raven/recipes"),
        other => panic!("unexpected {:?}", other),
    }
    assert!(SourceManager::pull_warning(true).is_none());
    assert_eq!(
        SourceManager::pull_warning(false).unwrap(),
        "Warning: Failed to update recipes (offline mode?)"
    );
}

#[test]
fn load_indexes_recipes_by_name() {
    let sm = SourceManager::new("/r".to_string(), "u".to_string());
    let set = sm
        .load(&vec![recipe("a", "1.0.0"), recipe("b", "2.0.0"), recipe("a", "1.5.0")])
        .unwrap();
    assert_eq!(set.len(), 2);
    assert_eq!(set.get("a").unwrap().version, "1.5.0");
    assert_eq!(set.get("b").unwrap().description, "about b");
    assert_eq!(sm.load(&Vec::new()).unwrap().len(), 0);
}

#[test]
fn load_fails_at_the_first_invalid_version() {
    let sm = SourceManager::new("/r".to_string(), "u".to_string());
    match sm.load(&vec![recipe("a", "1.0.0"), recipe("b", "2.0"), recipe("c", "x")]) {
        Err(RavenError::VersionError(d)) => {
            assert!(d.starts_with("Invalid version in b: "), "{}", d);
            assert!(d.len() > "Invalid version in b: ".len());
        }
        other => panic!("unexpected {:?}", other.map(|s| s.len())),
    }
    match sm.load(&vec![recipe("n", "1.0")]) {
        Err(err) => {
            assert_eq!(err.kind(), raven::error::ErrorKind::Version);
            assert!(err.message().starts_with("Version Error: Invalid version in n: "));
        }
        Ok(set) => panic!("a set of {} recipes", set.len()),
    }
}

#[test]
fn accept_leaves_the_set_alone_on_failure() {
    let mut set = RecipeSet::new();
    assert!(SourceManager::accept(&mut set, recipe("a", "1.0.0")).is_ok());
    assert!(matches!(
        SourceManager::accept(&mut set, recipe("a", "bad")),
        Err(RavenError::VersionError(_))
    ));
    assert_eq!(set.len(), 1);
    assert_eq!(set.get("a").unwrap().version, "1.0.0");
}

#[test]
fn config_defaults_and_loads() {
    assert_eq!(RavenConfig::default().repo_url, "https://github.com/lear94/raven-recipes.git");
    let cm = ConfigManager::new("/var/lib/raven");
    assert_eq!(cm.path, "/var/lib/raven/config.toml");
    let fresh = cm.load(None);
    assert!(fresh.must_save);
    assert_eq!(fresh.config.repo_url, "https://github.com/lear94/raven-recipes.git");
    let stored = cm.load(Some(RavenConfig { repo_url: "https://mine.git".to_string() }));
    assert!(!stored.must_save);
    assert_eq!(stored.config.repo_url, "https://mine.git");
    let changed = ConfigManager::set_repo(&stored.config, "https://other.git");
    assert_eq!(changed.repo_url, "https://other.git");
    assert_eq!(stored.config.clone().repo_url, "https://mine.git");
}

fn pairs(hits: &[SearchHit]) -> Vec<(usize, i64)> {
    hits.iter().map(|h| (h.index, h.score)).collect()
}

#[test]
fn rank_orders_by_score_then_place() {
    let scores = vec![Some(10), None, Some(30), Some(10), None, Some(-5), Some(30)];
    let hits = SearchEngine::rank(&scores);
    assert_eq!(pairs(&hits), vec![(2, 30), (6, 30), (0, 10), (3, 10), (5, -5)]);
    assert!(SearchEngine::rank(&Vec::new()).is_empty());
    assert!(SearchEngine::rank(&vec![None, None]).is_empty());
}

#[test]
fn search_finds_matching_names_best_first() {
    let recipes = vec![recipe("openssl", "3.0.0"), recipe("zlib", "1.3.1"), recipe("xz-libs", "5.0.0")];
    let hits = SearchEngine::search("zlib", &recipes);
    assert!(!hits.is_empty());
    assert_eq!(hits[0].index, 1);
    for w in hits.windows(2) {
        assert!(w[0].score > w[1].score || (w[0].score == w[1].score && w[0].index < w[1].index));
    }
    assert!(hits.iter().all(|h| h.index != 0));
    let none = SearchEngine::search("qqq", &recipes);
    assert!(none.is_empty());
    let all = SearchEngine::search("", &recipes);
    assert_eq!(pairs(&all), vec![(0, 0), (1, 0), (2, 0)]);
}
