use raven::error::RavenError;
use raven::recipe::{split_dependency_text, DependencyReq, HashSum, PackageName, Recipe};
use raven::recipe_set::RecipeSet;

fn recipe(name: &str, version: &str, deps: &[&str]) -> Recipe {
    Recipe {
        name: PackageName(name.to_string()),
        version: version.to_string(),
        description: String::new(),
        target_arch: None,
        dependencies: deps.iter().map(|d| d.to_string()).collect(),
        source_url: String::new(),
        sha256_sum: HashSum(String::new()),
        build_commands: Vec::new(),
        install_commands: Vec::new(),
    }
}

#[test]
fn split_dependency_with_requirement() {
    let d = split_dependency_text("libc >=2.30");
    assert_eq!(d.name.0, "libc");
    assert_eq!(d.req, ">=2.30");
}

#[test]
fn split_dependency_without_requirement_means_any() {
    let d = split_dependency_text("zlib");
    assert_eq!(d.name.0, "zlib");
    assert_eq!(d.req, "*");
}

#[test]
fn split_dependency_cuts_at_the_first_white_space_only() {
    let d = split_dependency_text("openssl >=1.1, <4");
    assert_eq!(d.name.0, "openssl");
    assert_eq!(d.req, ">=1.1, <4");
    let d = split_dependency_text("libc\t^2");
    assert_eq!(d.name.0, "libc");
    assert_eq!(d.req, "^2");
}

#[test]
fn split_dependency_of_empty_text() {
    let d = split_dependency_text("");
    assert_eq!(d.name.0, "");
    assert_eq!(d.req, "*");
}

#[test]
fn parse_dependencies_keeps_order() {
    let r = recipe("a", "1.0.0", &["b >=1.0", "c", "d ~0.3"]);
    let deps = r.parse_dependencies().unwrap();
    let got: Vec<(String, String)> = deps.iter().map(|d| (d.name.0.clone(), d.req.clone())).collect();
    assert_eq!(
        got,
        vec![
            ("b".to_string(), ">=1.0".to_string()),
            ("c".to_string(), "*".to_string()),
            ("d".to_string(), "~0.3".to_string()),
        ]
    );
}

#[test]
fn parse_dependencies_names_the_first_bad_requirement() {
    let r = recipe("a", "1.0.0", &["b >=1.0", "c >a.b", "d @@"]);
    match r.parse_dependencies() {
        Err(RavenError::DependencyError(d)) => {
            assert!(d.starts_with("Invalid requirement for c: "), "{}", d)
        }
        other => panic!("unexpected: {:?}", other.map(|v| v.len())),
    }
}

#[test]
fn requirement_matches_versions() {
    let d = DependencyReq { name: PackageName("b".to_string()), req: ">=1.0".to_string() };
    assert!(d.matches("1.2.0"));
    assert!(d.matches("1.0.0"));
    assert!(!d.matches("0.9.9"));
    assert!(!d.matches("not a version"));
    let any = DependencyReq { name: PackageName("b".to_string()), req: "*".to_string() };
    assert!(any.matches("0.1.0"));
    let caret = DependencyReq { name: PackageName("b".to_string()), req: "^2.0".to_string() };
    assert!(caret.matches("2.9.1"));
    assert!(!caret.matches("3.0.0"));
    let broken = DependencyReq { name: PackageName("b".to_string()), req: "@1".to_string() };
    assert!(!broken.matches("1.0.0"));
}

#[test]
fn package_names_compare_by_case() {
    assert!(PackageName("zlib".to_string()) == PackageName("zlib".to_string()));
    assert!(PackageName("zlib".to_string()) != PackageName("Zlib".to_string()));
    assert!(HashSum("ab".to_string()) == HashSum("ab".to_string()));
    assert!(HashSum("ab".to_string()) != HashSum("AB".to_string()));
}

#[test]
fn clone_keeps_every_field() {
    let mut r = recipe("a", "1.0.0", &["b", "c >=1"]);
    r.target_arch = Some("aarch64".to_string());
    r.build_commands = vec!["./configure".to_string(), "make".to_string()];
    let c = r.clone();
    assert_eq!(c.name, r.name);
    assert_eq!(c.version, r.version);
    assert_eq!(c.target_arch, r.target_arch);
    assert_eq!(c.dependencies, r.dependencies);
    assert_eq!(c.build_commands, r.build_commands);
    assert_eq!(c.install_commands, r.install_commands);
}

#[test]
fn recipe_set_keeps_one_recipe_per_name() {
    let mut set = RecipeSet::new();
    assert_eq!(set.len(), 0);
    set.insert(recipe("a", "1.0.0", &[]));
    set.insert(recipe("b", "2.0.0", &[]));
    set.insert(recipe("a", "1.1.0", &[]));
    assert_eq!(set.len(), 2);
    assert_eq!(set.get("a").unwrap().version, "1.1.0");
    assert_eq!(set.get("b").unwrap().version, "2.0.0");
    assert!(set.get("A").is_none());
    assert!(set.contains("b"));
    assert!(!set.contains("c"));
    let listed: Vec<String> = set.values().iter().map(|r| r.name.0.clone()).collect();
    assert_eq!(listed, vec!["a", "b"]);
}
