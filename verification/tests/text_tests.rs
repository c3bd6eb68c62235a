use raven::error::{prefixed, ErrorKind, RavenError};
use raven::layout::Layout;
use raven::text::{char_is_space, find_space, find_word, join_strings, leading_token, path_join,
    same_text};

#[test]
fn white_space_is_the_unicode_property() {
    for c in [' ', '\t', '\n', '\u{b}', '\u{c}', '\r', '\u{85}', '\u{a0}', '\u{1680}', '\u{2000}',
        '\u{200a}', '\u{2028}', '\u{2029}', '\u{202f}', '\u{205f}', '\u{3000}']
    {
        assert!(char_is_space(c), "{:?}", c);
        assert!(c.is_whitespace());
    }
    for c in ['a', '0', '-', '\u{8}', '\u{e}', '\u{200b}', '\u{feff}', '\u{180e}'] {
        assert!(!char_is_space(c), "{:?}", c);
        assert!(!c.is_whitespace());
    }
}

#[test]
fn white_space_agrees_with_std_on_every_char() {
    let mut n = 0u32;
    while n <= 0x10ffff {
        if let Some(c) = char::from_u32(n) {
            assert_eq!(char_is_space(c), c.is_whitespace(), "{:x}", n);
        }
        n += 1;
    }
}

#[test]
fn find_space_and_word() {
    assert_eq!(find_space("libc >=2", 0), 4);
    assert_eq!(find_space("libc >=2", 5), 8);
    assert_eq!(find_space("", 0), 0);
    assert_eq!(find_space("é x", 0), 1);
    assert_eq!(find_word("   x", 0), 3);
    assert_eq!(find_word("   ", 0), 3);
    assert_eq!(find_word("x", 0), 0);
}

#[test]
fn leading_token_skips_leading_white_space() {
    assert_eq!(leading_token("libc >=2.30"), "libc");
    assert_eq!(leading_token("  libc\t>=2.30"), "libc");
    assert_eq!(leading_token("libc"), "libc");
    assert_eq!(leading_token(""), "");
    assert_eq!(leading_token(" \t "), "");
    assert_eq!(leading_token("größe 1"), "größe");
}

#[test]
fn same_text_compares_characters() {
    assert!(same_text("abc", "abc"));
    assert!(!same_text("abc", "abd"));
    assert!(!same_text("abc", "ab"));
    assert!(same_text("", ""));
}

#[test]
fn path_join_follows_the_separator_rules() {
    assert_eq!(path_join("/tmp/raven_build", "zlib-build"), "/tmp/raven_build/zlib-build");
    assert_eq!(path_join("/tmp/raven_build/", "zlib-build"), "/tmp/raven_build/zlib-build");
    assert_eq!(path_join("", "zlib-build"), "zlib-build");
    assert_eq!(path_join("/a", "/etc"), "/etc");
    assert_eq!(path_join("/", "usr/bin/x"), "/usr/bin/x");
    assert_eq!(path_join("/a", ""), "/a/");
    for (base, rel) in [("/tmp/x", "y/z"), ("/tmp/x/", "y"), ("", "y"), ("/a", "/b"), ("/", "u")] {
        let std_path = std::path::Path::new(base).join(rel);
        assert_eq!(path_join(base, rel), std_path.to_str().unwrap());
    }
}

#[test]
fn join_strings_puts_the_separator_between() {
    let v = |xs: &[&str]| xs.iter().map(|x| x.to_string()).collect::<Vec<String>>();
    assert_eq!(join_strings(&v(&[]), ", "), "");
    assert_eq!(join_strings(&v(&["a"]), ", "), "a");
    assert_eq!(join_strings(&v(&["a", "b", "c"]), ", "), "a, b, c");
    assert_eq!(join_strings(&v(&["a", "", "c"]), "\n"), "a\n\nc");
}

#[test]
fn prefixed_appends() {
    assert_eq!(prefixed("ab", "cd"), "abcd");
    assert_eq!(prefixed("", "cd"), "cd");
}

#[test]
fn every_error_has_its_line() {
    let d = || "detail".to_string();
    let cases = vec![
        (
            RavenError::HashMismatch,
            ErrorKind::HashMismatch,
            "Checksum verification failed (Files may be corrupted or tampered)",
        ),
        (
            RavenError::DependencyError(d()),
            ErrorKind::Dependency,
            "Dependency resolution failed: detail",
        ),
        (RavenError::IoError(d()), ErrorKind::Io, "File system error: detail"),
        (RavenError::DbError(d()), ErrorKind::Db, "Database failure: detail"),
        (RavenError::NetworkError(d()), ErrorKind::Network, "Network connection failed"),
        (RavenError::GitError(d()), ErrorKind::Git, "Git repository error: detail"),
        (RavenError::ParseError(d()), ErrorKind::Parse, "Recipe parsing error: detail"),
        (RavenError::VersionError(d()), ErrorKind::Version, "Version Error: detail"),
    ];
    for (e, kind, line) in cases {
        assert_eq!(e.kind(), kind);
        assert_eq!(e.message(), line);
    }
}

#[test]
fn default_layout() {
    let l = Layout::default();
    assert_eq!(l.root, "/var/lib/raven");
    assert_eq!(l.work, "/tmp/raven_build");
    assert_eq!(l.staging, "/tmp/raven_stage");
    assert_eq!(l.database_url(), "sqlite:///var/lib/raven/metadata.db?mode=rwc");
    assert_eq!(l.recipes_dir(), "/var/lib/raven/recipes");
}
