use apt_cache::apt::parser::{depends, is_whitespace, recommended, search};

#[test]
fn test_search() {
    assert_eq!(
        search("package_name long description").unwrap(),
        "package_name"
    )
}

#[test]
fn parser_test_depends() {
    assert_eq!(depends("  Depends: debianutils").unwrap(), "debianutils");
    assert!(depends("bash").is_none())
}

#[test]
fn search_skips_leading_whitespace() {
    assert_eq!(search(" \t bash - GNU Bourne Again SHell").unwrap(), "bash");
    assert_eq!(search("bash").unwrap(), "bash");
    assert_eq!(search("\u{3000}x\u{a0}y").unwrap(), "x");
}

#[test]
fn search_rejects_blank_lines() {
    assert!(search("").is_none());
    assert!(search("   \t\r").is_none());
    assert!(search("\u{2003}\u{85}").is_none());
}

#[test]
fn depends_trims_both_ends() {
    assert_eq!(depends("\tDepends: libc6  \r").unwrap(), "libc6");
    assert_eq!(depends("Depends: <awk>").unwrap(), "<awk>");
    assert!(depends("  Depends: ").is_none());
    assert_eq!(depends("Depends:  x").unwrap(), " x");
}

#[test]
fn depends_needs_the_exact_label() {
    assert!(depends("  PreDepends: libc6").is_none());
    assert!(depends("  Depends:libc6").is_none());
    assert!(depends("  depends: libc6").is_none());
    assert!(depends("  Recommends: bash-completion").is_none());
    assert!(depends("").is_none());
}

#[test]
fn recommended_reads_recommends_lines() {
    assert_eq!(
        recommended("  Recommends: bash-completion").unwrap(),
        "bash-completion"
    );
    assert!(recommended("  Depends: base-files").is_none());
    assert!(recommended("Recommends:x").is_none());
}

#[test]
fn whitespace_table() {
    assert!(is_whitespace(' '));
    assert!(is_whitespace('\n'));
    assert!(is_whitespace('\u{202f}'));
    assert!(!is_whitespace('a'));
    assert!(!is_whitespace('\u{200b}'));
}
