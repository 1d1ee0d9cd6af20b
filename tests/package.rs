use apt_cache::apt::{parse_line, parse_output, AptError, LineParser};
use apt_cache::Package;

const BASH_SEARCH: &str = "bash - GNU Bourne Again SHell\n\
bash-builtins - Bash loadable builtins - headers & examples\n\
bash-completion - programmable completion for the bash shell\n";

const BASH_DEPENDS: &str = "bash\n  PreDepends: libc6\n  PreDepends: libtinfo6\n  Depends: base-files\n  Depends: debianutils\n  Recommends: bash-completion\n";

const BASE_FILES_SEARCH: &str = "base-files - Debian base system miscellaneous files\n";

const DEBIANUTILS_SEARCH: &str = "debianutils - Miscellaneous utilities specific to Debian\n";

fn create_pkg() -> Package {
    Package::new("bash", BASH_SEARCH).unwrap()
}

fn dependency_searches() -> Vec<String> {
    vec![BASE_FILES_SEARCH.to_string(), DEBIANUTILS_SEARCH.to_string()]
}

#[test]
fn lib_test_depends() {
    assert!(create_pkg()
        .depends(BASH_DEPENDS, &dependency_searches())
        .unwrap()
        .unwrap()
        .contains(&Package::new("base-files", BASE_FILES_SEARCH).unwrap()))
}

#[test]
fn pkg_test_depends() {
    let found = create_pkg()
        .depends("  Depends: base-files", &vec![BASE_FILES_SEARCH.to_string()])
        .unwrap()
        .unwrap();
    assert!(found.contains(&Package::new("base-files", BASE_FILES_SEARCH).unwrap()))
}

#[test]
fn new_keeps_the_exact_name() {
    let p = Package::new("bash", BASH_SEARCH).unwrap();
    assert_eq!(p.name, "bash");
}

#[test]
fn new_reports_a_missing_package() {
    match Package::new("does-not-exist-xyz", "") {
        Err(AptError::NotFound(m)) => {
            assert_eq!(m, "The package \"does-not-exist-xyz\" was not found")
        }
        Ok(_) => panic!("found a missing package"),
    }
}

#[test]
fn new_wants_a_whole_name_not_a_substring() {
    assert!(matches!(
        Package::new("bas", BASH_SEARCH),
        Err(AptError::NotFound(_))
    ));
    assert!(matches!(
        Package::new("Bash", BASH_SEARCH),
        Err(AptError::NotFound(_))
    ));
    assert!(Package::new("bash-completion", BASH_SEARCH).is_ok());
}

#[test]
fn depends_lists_names_in_order() {
    let v = create_pkg()
        .depends(BASH_DEPENDS, &dependency_searches())
        .unwrap()
        .unwrap();
    let names: Vec<&str> = v.iter().map(|p| p.name.as_str()).collect();
    assert_eq!(names, vec!["base-files", "debianutils"]);
}

#[test]
fn depends_without_depends_lines_is_none() {
    let r = create_pkg().depends("bash\n  Recommends: x\n", &vec![]).unwrap();
    assert!(r.is_none());
    assert!(create_pkg().depends("", &vec![]).unwrap().is_none());
}

#[test]
fn depends_fails_on_an_unlisted_dependency() {
    let searches = vec![BASE_FILES_SEARCH.to_string(), "".to_string()];
    match create_pkg().depends(BASH_DEPENDS, &searches) {
        Err(AptError::NotFound(m)) => {
            assert_eq!(m, "The package \"debianutils\" was not found")
        }
        Ok(_) => panic!("an unlisted dependency was accepted"),
    }
    let short = vec![BASE_FILES_SEARCH.to_string()];
    assert!(create_pkg().depends(BASH_DEPENDS, &short).is_err());
}

#[test]
fn recommended_lists_recommends_lines() {
    let v = create_pkg()
        .recommended(BASH_DEPENDS, &vec![BASH_SEARCH.to_string()])
        .unwrap()
        .unwrap();
    assert_eq!(v.len(), 1);
    assert_eq!(v[0].name, "bash-completion");
}

#[test]
fn parse_output_keeps_line_order() {
    let v = parse_output(BASH_SEARCH, LineParser::Search).unwrap();
    assert_eq!(v, vec!["bash", "bash-builtins", "bash-completion"]);
    let d = parse_output("  Depends: b\n  Depends: a\n  Depends: c", LineParser::Depends).unwrap();
    assert_eq!(d, vec!["b", "a", "c"]);
}

#[test]
fn parse_output_handles_crlf_line_ends() {
    let v = parse_output("  Depends: a\r\n  Depends: b\r\n", LineParser::Depends).unwrap();
    assert_eq!(v, vec!["a", "b"]);
    let w = parse_output("x\r\ny z\n\n", LineParser::Search).unwrap();
    assert_eq!(w, vec!["x", "y"]);
}

#[test]
fn parse_output_is_none_when_nothing_parses() {
    assert!(parse_output("", LineParser::Search).is_none());
    assert!(parse_output("\n \n\t\n", LineParser::Search).is_none());
    assert!(parse_output(BASH_SEARCH, LineParser::Depends).is_none());
    assert!(parse_output("bash\n  PreDepends: libc6\n", LineParser::Recommends).is_none());
}

#[test]
fn parse_line_picks_the_parser() {
    assert_eq!(parse_line(LineParser::Search, " a b").unwrap(), "a");
    assert_eq!(parse_line(LineParser::Depends, " Depends: a").unwrap(), "a");
    assert_eq!(parse_line(LineParser::Recommends, " Recommends: a").unwrap(), "a");
    assert!(parse_line(LineParser::Recommends, " Depends: a").is_none());
}
