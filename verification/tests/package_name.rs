use jsproject::package_name::is_bytes_valid_pkg_name;
use jsproject::package_name::is_valid_package_name_byte;
use jsproject::package_name::PackageName;

#[test]
fn keystone_monorepo_name() {
    PackageName::new("@keystone-next/mono-repo".to_owned()).unwrap();
}

#[test]
fn accepts_plain_and_scoped_names() {
    for name in ["@keystone-next/mono-repo", "lodash", "@scope/name-2", "a", "0", "a.b_c-d"] {
        let parsed = PackageName::new(name.to_owned()).unwrap();
        assert_eq!(parsed.as_str(), name);
        assert_eq!(parsed.to_string(), name);
    }
}

#[test]
fn rejects_invalid_names() {
    for name in ["", ".foo", "_foo", "Foo/Bar!", "foo bar", "@scope", "@scope/a/b", "@Scope/a", "caf\u{e9}"] {
        let error = PackageName::new(name.to_owned()).unwrap_err();
        assert_eq!(error.input(), name);
    }
}

#[test]
fn length_limit_is_214_bytes() {
    let longest = "a".repeat(214);
    assert_eq!(PackageName::new(longest.clone()).unwrap().as_str(), longest);
    let too_long = "a".repeat(215);
    assert_eq!(PackageName::new(too_long.clone()).unwrap_err().input(), too_long);
}

#[test]
fn scoped_halves_obey_the_byte_rule_only() {
    assert!(PackageName::new("@/name".to_owned()).is_ok());
    assert!(PackageName::new("@scope/".to_owned()).is_ok());
    assert!(PackageName::new("@.scope/_name".to_owned()).is_ok());
    assert!(PackageName::new("@sc@pe/name".to_owned()).is_err());
    assert!(PackageName::new("@scope/na@me".to_owned()).is_err());
    assert!(PackageName::new("a@b".to_owned()).is_err());
}

#[test]
fn error_message_quotes_the_input() {
    let error = PackageName::new("Foo/Bar!".to_owned()).unwrap_err();
    assert_eq!(error.message(), "\"Foo/Bar!\" is not a valid npm package name");
}

#[test]
fn name_bytes() {
    for byte in b"abcxyz0189_-." {
        assert!(is_valid_package_name_byte(*byte));
    }
    for byte in b"AZ@/!~ `{" {
        assert!(!is_valid_package_name_byte(*byte));
    }
    assert!(is_bytes_valid_pkg_name(b""));
    assert!(is_bytes_valid_pkg_name(b"left-pad"));
    assert!(!is_bytes_valid_pkg_name(b"left pad"));
}

#[test]
fn names_compare_as_strings() {
    let a = PackageName::new("a".to_owned()).unwrap();
    let ab = PackageName::new("ab".to_owned()).unwrap();
    let b = PackageName::new("b".to_owned()).unwrap();
    let scoped = PackageName::new("@z/z".to_owned()).unwrap();
    assert!(a < ab);
    assert!(ab < b);
    assert!(scoped < a);
    assert!(a == a.clone());
    assert!(a != b);
    assert_eq!(a.cmp(&b), std::cmp::Ordering::Less);
    assert_eq!(b.partial_cmp(&a), Some(std::cmp::Ordering::Greater));
    let mut names = vec![b.clone(), scoped.clone(), ab.clone(), a.clone()];
    names.sort();
    assert_eq!(names, vec![scoped, a, ab, b]);
}

#[test]
fn conversions() {
    let parsed: PackageName = "react-dom".parse().unwrap();
    assert_eq!(parsed.as_str(), "react-dom");
    let tried = PackageName::try_from("react".to_owned()).unwrap();
    assert_eq!(String::from(tried), "react");
    assert!("React".parse::<PackageName>().is_err());
    assert!(PackageName::try_from("_react".to_owned()).is_err());
}
