use pkgnav::packages::{OptionalDependency, PackageDesc, ParseError, Reason};

#[test]
fn parse_optional_dependency_without_reason() {
    let a = OptionalDependency::parse("name");
    assert_eq!(a.name, "name");
    assert_eq!(a.description, None);
}

#[test]
fn parse_optional_dependency_with_reason() {
    let a = OptionalDependency::parse("name: reason");
    assert_eq!(a.name, "name");
    assert_eq!(a.description, Some("reason".to_string()));
}

#[test]
fn parse_optional_dependency_two_separators() {
    let a = OptionalDependency::parse("name: one: two");
    assert_eq!(a.name, "name");
    assert_eq!(a.description, Some("one".to_string()));
}

#[test]
fn parse_full_record() {
    let text = "%NAME%\npkg\n\n%VERSION%\n1.2-3\n\n%DESC%\na package\n\n%URL%\nhttps://example.invalid\n\n%REASON%\n1\n\n%SIZE%\n4096\n\n%DEPENDS%\nalpha\nbeta\n\n%OPTDEPENDS%\ngamma: for extras\ndelta\n";
    let d = PackageDesc::parse(text).unwrap();
    assert_eq!(d.name, "pkg");
    assert_eq!(d.version, "1.2-3");
    assert_eq!(d.description, "a package");
    assert_eq!(d.url, "https://example.invalid");
    assert!(matches!(d.reason, Reason::Dependency));
    assert_eq!(d.size, Some(4096));
    assert_eq!(d.dependencies, vec!["alpha".to_string(), "beta".to_string()]);
    assert_eq!(d.optional_dependencies.len(), 2);
    assert_eq!(d.optional_dependencies[0].name, "gamma");
    assert_eq!(
        d.optional_dependencies[0].description,
        Some("for extras".to_string())
    );
    assert_eq!(d.optional_dependencies[1].name, "delta");
    assert_eq!(d.optional_dependencies[1].description, None);
}

#[test]
fn parse_defaults_to_explicit_reason_and_no_size() {
    let text = "%NAME%\npkg\n\n%VERSION%\n1\n\n%DESC%\nd\n\n%URL%\nu\n";
    let d = PackageDesc::parse(text).unwrap();
    assert!(matches!(d.reason, Reason::Explicit));
    assert_eq!(d.size, None);
    assert!(d.dependencies.is_empty());
    assert!(d.optional_dependencies.is_empty());
}

#[test]
fn parse_unknown_section_is_ignored() {
    let text = "%NAME%\npkg\n\n%WHATEVER%\nstuff\n\n%VERSION%\n1\n\n%DESC%\nd\n\n%URL%\nu\n";
    let d = PackageDesc::parse(text).unwrap();
    assert_eq!(d.name, "pkg");
}

#[test]
fn parse_missing_name_fails() {
    let text = "%VERSION%\n1\n\n%DESC%\nd\n\n%URL%\nu\n";
    assert_eq!(PackageDesc::parse(text).unwrap_err(), ParseError::MissingName);
}

#[test]
fn parse_missing_version_fails() {
    let text = "%NAME%\npkg\n\n%DESC%\nd\n\n%URL%\nu\n";
    assert_eq!(
        PackageDesc::parse(text).unwrap_err(),
        ParseError::MissingVersion
    );
}

#[test]
fn parse_missing_description_fails() {
    let text = "%NAME%\npkg\n\n%VERSION%\n1\n\n%URL%\nu\n";
    assert_eq!(
        PackageDesc::parse(text).unwrap_err(),
        ParseError::MissingDescription
    );
}

#[test]
fn parse_missing_url_fails() {
    let text = "%NAME%\npkg\n\n%VERSION%\n1\n\n%DESC%\nd\n";
    assert_eq!(PackageDesc::parse(text).unwrap_err(), ParseError::MissingUrl);
}

#[test]
fn parse_unexpected_reason_fails() {
    let text = "%NAME%\npkg\n\n%REASON%\n2\n";
    assert_eq!(
        PackageDesc::parse(text).unwrap_err(),
        ParseError::UnexpectedReason
    );
}

#[test]
fn parse_invalid_size_fails() {
    let text = "%NAME%\npkg\n\n%SIZE%\nbig\n";
    assert_eq!(PackageDesc::parse(text).unwrap_err(), ParseError::InvalidSize);
}

#[test]
fn parse_size_overflow_fails() {
    let text = "%NAME%\npkg\n\n%SIZE%\n18446744073709551616\n";
    assert_eq!(PackageDesc::parse(text).unwrap_err(), ParseError::InvalidSize);
}

#[test]
fn parse_size_extremes() {
    let text = "%NAME%\npkg\n\n%VERSION%\n1\n\n%DESC%\nd\n\n%URL%\nu\n\n%SIZE%\n18446744073709551615\n";
    let d = PackageDesc::parse(text).unwrap();
    assert_eq!(d.size, Some(u64::MAX));
    let text2 = "%NAME%\npkg\n\n%VERSION%\n1\n\n%DESC%\nd\n\n%URL%\nu\n\n%SIZE%\n+42\n";
    let d2 = PackageDesc::parse(text2).unwrap();
    assert_eq!(d2.size, Some(42));
}

#[test]
fn parse_section_without_content_fails() {
    let text = "%NAME%\n";
    assert_eq!(
        PackageDesc::parse(text).unwrap_err(),
        ParseError::SectionWithoutContent
    );
}

#[test]
fn parse_section_without_name_fails() {
    let text = "\n\n%NAME%\npkg\n";
    assert_eq!(
        PackageDesc::parse(text).unwrap_err(),
        ParseError::SectionWithoutName
    );
}

#[test]
fn parse_repeated_depends_sections_accumulate() {
    let text = "%NAME%\npkg\n\n%VERSION%\n1\n\n%DESC%\nd\n\n%URL%\nu\n\n%DEPENDS%\na\n\n%DEPENDS%\nb\nc\n";
    let d = PackageDesc::parse(text).unwrap();
    assert_eq!(
        d.dependencies,
        vec!["a".to_string(), "b".to_string(), "c".to_string()]
    );
}
