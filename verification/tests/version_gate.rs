use astd::version::EnvironmentError;
use astd::version::ToolKind;
use astd::version::Version;
use astd::version::generator_accepted;
use astd::version::minimum_version;
use astd::version::parse_version;
use astd::version::validate;
use astd::version::validate_generator;
use astd::version::version_at_least;

#[test]
fn test_parse_git_version_line() {
    let v = parse_version("git version 2.42.0");
    assert_eq!(v, Version { major: 2, minor: 42, patch: 0 });
}

#[test]
fn test_parse_cmake_version_output() {
    let v = parse_version("cmake version 3.31.2\n\nCMake suite maintained by Kitware\n");
    assert_eq!(v, Version { major: 3, minor: 31, patch: 2 });
}

#[test]
fn test_unparsable_text_reads_as_zero() {
    let v = parse_version("no dotted triple here");
    assert_eq!(v, Version { major: 0, minor: 0, patch: 0 });
}

#[test]
fn test_incomplete_triple_reads_as_zero() {
    let v = parse_version("version 1.2");
    assert_eq!(v, Version { major: 0, minor: 0, patch: 0 });
}

#[test]
fn test_leftmost_complete_triple_wins() {
    let v = parse_version("1.2.x 3.4.5");
    assert_eq!(v, Version { major: 3, minor: 4, patch: 5 });
}

#[test]
fn test_trailing_components_are_ignored() {
    let v = parse_version("55.66.77.88");
    assert_eq!(v, Version { major: 55, minor: 66, patch: 77 });
}

#[test]
fn test_oversized_component_saturates() {
    let v = parse_version("99999999999999999999999999.1.2");
    assert_eq!(v, Version { major: u64::MAX, minor: 1, patch: 2 });
}

#[test]
fn test_comparison_is_lexicographic() {
    let policy = Version { major: 2, minor: 40, patch: 0 };
    assert!(version_at_least(&Version { major: 2, minor: 40, patch: 0 }, &policy));
    assert!(version_at_least(&Version { major: 2, minor: 41, patch: 0 }, &policy));
    assert!(version_at_least(&Version { major: 3, minor: 0, patch: 0 }, &policy));
    assert!(!version_at_least(&Version { major: 2, minor: 39, patch: 9 }, &policy));
    assert!(!version_at_least(&Version { major: 1, minor: 99, patch: 9 }, &policy));
    assert!(version_at_least(&Version { major: 2, minor: 40, patch: 1 }, &policy));
}

#[test]
fn test_minimum_version_policy() {
    assert_eq!(minimum_version(&ToolKind::Git), Version { major: 2, minor: 40, patch: 0 });
    assert_eq!(minimum_version(&ToolKind::CMake), Version { major: 3, minor: 31, patch: 0 });
}

#[test]
fn test_gate_accepts_at_and_above_policy() {
    assert!(validate("git version 2.40.0", &ToolKind::Git).is_ok());
    assert!(validate("git version 2.43.7", &ToolKind::Git).is_ok());
    assert!(validate("cmake version 3.31.0", &ToolKind::CMake).is_ok());
}

#[test]
fn test_gate_rejects_below_policy_and_garbage() {
    assert_eq!(
        validate("git version 2.39.5", &ToolKind::Git),
        Err(EnvironmentError::ToolBelowMinimum)
    );
    assert_eq!(
        validate("cmake version 3.30.9", &ToolKind::CMake),
        Err(EnvironmentError::ToolBelowMinimum)
    );
    assert_eq!(validate("not a tool", &ToolKind::Git), Err(EnvironmentError::ToolBelowMinimum));
    assert_eq!(validate("", &ToolKind::CMake), Err(EnvironmentError::ToolBelowMinimum));
}

#[test]
fn test_generator_probe() {
    let accepted = vec![
        String::from("Visual Studio 17 2022"),
        String::from("Visual Studio 16 2019"),
    ];
    let probe = "Generators\n* Visual Studio 17 2022 [arch]\n  Ninja\n";
    assert!(generator_accepted(probe, &accepted));
    assert!(validate_generator(probe, &accepted).is_ok());
    let other = "Generators\n  Ninja\n  Unix Makefiles\n";
    assert!(!generator_accepted(other, &accepted));
    assert_eq!(
        validate_generator(other, &accepted),
        Err(EnvironmentError::UnsupportedGenerator)
    );
}
