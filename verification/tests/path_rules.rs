use astd::paths::destination_rel_path;
use astd::paths::has_header_extension;
use astd::paths::join_segments;
use astd::paths::normalize_separators;
use astd::paths::plan_header_copy;
use astd::paths::plan_library_copy;
use astd::paths::split_path_segments;
use astd::paths::strip_segments;

#[test]
fn test_split_on_forward_slashes() {
    let segs = split_path_segments("a/b/c.h");
    assert_eq!(segs, vec![String::from("a"), String::from("b"), String::from("c.h")]);
}

#[test]
fn test_split_on_backslashes_and_doubled_separators() {
    let segs = split_path_segments("a\\b//c.lib\\");
    assert_eq!(segs, vec![String::from("a"), String::from("b"), String::from("c.lib")]);
}

#[test]
fn test_strip_drops_every_named_segment() {
    let segs = vec![
        String::from("x"),
        String::from("Debug"),
        String::from("y"),
        String::from("Debug"),
    ];
    let strip = vec![String::from("Debug")];
    let kept = strip_segments(&segs, &strip);
    assert_eq!(kept, vec![String::from("x"), String::from("y")]);
}

#[test]
fn test_join_with_forward_slashes() {
    let segs = vec![String::from("absl"), String::from("base.lib")];
    assert_eq!(join_segments(&segs), "absl/base.lib");
    let none: Vec<String> = Vec::new();
    assert_eq!(join_segments(&none), "");
}

#[test]
fn test_destination_path_has_no_backslash_and_no_stripped_segment() {
    let strip = vec![String::from("Debug")];
    let dest = destination_rel_path("absl\\strings\\Debug\\strings.lib", &strip);
    assert_eq!(dest, "absl/strings/strings.lib");
    assert!(!dest.contains('\\'));
    assert!(!dest.split('/').any(|s| s == "Debug"));
}

#[test]
fn test_normalize_separators_replaces_backslashes() {
    assert_eq!(normalize_separators("a\\b/c.h"), "a/b/c.h");
    assert_eq!(normalize_separators("noslash.h"), "noslash.h");
    assert_eq!(normalize_separators(""), "");
}

#[test]
fn test_header_extension_cases() {
    assert!(has_header_extension("x.h"));
    assert!(has_header_extension("x.H"));
    assert!(has_header_extension("a.b.h"));
    assert!(!has_header_extension("x.hpp"));
    assert!(!has_header_extension(".h"));
    assert!(!has_header_extension("h"));
    assert!(!has_header_extension("x."));
    assert!(!has_header_extension("x_h"));
}

#[test]
fn test_header_tree_is_preserved_without_strip_segments() {
    // A header tree with files a/x.h and a/b/y.h, collected with no
    // strip segments, keeps its relative layout at the destination.
    assert_eq!(plan_header_copy("a/x.h").as_deref(), Some("a/x.h"));
    assert_eq!(plan_header_copy("a/b/y.h").as_deref(), Some("a/b/y.h"));
    assert_eq!(plan_header_copy("a/b/notes.txt"), None);
}

#[test]
fn test_library_copy_plan() {
    assert_eq!(
        plan_library_copy("absl/base/Debug/base.lib", "Debug").as_deref(),
        Some("absl/base/base.lib")
    );
    assert_eq!(
        plan_library_copy("absl\\base\\Debug\\base.pdb", "Debug").as_deref(),
        Some("absl/base/base.pdb")
    );
    // Not under the configuration directory: not gathered.
    assert_eq!(plan_library_copy("absl/base/Release/base.lib", "Debug"), None);
    // Not an artifact the gather step wants.
    assert_eq!(plan_library_copy("absl/base/Debug/base.obj", "Debug"), None);
}
