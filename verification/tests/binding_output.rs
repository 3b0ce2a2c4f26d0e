use astd::emit::FunctionSignature;
use astd::emit::render_bindings;

fn signature(ret: &str, name: &str, origin: &str) -> FunctionSignature {
    FunctionSignature::from_record(
        (String::new(), String::from(ret), String::from(name)),
        String::from(origin),
    )
}

#[test]
fn test_rendered_file_byte_for_byte() {
    let includes = vec![String::from("absl/base/config.h")];
    let signatures = vec![signature("int", "answer", "absl/base/config.h")];
    let out = render_bindings(&includes, &signatures, "");
    let expected = "// language: C++\n// binding surface for the gathered headers\n#ifdef __cplusplus\nextern \"C\" {\n#endif\n\n#include \"absl/base/config.h\"\n\n// absl/base/config.h\nint answer_wrapper() { return answer(); }\n\n#ifdef __cplusplus\n}\n#endif\n";
    assert_eq!(out, expected);
}

#[test]
fn test_includes_keep_traversal_order() {
    let includes = vec![
        String::from("absl/zeta.h"),
        String::from("absl/alpha.h"),
    ];
    let signatures: Vec<FunctionSignature> = Vec::new();
    let out = render_bindings(&includes, &signatures, "");
    let zeta = out.find("absl/zeta.h").unwrap();
    let alpha = out.find("absl/alpha.h").unwrap();
    assert!(zeta < alpha);
}

#[test]
fn test_reserved_prefix_withholds_wrappers() {
    let includes: Vec<String> = Vec::new();
    let signatures = vec![
        signature("void*", "absl_internal_alloc", "absl/base/internal.h"),
        signature("int", "public_entry", "absl/base/public.h"),
    ];
    let out = render_bindings(&includes, &signatures, "absl_internal");
    assert!(!out.contains("absl_internal_alloc_wrapper"));
    assert!(out.contains("int public_entry_wrapper() { return public_entry(); }\n"));
}

#[test]
fn test_empty_prefix_withholds_nothing() {
    let includes: Vec<String> = Vec::new();
    let signatures = vec![signature("void*", "absl_internal_alloc", "absl/base/internal.h")];
    let out = render_bindings(&includes, &signatures, "");
    assert!(out.contains("absl_internal_alloc_wrapper"));
}

#[test]
fn test_empty_input_renders_only_the_frame() {
    let includes: Vec<String> = Vec::new();
    let signatures: Vec<FunctionSignature> = Vec::new();
    let out = render_bindings(&includes, &signatures, "");
    let expected = "// language: C++\n// binding surface for the gathered headers\n#ifdef __cplusplus\nextern \"C\" {\n#endif\n\n\n\n#ifdef __cplusplus\n}\n#endif\n";
    assert_eq!(out, expected);
}
