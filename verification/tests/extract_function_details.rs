use astd::extract_function_details;

#[test]
fn test_simple_function() {
    let source = "int my_function(int a, float b);";
    let extracted = extract_function_details(source);
    assert_eq!(extracted.len(), 1);
    let (prefix, ret, name) = &extracted[0];
    assert_eq!(prefix, "");
    assert_eq!(ret, "int");
    assert_eq!(name, "my_function");
}

#[test]
fn test_function_with_template() {
    let source = "template <typename T> T func_template(T a);";
    let extracted = extract_function_details(source);
    assert_eq!(extracted.len(), 1);
    let (prefix, ret, name) = &extracted[0];
    assert_eq!(prefix, "template <typename T>");
    assert_eq!(ret, "T");
    assert_eq!(name, "func_template");
}

#[test]
fn test_functions_with_comments() {
    let source = r#"
        // This function does something
        int sum(int a, int b);

        /* Multi-line comment describing the function */
        double average(double a, double b);
    "#;
    let extracted = extract_function_details(source);
    assert_eq!(extracted.len(), 2);
    let (_, ret1, name1) = &extracted[0];
    assert_eq!(ret1, "int");
    assert_eq!(name1, "sum");
    let (_, ret2, name2) = &extracted[1];
    assert_eq!(ret2, "double");
    assert_eq!(name2, "average");
}

#[test]
fn test_complex_signature() {
    let source = "const std::vector<int>& get_vector() const;";
    let extracted = extract_function_details(source);
    assert_eq!(extracted.len(), 1);
    let (_, ret, name) = &extracted[0];
    assert_eq!(ret, "const std::vector<int>&");
    assert_eq!(name, "get_vector");
}

#[test]
fn test_empty_text_yields_no_records() {
    let extracted = extract_function_details("");
    assert_eq!(extracted.len(), 0);
}

#[test]
fn test_extraction_is_idempotent_on_same_text() {
    let source = "int alpha(void);\ndouble beta(int x);\n";
    let first = extract_function_details(source);
    let second = extract_function_details(source);
    assert_eq!(first, second);
    assert_eq!(first.len(), 2);
}

#[test]
fn test_declaration_must_be_line_anchored() {
    // The candidate does not start at the beginning of a line, and the
    // stray parenthesis and semicolon break the token run from the line
    // start, so the line-anchored scan captures nothing.
    let source = "foo(); int bar(int x);";
    let extracted = extract_function_details(source);
    assert_eq!(extracted.len(), 0);
}

#[test]
fn test_one_match_per_line() {
    // After a match the scan resumes at the next line, so a second
    // declaration on the same line yields no record.
    let source = "int first(int a); int second(int b);\nint third(int c);";
    let extracted = extract_function_details(source);
    assert_eq!(extracted.len(), 2);
    assert_eq!(extracted[0].2, "first");
    assert_eq!(extracted[1].2, "third");
}

#[test]
fn test_nested_template_arguments() {
    let source = "template <typename K, typename V = map<K,V>> int lookup(K key);";
    let extracted = extract_function_details(source);
    assert_eq!(extracted.len(), 1);
    let (prefix, ret, name) = &extracted[0];
    assert_eq!(prefix, "template <typename K, typename V = map<K,V>>");
    assert_eq!(ret, "int");
    assert_eq!(name, "lookup");
}

#[test]
fn test_return_type_spanning_lines() {
    // The return-type token run may cross a line break.
    let source = "unsigned long\nlong_counter(void);";
    let extracted = extract_function_details(source);
    assert_eq!(extracted.len(), 1);
    let (_, ret, name) = &extracted[0];
    assert_eq!(ret, "unsigned long");
    assert_eq!(name, "long_counter");
}

#[test]
fn test_pointer_attached_to_name_is_not_captured() {
    // With no whitespace between the token run and the identifier there
    // is no declaration shape to capture.
    let source = "int*frob(int x);";
    let extracted = extract_function_details(source);
    assert_eq!(extracted.len(), 0);
}
