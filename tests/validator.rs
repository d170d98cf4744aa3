use equivalence_checker::validator::{
    extract_c_signature, extract_rust_signature, find_c_signature, find_rust_signature, find_str, trim_str,
};

#[test]
fn rust_signature_with_types_and_return() {
    let sig = extract_rust_signature("pub fn add(a: i32, b: &mut Vec<u8>) -> i32 {", "add").unwrap();
    assert_eq!(sig.name, "add");
    assert_eq!(sig.params, vec!["i32".to_string(), "&mut Vec<u8>".to_string()]);
    assert_eq!(sig.return_type, "i32");
}

#[test]
fn rust_signature_defaults() {
    let sig = extract_rust_signature("fn f()", "f").unwrap();
    assert!(sig.params.is_empty());
    assert_eq!(sig.return_type, "()");
    let sig = extract_rust_signature("fn g(x, ) ->   ", "g").unwrap();
    assert_eq!(sig.params, vec!["unknown".to_string()]);
    assert_eq!(sig.return_type, "unknown");
    assert!(extract_rust_signature("fn h)(", "h").is_none());
    assert!(extract_rust_signature("fn h", "h").is_none());
}

#[test]
fn c_signature_keeps_words_before_qualifiers() {
    let sig = extract_c_signature("int add(int a,  unsigned  long b, const int *c) {", "add").unwrap();
    assert_eq!(sig.name, "add");
    assert_eq!(sig.params, vec!["int a".to_string(), "unsigned long b".to_string(), String::new()]);
    assert_eq!(sig.return_type, "int");
}

#[test]
fn c_signature_void_and_unknown() {
    let sig = extract_c_signature("void reset(void)", "reset").unwrap();
    assert!(sig.params.is_empty());
    assert_eq!(sig.return_type, "void");
    let sig = extract_c_signature("static char *name(char *s)", "name").unwrap();
    assert_eq!(sig.params, vec!["char".to_string()]);
    assert_eq!(sig.return_type, "unknown");
    assert!(extract_c_signature("int x;", "x").is_none());
}

#[test]
fn text_helpers() {
    assert_eq!(trim_str(" \t a b \n"), "a b");
    assert_eq!(trim_str("   "), "");
    assert_eq!(find_str("a->b->c", "->"), Some(1));
    assert_eq!(find_str("abc", "abcd"), None);
}

#[test]
fn finds_first_defining_line_in_c_source() {
    let src = "#include <stdio.h>\n// doubles its input\n  int compute(int x, int y) {\r\n    return x;\n}\n";
    let sig = find_c_signature(src, "compute").unwrap();
    assert_eq!(sig.params, vec!["int x".to_string(), "int y".to_string()]);
    assert_eq!(sig.return_type, "int");
    assert!(find_c_signature("int other(void);\n", "compute").is_none());
}

#[test]
fn finds_first_defining_line_in_rust_source() {
    let src = "// fn compute(x: i32) in a comment\nuse std::fmt;\n    pub fn compute(x: i32) -> i64 {\n        x as i64\n    }\n";
    let sig = find_rust_signature(src, "compute").unwrap();
    assert_eq!(sig.params, vec!["i32".to_string()]);
    assert_eq!(sig.return_type, "i64");
    assert!(find_rust_signature("let compute = (1, 2);\n", "compute").is_none());
}

#[test]
fn arity_compares_parameter_counts() {
    let c = extract_c_signature("int f(int a, int b)", "f").unwrap();
    let r = extract_rust_signature("fn f(a: i32, b: i32) -> i32", "f").unwrap();
    let r1 = extract_rust_signature("fn f(a: i32) -> i32", "f").unwrap();
    assert!(equivalence_checker::validator::same_arity(&c, &r));
    assert!(!equivalence_checker::validator::same_arity(&c, &r1));
}
