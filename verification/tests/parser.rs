use ldpsc::ast::TypeQualifier;
use ldpsc::basic::ErrorKind;
use ldpsc::parser::{parse_function_at, parse_program_at, parse_type_at};

#[test]
fn parse_simple_prototype() {
    let (f, end) = parse_function_at("void noop();", 0).unwrap();
    assert_eq!(end, 12);
    assert_eq!(f.return_type.specifier, "void");
    assert_eq!(f.return_type.pointer, 0);
    assert!(f.return_type.qualifiers.is_empty());
    assert_eq!(f.name, "noop");
    assert!(f.parameters.is_empty());
}

#[test]
fn parse_prototype_with_parameters() {
    let (f, _) = parse_function_at("size_t read(int fd, char *buf, size_t count);", 0).unwrap();
    assert_eq!(f.return_type.specifier, "size_t");
    assert_eq!(f.name, "read");
    assert_eq!(f.parameters.len(), 3);
    assert_eq!(f.parameters[0].0.specifier, "int");
    assert_eq!(f.parameters[0].1, "fd");
    assert_eq!(f.parameters[1].0.specifier, "char");
    assert_eq!(f.parameters[1].0.pointer, 1);
    assert_eq!(f.parameters[1].1, "buf");
    assert_eq!(f.parameters[2].0.specifier, "size_t");
    assert_eq!(f.parameters[2].1, "count");
}

#[test]
fn parse_qualified_pointer_type() {
    let (t, end) = parse_type_at("const volatile char **", 0).unwrap();
    assert_eq!(end, 22);
    assert_eq!(
        t.qualifiers,
        vec![TypeQualifier::Const, TypeQualifier::Volatile]
    );
    assert_eq!(t.specifier, "char");
    assert_eq!(t.pointer, 2);
}

#[test]
fn specifiers_match_whole_tokens() {
    // `intx` must not be read as the specifier `int` followed by a name.
    assert!(parse_function_at("intx f();", 0).is_err());
    let (f, _) = parse_function_at("int x();", 0).unwrap();
    assert_eq!(f.name, "x");
}

#[test]
fn parse_program_preserves_order() {
    let fs = parse_program_at("void a();\nint b(char c);").unwrap();
    assert_eq!(fs.len(), 2);
    assert_eq!(fs[0].name, "a");
    assert_eq!(fs[1].name, "b");
}

#[test]
fn parse_program_accepts_trailing_whitespace() {
    let fs = parse_program_at("void a();  \n\t ").unwrap();
    assert_eq!(fs.len(), 1);
    let empty = parse_program_at("   ").unwrap();
    assert!(empty.is_empty());
}

#[test]
fn parse_program_rejects_malformed_streams() {
    // A prototype missing its trailing semicolon.
    assert!(parse_program_at("void f()").is_err());
    // An unsupported multi-word specifier.
    assert!(parse_program_at("unsigned long f();").is_err());
    // An unterminated parameter list.
    assert!(parse_program_at("int f(int a;").is_err());
    // A function body where none is allowed.
    assert!(parse_program_at("void f() { return; }").is_err());
    // Trailing content that is not whitespace.
    assert!(parse_program_at("void f(); @").is_err());
}

#[test]
fn error_kinds_describe_the_failure() {
    // No specifier from the fixed set.
    let e = parse_program_at("foo x();").unwrap_err();
    assert_eq!(e.kind, ErrorKind::Type);
    assert_eq!(e.offset, 0);
    // A digit where a name must begin.
    let e = parse_program_at("int 5x();").unwrap_err();
    assert_eq!(e.kind, ErrorKind::Lexical);
    assert_eq!(e.offset, 4);
    // A body instead of the terminating semicolon.
    let e = parse_program_at("void f() {}").unwrap_err();
    assert_eq!(e.kind, ErrorKind::Syntax);
    assert_eq!(e.offset, 9);
    // Input that ends inside a declaration is a syntax error for the stream.
    let e = parse_program_at("void f(").unwrap_err();
    assert_eq!(e.kind, ErrorKind::Syntax);
}

#[test]
fn qualifier_needs_following_whitespace() {
    // `constchar` is no qualifier-specifier pair, and `constant` is no type.
    assert!(parse_program_at("constchar x();").is_err());
    assert!(parse_program_at("constant x();").is_err());
    let fs = parse_program_at("const char x();").unwrap();
    assert_eq!(fs[0].return_type.qualifiers, vec![TypeQualifier::Const]);
}

#[test]
fn universal_character_names_in_declared_names() {
    let fs = parse_program_at("int \\u00e9tat();").unwrap();
    assert_eq!(fs[0].name, "\\u00e9tat");
}
