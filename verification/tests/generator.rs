use ldpsc::parser::{parse_function_at, parse_signature_at};
use ldpsc::transform_file;
use ldpsc::Config;

fn config(debug_output: &str) -> Config {
    Config {
        input_file: String::from("-"),
        output_file: String::from("-"),
        output_to_c: true,
        debug_output: String::from(debug_output),
        c_compiler: String::from("cc"),
        create_shared_object: false,
        command: None,
    }
}

const HEADER: &str = "#define _GNU_SOURCE\n#include<dlfcn.h>\n#include<stdio.h>\n";

#[test]
fn void_prototype_definition() {
    let out = transform_file("void noop();", &config("-")).unwrap();
    let expected = format!(
        "{}{}",
        HEADER,
        "\nvoid noop() {\n\
         \x20   FILE *output = stderr;\n\
         \x20   void (*original_noop)() = dlsym(RTLD_NEXT, \"noop\");\n\
         \x20   original_noop();\n\
         \x20   fprintf(output, \"noop()\\n\");\n\
         }\n"
    );
    assert_eq!(out, expected);
}

#[test]
fn read_prototype_log_format() {
    let out = transform_file("size_t read(int fd, char *buf, size_t count);", &config("-"))
        .unwrap();
    assert!(out.contains(
        "    fprintf(output, \"read(%d, \\\"%s\\\", %zd) = %zd\\n\", fd, buf, count, result);\n"
    ));
    assert!(out.contains("    size_t result = original_read(fd, buf, count);\n"));
    assert!(out.contains("    return result;\n"));
}

#[test]
fn two_declarations_one_blank_line() {
    let out = transform_file("void a();\nvoid b();", &config("-")).unwrap();
    let first = out.find("void a() {").unwrap();
    let second = out.find("void b() {").unwrap();
    assert!(first < second);
    assert!(out.contains("}\n\nvoid b() {"));
    assert_eq!(out.matches("dlsym(RTLD_NEXT").count(), 2);
}

#[test]
fn failures_produce_no_output() {
    assert!(transform_file("void f()", &config("-")).is_err());
    assert!(transform_file("unsigned long f();", &config("-")).is_err());
    assert!(transform_file("int f(int a;", &config("-")).is_err());
    assert!(transform_file("void f() { return; }", &config("-")).is_err());
}

#[test]
fn error_message_names_kind_and_offset() {
    let msg = transform_file("foo x();", &config("-")).unwrap_err();
    assert_eq!(msg, "Parser error: unknown type specifier at offset 0");
    let msg = transform_file("void f() {}", &config("-")).unwrap_err();
    assert_eq!(msg, "Parser error: unexpected token at offset 9");
}

#[test]
fn debug_output_path_is_opened_per_call() {
    let out = transform_file("int f();", &config("/tmp/calls.log")).unwrap();
    assert!(out.contains("    FILE *output = fopen(\"/tmp/calls.log\", \"a\");\n"));
    assert!(out.contains("    fclose(output);\n"));
    assert!(!out.contains("stderr"));
}

#[test]
fn sentinel_debug_output_reuses_stderr() {
    let out = transform_file("int f();", &config("-")).unwrap();
    assert!(out.contains("    FILE *output = stderr;\n"));
    assert!(!out.contains("fclose"));
}

#[test]
fn format_specifier_table() {
    let (f, _) = parse_function_at(
        "long g(char *s, int i, size_t z, long l, int **p, char c);",
        0,
    )
    .unwrap();
    assert_eq!(f.parameters[0].0.get_format_specifier(), "\\\"%s\\\"");
    assert_eq!(f.parameters[1].0.get_format_specifier(), "%d");
    assert_eq!(f.parameters[2].0.get_format_specifier(), "%zd");
    assert_eq!(f.parameters[3].0.get_format_specifier(), "{Unknown Type: %d}");
    assert_eq!(f.parameters[4].0.get_format_specifier(), "%p");
    assert_eq!(f.parameters[5].0.get_format_specifier(), "{Unknown Type: %d}");
    assert_eq!(f.return_type.get_format_specifier(), "{Unknown Type: %d}");
    assert!(!f.return_type.is_void());
}

#[test]
fn is_void_distinguishes_void_pointers() {
    let (f, _) = parse_function_at("void *alloc(size_t n);", 0).unwrap();
    assert!(!f.return_type.is_void());
    let (g, _) = parse_function_at("void free2(void *p);", 0).unwrap();
    assert!(g.return_type.is_void());
}

#[test]
fn qualifiers_render_in_original_order() {
    let (f, _) = parse_function_at("const volatile char *name(int x);", 0).unwrap();
    let mut sig = String::new();
    f.get_signature(&mut sig, false);
    assert_eq!(sig, "const volatile char *name(int x)");
    let mut ptr_sig = String::new();
    f.get_signature(&mut ptr_sig, true);
    assert_eq!(ptr_sig, "const volatile char *(*original_name)(int x)");
}

#[test]
fn signature_round_trip_reproduces_structure() {
    let src = "const size_t *find(const char *haystack, char needle, size_t len);";
    let (f, _) = parse_function_at(src, 0).unwrap();
    let mut sig = String::new();
    f.get_signature(&mut sig, false);
    assert_eq!(sig, "const size_t *find(const char *haystack, char needle, size_t len)");
    let (g, end) = parse_signature_at(&sig, 0).unwrap();
    assert_eq!(end, sig.chars().count());
    assert_eq!(g.return_type.qualifiers, f.return_type.qualifiers);
    assert_eq!(g.return_type.specifier, f.return_type.specifier);
    assert_eq!(g.return_type.pointer, f.return_type.pointer);
    assert_eq!(g.name, f.name);
    assert_eq!(g.parameters.len(), f.parameters.len());
    for (gp, fp) in g.parameters.iter().zip(f.parameters.iter()) {
        assert_eq!(gp.0.qualifiers, fp.0.qualifiers);
        assert_eq!(gp.0.specifier, fp.0.specifier);
        assert_eq!(gp.0.pointer, fp.0.pointer);
        assert_eq!(gp.1, fp.1);
    }
}

#[test]
fn empty_input_yields_header_only() {
    let out = transform_file("", &config("-")).unwrap();
    assert_eq!(out, HEADER);
}
