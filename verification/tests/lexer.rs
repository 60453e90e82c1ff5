use ldpsc::basic::{
    digit, hex_quad, hexadecimal_digit, identifier, identifier_nondigit, nondigit,
    universal_character_name, ErrorKind, ParseError,
};

fn lexical(offset: usize) -> ParseError {
    ParseError { kind: ErrorKind::Lexical, offset }
}

fn incomplete(offset: usize) -> ParseError {
    ParseError { kind: ErrorKind::Incomplete, offset }
}

#[test]
fn test_nondigit() {
    assert!(nondigit("_", 0) == Ok(1));
    assert!(nondigit("a", 0) == Ok(1));
    assert!(nondigit("G", 0) == Ok(1));
    assert!(nondigit("+", 0) == Err(lexical(0)));
    assert!(nondigit("-", 0) == Err(lexical(0)));
    assert!(nondigit("5", 0) == Err(lexical(0)));
    assert!(nondigit("~", 0) == Err(lexical(0)));
    assert!(nondigit("", 0) == Err(incomplete(0)));
}

#[test]
fn test_hexadecimal_digit() {
    assert!(hexadecimal_digit("a", 0) == Ok(1));
    assert!(hexadecimal_digit("0", 0) == Ok(1));
    assert!(hexadecimal_digit("8", 0) == Ok(1));
    assert!(hexadecimal_digit("D", 0) == Ok(1));
    assert!(hexadecimal_digit("f", 0) == Ok(1));
    assert!(hexadecimal_digit("F", 0) == Ok(1));
    assert!(hexadecimal_digit("g", 0) == Err(lexical(0)));
    assert!(hexadecimal_digit("~", 0) == Err(lexical(0)));
    assert!(hexadecimal_digit("", 0) == Err(incomplete(0)));
}

#[test]
fn test_digit() {
    assert!(digit("0", 0) == Ok(1));
    assert!(digit("3", 0) == Ok(1));
    assert!(digit("5", 0) == Ok(1));
    assert!(digit("9", 0) == Ok(1));
    assert!(digit("g", 0) == Err(lexical(0)));
    assert!(digit("a", 0) == Err(lexical(0)));
    assert!(digit("A", 0) == Err(lexical(0)));
    assert!(digit("`", 0) == Err(lexical(0)));
    assert!(digit("", 0) == Err(incomplete(0)));
}

#[test]
fn test_hex_quad() {
    assert!(hex_quad("abcd", 0) == Ok(4));
    assert!(hex_quad("f00d", 0) == Ok(4));
    assert!(hex_quad("1337", 0) == Ok(4));
    assert!(hex_quad("123", 0) == Err(incomplete(3)));
    assert!(hex_quad("", 0) == Err(incomplete(0)));
    assert!(hex_quad("123g", 0) == Err(lexical(3)));
}

#[test]
fn test_universal_character_name() {
    assert!(universal_character_name("\\u1337", 0) == Ok(6));
    assert!(universal_character_name("\\u78ba", 0) == Ok(6));
    assert!(universal_character_name("\\UffAC1234", 0) == Ok(10));
    assert!(universal_character_name("\\UffAC123", 0) == Err(incomplete(9)));
    assert!(universal_character_name("a123g", 0) == Err(lexical(0)));
    assert!(universal_character_name("", 0) == Err(incomplete(0)));
}

#[test]
fn test_identifier_nondigit() {
    assert!(identifier_nondigit("\\u1337", 0) == Ok(6));
    assert!(identifier_nondigit("a", 0) == Ok(1));
    assert!(identifier_nondigit("_", 0) == Ok(1));
    assert!(identifier_nondigit("5", 0) == Err(lexical(0)));
    assert!(identifier_nondigit("", 0) == Err(incomplete(0)));
}

#[test]
fn test_identifier() {
    assert!(identifier("_abc789 ", 0) == Ok(7));
    assert!(identifier("a+", 0) == Ok(1));
    assert!(identifier("qr\\u1289 ", 0) == Ok(8));
    assert!(identifier("5abc", 0) == Err(lexical(0)));
    assert!(identifier("", 0) == Err(incomplete(0)));
}

#[test]
fn test_identifier_stops_at_first_disallowed_character() {
    assert!(identifier("read(", 0) == Ok(4));
    assert!(identifier("x2,", 0) == Ok(2));
    assert!(identifier("_a\\u0040b;", 0) == Ok(9));
}

#[test]
fn test_identifier_incomplete_at_end_of_buffer() {
    assert!(identifier("abc", 0) == Err(incomplete(3)));
    assert!(identifier("ab\\u12", 0) == Err(incomplete(6)));
}

#[test]
fn test_hex_quad_mid_input() {
    assert!(hex_quad("xxabcd", 2) == Ok(6));
    assert!(hex_quad("xxabcz", 2) == Err(lexical(5)));
}
