//! Lexing of C identifiers: character classes, hex quads,
//! universal-character-name escapes, and maximal-munch identifiers.
//!
//! Every exec lexer is specified against a spec-level lexer over `Seq<char>`.
//! A lexer applied at a position either consumes a token (`Lex::Take`),
//! runs out of input mid-token (`Lex::More`), or finds no token (`Lex::Bad`).

use vstd::prelude::*;
use vstd::string::StrSliceExecFns;

verus! {

/// The kind of a parse failure.
#[derive(Debug, Clone, Copy, PartialEq, Eq, Structural)]
pub enum ErrorKind {
    /// A character belongs to no expected class.
    Lexical,
    /// No specifier from the fixed set was found.
    Type,
    /// A delimiter is missing or unexpected content follows.
    Syntax,
    /// The input ended in the middle of a token.
    Incomplete,
}

/// A parse failure: its kind and the character offset where it occurred.
#[derive(Debug, Clone, Copy, PartialEq, Eq, Structural)]
pub struct ParseError {
    pub kind: ErrorKind,
    pub offset: usize,
}

/// Outcome of a spec-level lexer: consume `n` characters, need more input
/// (offset where the input ended), or mismatch (offset of the offending char).
pub enum Lex {
    Take(int),
    More(int),
    Bad(int),
}

/// Whitespace accepted between tokens.
pub open spec fn is_space(c: char) -> bool {
    c == ' ' || c == '\t' || c == '\n' || c == '\r'
}

/// An ASCII letter or underscore.
pub open spec fn is_nondigit(c: char) -> bool {
    ||| c == '_'
    ||| ('a' as u32) <= (c as u32) && (c as u32) <= ('z' as u32)
    ||| ('A' as u32) <= (c as u32) && (c as u32) <= ('Z' as u32)
}

/// An ASCII decimal digit.
pub open spec fn is_digit(c: char) -> bool {
    ('0' as u32) <= (c as u32) && (c as u32) <= ('9' as u32)
}

/// An ASCII hexadecimal digit.
pub open spec fn is_hex_digit(c: char) -> bool {
    ||| is_digit(c)
    ||| ('a' as u32) <= (c as u32) && (c as u32) <= ('f' as u32)
    ||| ('A' as u32) <= (c as u32) && (c as u32) <= ('F' as u32)
}

/// Translates a spec lexer outcome into the exec result of a lexer,
/// where a mismatch is reported with kind `bad_kind`.
pub open spec fn lex_result(l: Lex, bad_kind: ErrorKind) -> Result<usize, ParseError> {
    match l {
        Lex::Take(n) => Ok(n as usize),
        Lex::More(o) => Err(ParseError { kind: ErrorKind::Incomplete, offset: o as usize }),
        Lex::Bad(o) => Err(ParseError { kind: bad_kind, offset: o as usize }),
    }
}

/// Spec lexer for a single nondigit.
pub open spec fn lex_nondigit(s: Seq<char>, pos: int) -> Lex {
    if pos >= s.len() {
        Lex::More(pos)
    } else if is_nondigit(s[pos]) {
        Lex::Take(pos + 1)
    } else {
        Lex::Bad(pos)
    }
}

/// Spec lexer for a single decimal digit.
pub open spec fn lex_digit(s: Seq<char>, pos: int) -> Lex {
    if pos >= s.len() {
        Lex::More(pos)
    } else if is_digit(s[pos]) {
        Lex::Take(pos + 1)
    } else {
        Lex::Bad(pos)
    }
}

/// Spec lexer for a single hexadecimal digit.
pub open spec fn lex_hexadecimal_digit(s: Seq<char>, pos: int) -> Lex {
    if pos >= s.len() {
        Lex::More(pos)
    } else if is_hex_digit(s[pos]) {
        Lex::Take(pos + 1)
    } else {
        Lex::Bad(pos)
    }
}

/// Spec lexer for a run of exactly `n` hexadecimal digits.
/// `Take` carries the end position.
pub open spec fn lex_hex_run(s: Seq<char>, pos: int, n: nat) -> Lex
    decreases n,
{
    if n == 0 {
        Lex::Take(pos)
    } else if pos >= s.len() {
        Lex::More(pos)
    } else if !is_hex_digit(s[pos]) {
        Lex::Bad(pos)
    } else {
        lex_hex_run(s, pos + 1, (n - 1) as nat)
    }
}

/// Spec lexer for a `hex-quad`: exactly four hexadecimal digits.
pub open spec fn lex_hex_quad(s: Seq<char>, pos: int) -> Lex {
    lex_hex_run(s, pos, 4)
}

/// Spec lexer for a `universal-character-name`: `\u` followed by four
/// hexadecimal digits, or `\U` followed by eight.
pub open spec fn lex_universal_character_name(s: Seq<char>, pos: int) -> Lex {
    if pos >= s.len() {
        Lex::More(pos)
    } else if s[pos] != '\\' {
        Lex::Bad(pos)
    } else if pos + 1 >= s.len() {
        Lex::More(pos + 1)
    } else if s[pos + 1] == 'u' {
        lex_hex_run(s, pos + 2, 4)
    } else if s[pos + 1] == 'U' {
        lex_hex_run(s, pos + 2, 8)
    } else {
        Lex::Bad(pos + 1)
    }
}

/// Spec lexer for an `identifier-nondigit`: a nondigit or a
/// universal-character-name.
pub open spec fn lex_identifier_nondigit(s: Seq<char>, pos: int) -> Lex {
    if pos >= s.len() {
        Lex::More(pos)
    } else if is_nondigit(s[pos]) {
        Lex::Take(pos + 1)
    } else {
        lex_universal_character_name(s, pos)
    }
}

/// Spec lexer for one identifier continuation character:
/// an identifier-nondigit or a digit.
pub open spec fn lex_identifier_char(s: Seq<char>, pos: int) -> Lex {
    match lex_identifier_nondigit(s, pos) {
        Lex::Bad(o) => if pos < s.len() && is_digit(s[pos]) {
            Lex::Take(pos + 1)
        } else {
            Lex::Bad(o)
        },
        other => other,
    }
}

/// The end of the maximal run of identifier continuation characters
/// starting at `pos`: the first position where no further one is consumed.
pub open spec fn identifier_end(s: Seq<char>, pos: int) -> int
    decreases s.len() - pos,
{
    match lex_identifier_char(s, pos) {
        Lex::Take(e) => if pos < e && e <= s.len() {
            identifier_end(s, e)
        } else {
            pos
        },
        _ => pos,
    }
}

/// Spec lexer for an `identifier`: one identifier-nondigit followed by the
/// maximal run of identifier continuation characters. If the input ends
/// while a further continuation could still begin, more input is needed.
pub open spec fn lex_identifier(s: Seq<char>, pos: int) -> Lex {
    match lex_identifier_nondigit(s, pos) {
        Lex::Take(e0) => {
            let e = identifier_end(s, e0);
            match lex_identifier_char(s, e) {
                Lex::More(o) => Lex::More(o),
                _ => Lex::Take(e),
            }
        },
        other => other,
    }
}

/// A consumed run of hexadecimal digits ends exactly `n` characters on,
/// within bounds.
pub proof fn lemma_lex_hex_run_take(s: Seq<char>, pos: int, n: nat)
    ensures
        lex_hex_run(s, pos, n) matches Lex::Take(e) ==> e == pos + n && (n == 0 || e <= s.len()),
    decreases n,
{
    if n > 0 && pos < s.len() && is_hex_digit(s[pos]) {
        lemma_lex_hex_run_take(s, pos + 1, (n - 1) as nat);
    }
}

/// A consumed identifier-nondigit moves forward and stays in bounds.
pub proof fn lemma_lex_identifier_nondigit_take(s: Seq<char>, pos: int)
    ensures
        lex_identifier_nondigit(s, pos) matches Lex::Take(e) ==> pos < e && e <= s.len(),
{
    lemma_lex_hex_run_take(s, pos + 2, 4);
    lemma_lex_hex_run_take(s, pos + 2, 8);
}

/// A consumed identifier continuation character moves forward and stays in bounds.
pub proof fn lemma_lex_identifier_char_take(s: Seq<char>, pos: int)
    ensures
        lex_identifier_char(s, pos) matches Lex::Take(e) ==> pos < e && e <= s.len(),
{
    lemma_lex_identifier_nondigit_take(s, pos);
}

/// The maximal run of identifier continuation characters stays in bounds,
/// and no further continuation character is consumed at its end.
pub proof fn lemma_identifier_end(s: Seq<char>, pos: int)
    requires
        pos <= s.len(),
    ensures
        pos <= identifier_end(s, pos) <= s.len(),
        !(lex_identifier_char(s, identifier_end(s, pos)) matches Lex::Take(_)),
    decreases s.len() - pos,
{
    lemma_lex_identifier_char_take(s, pos);
    if let Lex::Take(e) = lex_identifier_char(s, pos) {
        lemma_identifier_end(s, e);
    }
}

/// Whether `c` is accepted as whitespace between tokens.
pub fn space_char(c: char) -> (r: bool)
    ensures
        r == is_space(c),
{
    c == ' ' || c == '\t' || c == '\n' || c == '\r'
}

/// Whether `c` is an ASCII letter or underscore.
pub fn nondigit_char(c: char) -> (r: bool)
    ensures
        r == is_nondigit(c),
{
    let n = c as u32;
    c == '_' || ('a' as u32) <= n && n <= ('z' as u32) || ('A' as u32) <= n && n <= ('Z' as u32)
}

/// Whether `c` is an ASCII decimal digit.
pub fn digit_char(c: char) -> (r: bool)
    ensures
        r == is_digit(c),
{
    let n = c as u32;
    ('0' as u32) <= n && n <= ('9' as u32)
}

/// Whether `c` is an ASCII hexadecimal digit.
pub fn hex_digit_char(c: char) -> (r: bool)
    ensures
        r == is_hex_digit(c),
{
    let n = c as u32;
    digit_char(c) || ('a' as u32) <= n && n <= ('f' as u32) || ('A' as u32) <= n && n <= ('F' as u32)
}

/// Lexes a `nondigit` at `pos`. `Ok` carries the end of the token.
pub fn nondigit(s: &str, pos: usize) -> (r: Result<usize, ParseError>)
    requires
        pos <= s@.len(),
    ensures
        r == lex_result(lex_nondigit(s@, pos as int), ErrorKind::Lexical),
{
    if pos == s.unicode_len() {
        return Err(ParseError { kind: ErrorKind::Incomplete, offset: pos });
    }
    if nondigit_char(s.get_char(pos)) {
        Ok(pos + 1)
    } else {
        Err(ParseError { kind: ErrorKind::Lexical, offset: pos })
    }
}

/// Lexes a `digit` at `pos`. `Ok` carries the end of the token.
pub fn digit(s: &str, pos: usize) -> (r: Result<usize, ParseError>)
    requires
        pos <= s@.len(),
    ensures
        r == lex_result(lex_digit(s@, pos as int), ErrorKind::Lexical),
{
    if pos == s.unicode_len() {
        return Err(ParseError { kind: ErrorKind::Incomplete, offset: pos });
    }
    if digit_char(s.get_char(pos)) {
        Ok(pos + 1)
    } else {
        Err(ParseError { kind: ErrorKind::Lexical, offset: pos })
    }
}

/// Lexes a `hexadecimal-digit` at `pos`. `Ok` carries the end of the token.
pub fn hexadecimal_digit(s: &str, pos: usize) -> (r: Result<usize, ParseError>)
    requires
        pos <= s@.len(),
    ensures
        r == lex_result(lex_hexadecimal_digit(s@, pos as int), ErrorKind::Lexical),
{
    if pos == s.unicode_len() {
        return Err(ParseError { kind: ErrorKind::Incomplete, offset: pos });
    }
    if hex_digit_char(s.get_char(pos)) {
        Ok(pos + 1)
    } else {
        Err(ParseError { kind: ErrorKind::Lexical, offset: pos })
    }
}

/// Lexes a run of exactly `n` hexadecimal digits starting at `pos`.
fn hex_run(s: &str, pos: usize, n: usize) -> (r: Result<usize, ParseError>)
    requires
        pos <= s@.len(),
    ensures
        r == lex_result(lex_hex_run(s@, pos as int, n as nat), ErrorKind::Lexical),
    decreases n,
{
    if n == 0 {
        return Ok(pos);
    }
    if pos == s.unicode_len() {
        return Err(ParseError { kind: ErrorKind::Incomplete, offset: pos });
    }
    if !hex_digit_char(s.get_char(pos)) {
        return Err(ParseError { kind: ErrorKind::Lexical, offset: pos });
    }
    hex_run(s, pos + 1, n - 1)
}

/// Lexes a `hex-quad` (exactly four hexadecimal digits) at `pos`.
pub fn hex_quad(s: &str, pos: usize) -> (r: Result<usize, ParseError>)
    requires
        pos <= s@.len(),
    ensures
        r == lex_result(lex_hex_quad(s@, pos as int), ErrorKind::Lexical),
{
    hex_run(s, pos, 4)
}

/// Lexes a `universal-character-name` at `pos`.
pub fn universal_character_name(s: &str, pos: usize) -> (r: Result<usize, ParseError>)
    requires
        pos <= s@.len(),
    ensures
        r == lex_result(lex_universal_character_name(s@, pos as int), ErrorKind::Lexical),
{
    let len = s.unicode_len();
    if pos == len {
        return Err(ParseError { kind: ErrorKind::Incomplete, offset: pos });
    }
    if s.get_char(pos) != '\\' {
        return Err(ParseError { kind: ErrorKind::Lexical, offset: pos });
    }
    if pos + 1 == len {
        return Err(ParseError { kind: ErrorKind::Incomplete, offset: pos + 1 });
    }
    let c = s.get_char(pos + 1);
    if c == 'u' {
        hex_run(s, pos + 2, 4)
    } else if c == 'U' {
        hex_run(s, pos + 2, 8)
    } else {
        Err(ParseError { kind: ErrorKind::Lexical, offset: pos + 1 })
    }
}

/// Lexes an `identifier-nondigit` at `pos`.
pub fn identifier_nondigit(s: &str, pos: usize) -> (r: Result<usize, ParseError>)
    requires
        pos <= s@.len(),
    ensures
        r == lex_result(lex_identifier_nondigit(s@, pos as int), ErrorKind::Lexical),
{
    if pos == s.unicode_len() {
        return Err(ParseError { kind: ErrorKind::Incomplete, offset: pos });
    }
    if nondigit_char(s.get_char(pos)) {
        Ok(pos + 1)
    } else {
        universal_character_name(s, pos)
    }
}

/// Lexes one identifier continuation character at `pos`.
fn identifier_char(s: &str, pos: usize) -> (r: Result<usize, ParseError>)
    requires
        pos <= s@.len(),
    ensures
        r == lex_result(lex_identifier_char(s@, pos as int), ErrorKind::Lexical),
{
    match identifier_nondigit(s, pos) {
        Ok(e) => Ok(e),
        Err(e) => {
            if e.kind == ErrorKind::Incomplete {
                Err(e)
            } else if pos < s.unicode_len() && digit_char(s.get_char(pos)) {
                Ok(pos + 1)
            } else {
                Err(e)
            }
        },
    }
}

/// Lexes an `identifier` at `pos`: consumption is maximal, and `Ok` reports
/// the position of the first following character that belongs to no
/// identifier class.
pub fn identifier(s: &str, pos: usize) -> (r: Result<usize, ParseError>)
    requires
        pos <= s@.len(),
    ensures
        r == lex_result(lex_identifier(s@, pos as int), ErrorKind::Lexical),
        r matches Ok(e) ==> lex_identifier(s@, pos as int) == Lex::Take(e as int) && pos < e
            && e as nat <= s@.len(),
{
    let len = s.unicode_len();
    let mut cur = match identifier_nondigit(s, pos) {
        Ok(e) => e,
        Err(e) => {
            return Err(e);
        },
    };
    proof {
        lemma_lex_identifier_nondigit_take(s@, pos as int);
    }
    let ghost e0: int = cur as int;
    loop
        invariant
            lex_identifier_nondigit(s@, pos as int) == Lex::Take(e0),
            len as nat == s@.len(),
            pos < e0 <= cur as int,
            cur <= len,
            identifier_end(s@, e0) == identifier_end(s@, cur as int),
        decreases len - cur,
    {
        match identifier_char(s, cur) {
            Ok(e) => {
                proof {
                    lemma_lex_identifier_char_take(s@, cur as int);
                    assert(lex_identifier_char(s@, cur as int) == Lex::Take(e as int));
                    assert(identifier_end(s@, cur as int) == identifier_end(s@, e as int));
                }
                cur = e;
            },
            Err(e) => {
                proof {
                    lemma_identifier_end(s@, e0);
                    assert(identifier_end(s@, cur as int) == cur as int);
                }
                if e.kind == ErrorKind::Incomplete {
                    return Err(e);
                }
                return Ok(cur);
            },
        }
    }
}

} // verus!
