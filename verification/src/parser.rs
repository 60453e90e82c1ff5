//! The type parser, the function declaration parser and the declaration
//! stream driver.
//!
//! Each exec parser is specified against a deterministic spec-level parser
//! over `Seq<char>`. Positions are character offsets into the input.

use vstd::prelude::*;
use vstd::string::{StrSliceExecFns, StringExecFns};
use crate::ast::{Function, FunctionView, Type, TypeQualifier, TypeView};
use crate::basic::{
    identifier, is_digit, is_nondigit, is_space, lex_identifier, space_char, ErrorKind, Lex,
    ParseError, lemma_lex_identifier_nondigit_take, lemma_identifier_end,
};
use crate::render::qualifier_text;

verus! {

/// The first position at or after `pos` that holds no whitespace.
pub open spec fn skip_ws(s: Seq<char>, pos: int) -> int
    decreases s.len() - pos,
{
    if 0 <= pos < s.len() && is_space(s[pos]) {
        skip_ws(s, pos + 1)
    } else {
        pos
    }
}

/// Skipping whitespace stays between `pos` and the end of the input.
pub proof fn lemma_skip_ws(s: Seq<char>, pos: int)
    requires
        0 <= pos <= s.len(),
    ensures
        pos <= skip_ws(s, pos) <= s.len(),
    decreases s.len() - pos,
{
    if pos < s.len() && is_space(s[pos]) {
        lemma_skip_ws(s, pos + 1);
    }
}

/// Whether the characters of `kw` stand at `pos`.
pub open spec fn match_keyword_at(s: Seq<char>, pos: int, kw: Seq<char>) -> bool {
    &&& pos >= 0
    &&& pos + kw.len() <= s.len()
    &&& s.subrange(pos, pos + kw.len()) == kw
}

/// A keyword is matched as a whole token: no identifier character may
/// follow it.
pub open spec fn keyword_boundary(s: Seq<char>, end: int) -> bool {
    end >= s.len() || (!is_nondigit(s[end]) && !is_digit(s[end]))
}

/// One qualifier keyword at `pos`, which must be followed by at least one
/// whitespace character; the run of whitespace after it is consumed.
pub open spec fn qualifier_at(s: Seq<char>, pos: int) -> Option<(TypeQualifier, int)> {
    let q = if match_keyword_at(s, pos, "const"@) {
        Some(TypeQualifier::Const)
    } else if match_keyword_at(s, pos, "restrict"@) {
        Some(TypeQualifier::Restrict)
    } else if match_keyword_at(s, pos, "volatile"@) {
        Some(TypeQualifier::Volatile)
    } else if match_keyword_at(s, pos, "_Atomic"@) {
        Some(TypeQualifier::Atomic)
    } else {
        None
    };
    match q {
        Some(qq) => {
            let e = pos + qualifier_text(qq).len();
            if e < s.len() && is_space(s[e]) {
                Some((qq, skip_ws(s, e)))
            } else {
                None
            }
        },
        None => None,
    }
}

/// A found qualifier moves forward and stays in bounds.
pub proof fn lemma_qualifier_at(s: Seq<char>, pos: int)
    requires
        0 <= pos <= s.len(),
    ensures
        qualifier_at(s, pos) matches Some(p) ==> pos < p.1 <= s.len(),
{
    if let Some((q, e2)) = qualifier_at(s, pos) {
        let e = pos + qualifier_text(q).len();
        lemma_skip_ws(s, e + 1);
        assert(skip_ws(s, e) == skip_ws(s, e + 1));
    }
}

/// The qualifier list: zero or more qualifier keywords, each followed by
/// whitespace, in the order encountered.
pub open spec fn parse_qualifiers(s: Seq<char>, pos: int) -> (Seq<TypeQualifier>, int)
    decreases s.len() - pos,
{
    match qualifier_at(s, pos) {
        Some((q, e)) => if pos < e && e <= s.len() {
            let (rest, fin) = parse_qualifiers(s, e);
            (seq![q] + rest, fin)
        } else {
            (Seq::<TypeQualifier>::empty(), pos)
        },
        None => (Seq::<TypeQualifier>::empty(), pos),
    }
}

/// Whether `kw` stands at `pos` as a whole token.
pub open spec fn specifier_token_at(s: Seq<char>, pos: int, kw: Seq<char>) -> bool {
    match_keyword_at(s, pos, kw) && keyword_boundary(s, pos + kw.len())
}

/// The specifier keyword at `pos`, drawn from the fixed set; earliest
/// match in the fixed order wins, and matching is by whole tokens.
pub open spec fn specifier_at(s: Seq<char>, pos: int) -> Option<Seq<char>> {
    if specifier_token_at(s, pos, "void"@) {
        Some("void"@)
    } else if specifier_token_at(s, pos, "char"@) {
        Some("char"@)
    } else if specifier_token_at(s, pos, "short"@) {
        Some("short"@)
    } else if specifier_token_at(s, pos, "int"@) {
        Some("int"@)
    } else if specifier_token_at(s, pos, "long"@) {
        Some("long"@)
    } else if specifier_token_at(s, pos, "float"@) {
        Some("float"@)
    } else if specifier_token_at(s, pos, "double"@) {
        Some("double"@)
    } else if specifier_token_at(s, pos, "signed"@) {
        Some("signed"@)
    } else if specifier_token_at(s, pos, "unsigned"@) {
        Some("unsigned"@)
    } else if specifier_token_at(s, pos, "_Bool"@) {
        Some("_Bool"@)
    } else if specifier_token_at(s, pos, "_Complex"@) {
        Some("_Complex"@)
    } else if specifier_token_at(s, pos, "size_t"@) {
        Some("size_t"@)
    } else {
        None
    }
}

/// The end of the run of `*` characters starting at `pos`.
pub open spec fn count_stars(s: Seq<char>, pos: int) -> int
    decreases s.len() - pos,
{
    if 0 <= pos < s.len() && s[pos] == '*' {
        count_stars(s, pos + 1)
    } else {
        pos
    }
}

/// Parses a C type at `pos`: qualifiers, exactly one specifier keyword
/// surrounded by optional whitespace, and the pointer stars. Finding no
/// specifier from the fixed set is a hard error.
pub open spec fn parse_type(s: Seq<char>, pos: int) -> Result<(TypeView, int), ParseError> {
    let quals = parse_qualifiers(s, pos);
    let p2 = skip_ws(s, quals.1);
    match specifier_at(s, p2) {
        Some(kw) => {
            let p3 = skip_ws(s, p2 + kw.len());
            let p4 = count_stars(s, p3);
            Ok(
                (
                    TypeView {
                        qualifiers: quals.0,
                        specifier: kw,
                        pointer: (p4 - p3) as nat,
                    },
                    p4,
                ),
            )
        },
        None => Err(ParseError { kind: ErrorKind::Type, offset: p2 as usize }),
    }
}

/// The qualifier list parse stays in bounds.
pub proof fn lemma_parse_qualifiers(s: Seq<char>, pos: int)
    requires
        0 <= pos <= s.len(),
    ensures
        pos <= parse_qualifiers(s, pos).1 <= s.len(),
    decreases s.len() - pos,
{
    lemma_qualifier_at(s, pos);
    if let Some((q, e)) = qualifier_at(s, pos) {
        lemma_parse_qualifiers(s, e);
    }
}

/// A found specifier fits in the input.
pub proof fn lemma_specifier_at(s: Seq<char>, pos: int)
    ensures
        specifier_at(s, pos) matches Some(kw) ==> pos >= 0 && pos + kw.len() <= s.len(),
{
}

/// The star run stays in bounds.
pub proof fn lemma_count_stars(s: Seq<char>, pos: int)
    requires
        0 <= pos <= s.len(),
    ensures
        pos <= count_stars(s, pos) <= s.len(),
    decreases s.len() - pos,
{
    if pos < s.len() && s[pos] == '*' {
        lemma_count_stars(s, pos + 1);
    }
}

/// A parsed type stays in bounds.
pub proof fn lemma_parse_type_bounds(s: Seq<char>, pos: int)
    requires
        0 <= pos <= s.len(),
    ensures
        parse_type(s, pos) matches Ok(p) ==> pos <= p.1 <= s.len(),
{
    lemma_parse_qualifiers(s, pos);
    let p1 = parse_qualifiers(s, pos).1;
    lemma_skip_ws(s, p1);
    let p2 = skip_ws(s, p1);
    lemma_specifier_at(s, p2);
    if let Some(kw) = specifier_at(s, p2) {
        lemma_skip_ws(s, p2 + kw.len());
        lemma_count_stars(s, skip_ws(s, p2 + kw.len()));
    }
}

/// Parses an identifier at `pos` and yields its text.
pub open spec fn parse_name(s: Seq<char>, pos: int) -> Result<(Seq<char>, int), ParseError> {
    match lex_identifier(s, pos) {
        Lex::Take(e) => Ok((s.subrange(pos, e), e)),
        Lex::More(o) => Err(ParseError { kind: ErrorKind::Incomplete, offset: o as usize }),
        Lex::Bad(o) => Err(ParseError { kind: ErrorKind::Lexical, offset: o as usize }),
    }
}

/// A parsed name moves forward and stays in bounds.
pub proof fn lemma_parse_name(s: Seq<char>, pos: int)
    requires
        0 <= pos <= s.len(),
    ensures
        parse_name(s, pos) matches Ok(p) ==> pos < p.1 <= s.len(),
{
    lemma_lex_identifier_nondigit_take(s, pos);
    if let Lex::Take(e0) = crate::basic::lex_identifier_nondigit(s, pos) {
        lemma_identifier_end(s, e0);
    }
}

/// Parses one parameter: optional whitespace, a type and a name.
pub open spec fn parse_parameter(s: Seq<char>, pos: int) -> Result<
    ((TypeView, Seq<char>), int),
    ParseError,
> {
    let p = skip_ws(s, pos);
    match parse_type(s, p) {
        Ok((t, p1)) => {
            let p2 = skip_ws(s, p1);
            match parse_name(s, p2) {
                Ok((n, p3)) => Ok(((t, n), p3)),
                Err(e) => Err(e),
            }
        },
        Err(e) => Err(e),
    }
}

/// Parses a non-empty parameter list, comma-separated, up to and including
/// the closing parenthesis.
pub open spec fn parse_parameters(s: Seq<char>, pos: int) -> Result<
    (Seq<(TypeView, Seq<char>)>, int),
    ParseError,
> {
    parse_parameters_rec(s, pos)
}

/// Recursion behind [`parse_parameters`].
pub open spec fn parse_parameters_rec(s: Seq<char>, pos: int) -> Result<
    (Seq<(TypeView, Seq<char>)>, int),
    ParseError,
>
    decreases s.len() - pos,
{
    match parse_parameter(s, pos) {
        Ok((prm, p1)) => {
            let p2 = skip_ws(s, p1);
            if p2 >= s.len() {
                Err(ParseError { kind: ErrorKind::Incomplete, offset: p2 as usize })
            } else if s[p2] == ',' {
                if pos < p2 + 1 <= s.len() {
                    match parse_parameters_rec(s, p2 + 1) {
                        Ok((rest, e)) => Ok((seq![prm] + rest, e)),
                        Err(e) => Err(e),
                    }
                } else {
                    Err(ParseError { kind: ErrorKind::Syntax, offset: p2 as usize })
                }
            } else if s[p2] == ')' {
                Ok((seq![prm], p2 + 1))
            } else {
                Err(ParseError { kind: ErrorKind::Syntax, offset: p2 as usize })
            }
        },
        Err(e) => Err(e),
    }
}

/// Parses one prototype without its terminating semicolon: return type,
/// name, and parenthesized parameter list, with optional whitespace
/// between the steps.
pub open spec fn parse_signature(s: Seq<char>, pos: int) -> Result<(FunctionView, int), ParseError> {
    let p0 = skip_ws(s, pos);
    match parse_type(s, p0) {
        Err(e) => Err(e),
        Ok((ret, p1)) => {
            let p2 = skip_ws(s, p1);
            match parse_name(s, p2) {
                Err(e) => Err(e),
                Ok((name, p3)) => {
                    let p4 = skip_ws(s, p3);
                    if p4 >= s.len() {
                        Err(ParseError { kind: ErrorKind::Incomplete, offset: p4 as usize })
                    } else if s[p4] != '(' {
                        Err(ParseError { kind: ErrorKind::Syntax, offset: p4 as usize })
                    } else {
                        let q = skip_ws(s, p4 + 1);
                        if q >= s.len() {
                            Err(ParseError { kind: ErrorKind::Incomplete, offset: q as usize })
                        } else if s[q] == ')' {
                            Ok(
                                (
                                    FunctionView {
                                        return_type: ret,
                                        name: name,
                                        parameters: Seq::<(TypeView, Seq<char>)>::empty(),
                                    },
                                    q + 1,
                                ),
                            )
                        } else {
                            match parse_parameters(s, p4 + 1) {
                                Err(e) => Err(e),
                                Ok((ps, p5)) => Ok(
                                    (
                                        FunctionView {
                                            return_type: ret,
                                            name: name,
                                            parameters: ps,
                                        },
                                        p5,
                                    ),
                                ),
                            }
                        }
                    }
                },
            }
        },
    }
}

/// Parses one prototype: a signature terminated by `;`. A body in place of
/// the semicolon is a syntax error.
pub open spec fn parse_function(s: Seq<char>, pos: int) -> Result<(FunctionView, int), ParseError> {
    match parse_signature(s, pos) {
        Err(e) => Err(e),
        Ok((f, p5)) => {
            let p6 = skip_ws(s, p5);
            if p6 >= s.len() {
                Err(ParseError { kind: ErrorKind::Incomplete, offset: p6 as usize })
            } else if s[p6] == ';' {
                Ok((f, p6 + 1))
            } else {
                Err(ParseError { kind: ErrorKind::Syntax, offset: p6 as usize })
            }
        },
    }
}

/// An error whose `Incomplete` kind, which has no meaning at the stream
/// level of a fully buffered input, is reinterpreted as a syntax error.
pub open spec fn harden(e: ParseError) -> ParseError {
    if e.kind == ErrorKind::Incomplete {
        ParseError { kind: ErrorKind::Syntax, offset: e.offset }
    } else {
        e
    }
}

/// Parses the whole input: declarations in encounter order until only
/// whitespace remains. Running out of input at a declaration boundary is
/// success; any other failure aborts the whole parse.
pub open spec fn parse_program(s: Seq<char>, pos: int) -> Result<Seq<FunctionView>, ParseError>
    decreases s.len() - pos,
{
    let p = skip_ws(s, pos);
    if p >= s.len() {
        Ok(Seq::<FunctionView>::empty())
    } else {
        match parse_function(s, p) {
            Err(e) => Err(harden(e)),
            Ok((f, e)) => if pos < e && e <= s.len() {
                match parse_program(s, e) {
                    Ok(fs) => Ok(seq![f] + fs),
                    Err(er) => Err(er),
                }
            } else {
                Err(ParseError { kind: ErrorKind::Syntax, offset: p as usize })
            },
        }
    }
}

/// Returns the first position at or after `pos` that holds no whitespace.
pub fn skip_whitespace(s: &str, pos: usize) -> (r: usize)
    requires
        pos <= s@.len(),
    ensures
        r as int == skip_ws(s@, pos as int),
        pos <= r <= s@.len(),
{
    let len = s.unicode_len();
    let mut cur = pos;
    loop
        invariant
            pos <= cur <= len,
            len as nat == s@.len(),
            skip_ws(s@, pos as int) == skip_ws(s@, cur as int),
        decreases len - cur,
    {
        if cur == len {
            return cur;
        }
        if !space_char(s.get_char(cur)) {
            return cur;
        }
        cur = cur + 1;
    }
}

/// Whether the characters of `kw` stand at `pos` in `s`.
fn match_keyword(s: &str, pos: usize, kw: &str) -> (r: bool)
    requires
        pos <= s@.len(),
    ensures
        r == match_keyword_at(s@, pos as int, kw@),
{
    let lk = kw.unicode_len();
    let ls = s.unicode_len();
    if ls - pos < lk {
        return false;
    }
    let mut i: usize = 0;
    while i < lk
        invariant
            i <= lk,
            lk as nat == kw@.len(),
            ls as nat == s@.len(),
            pos + lk <= ls,
            forall|j: int| 0 <= j < i ==> s@[pos + j] == kw@[j],
        decreases lk - i,
    {
        if s.get_char(pos + i) != kw.get_char(i) {
            proof {
                assert(s@.subrange(pos as int, pos + lk) != kw@) by {
                    assert(s@.subrange(pos as int, pos + lk)[i as int] == s@[pos + i]);
                }
            }
            return false;
        }
        i = i + 1;
    }
    proof {
        assert(s@.subrange(pos as int, pos + lk) =~= kw@);
    }
    true
}

/// Whether `end` is a token boundary: the end of the input or a character
/// that can continue no identifier.
fn at_keyword_boundary(s: &str, end: usize) -> (r: bool)
    requires
        end <= s@.len(),
    ensures
        r == keyword_boundary(s@, end as int),
{
    if end == s.unicode_len() {
        true
    } else {
        let c = s.get_char(end);
        !crate::basic::nondigit_char(c) && !crate::basic::digit_char(c)
    }
}

/// The end of `kw` when it stands at `pos` in `s`.
fn keyword_end(s: &str, pos: usize, kw: &str) -> (r: Option<usize>)
    requires
        pos <= s@.len(),
    ensures
        match r {
            Some(e) => match_keyword_at(s@, pos as int, kw@) && e as int == pos + kw@.len(),
            None => !match_keyword_at(s@, pos as int, kw@),
        },
{
    if match_keyword(s, pos, kw) {
        let ls = s.unicode_len();
        proof {
            assert(pos + kw@.len() <= ls);
        }
        Some(pos + kw.unicode_len())
    } else {
        None
    }
}

/// Looks for one qualifier keyword followed by whitespace at `pos`.
fn qualifier_lookup(s: &str, pos: usize) -> (r: Option<(TypeQualifier, usize)>)
    requires
        pos <= s@.len(),
    ensures
        match r {
            Some(p) => qualifier_at(s@, pos as int) == Some((p.0, p.1 as int)),
            None => qualifier_at(s@, pos as int) is None,
        },
{
    let cand: Option<(TypeQualifier, usize)> = if let Some(e) = keyword_end(s, pos, "const") {
        Some((TypeQualifier::Const, e))
    } else if let Some(e) = keyword_end(s, pos, "restrict") {
        Some((TypeQualifier::Restrict, e))
    } else if let Some(e) = keyword_end(s, pos, "volatile") {
        Some((TypeQualifier::Volatile, e))
    } else if let Some(e) = keyword_end(s, pos, "_Atomic") {
        Some((TypeQualifier::Atomic, e))
    } else {
        None
    };
    match cand {
        None => None,
        Some((q, e0)) => {
            let len = s.unicode_len();
            if e0 < len && space_char(s.get_char(e0)) {
                let e = skip_whitespace(s, e0);
                Some((q, e))
            } else {
                None
            }
        },
    }
}

/// Parses the qualifier list at `pos`.
fn parse_qualifiers_at(s: &str, pos: usize) -> (r: (Vec<TypeQualifier>, usize))
    requires
        pos <= s@.len(),
    ensures
        r.0@ == parse_qualifiers(s@, pos as int).0,
        r.1 as int == parse_qualifiers(s@, pos as int).1,
        pos <= r.1 <= s@.len(),
{
    let mut acc: Vec<TypeQualifier> = Vec::new();
    let mut cur = pos;
    proof {
        assert(acc@ + parse_qualifiers(s@, pos as int).0 =~= parse_qualifiers(s@, pos as int).0);
    }
    loop
        invariant
            pos <= cur <= s@.len(),
            parse_qualifiers(s@, pos as int).0 == acc@ + parse_qualifiers(s@, cur as int).0,
            parse_qualifiers(s@, pos as int).1 == parse_qualifiers(s@, cur as int).1,
        decreases s@.len() - cur,
    {
        match qualifier_lookup(s, cur) {
            None => {
                proof {
                    assert(acc@ + parse_qualifiers(s@, cur as int).0 =~= acc@);
                }
                return (acc, cur);
            },
            Some((q, e)) => {
                proof {
                    lemma_qualifier_at(s@, cur as int);
                    assert(acc@ + parse_qualifiers(s@, cur as int).0 =~= acc@.push(q)
                        + parse_qualifiers(s@, e as int).0);
                }
                acc.push(q);
                cur = e;
            },
        }
    }
}

/// Looks for the specifier keyword at `pos`, in the fixed order.
fn specifier_lookup(s: &str, pos: usize) -> (r: Option<(String, usize)>)
    requires
        pos <= s@.len(),
    ensures
        match r {
            Some(p) => specifier_at(s@, pos as int) == Some(p.0@) && p.1 as int == pos + p.0@.len()
                && pos <= p.1 <= s@.len(),
            None => specifier_at(s@, pos as int) is None,
        },
{
    let cand: Option<(&'static str, usize)> = if let Some(e) = try_specifier(s, pos, "void") {
        Some(("void", e))
    } else if let Some(e) = try_specifier(s, pos, "char") {
        Some(("char", e))
    } else if let Some(e) = try_specifier(s, pos, "short") {
        Some(("short", e))
    } else if let Some(e) = try_specifier(s, pos, "int") {
        Some(("int", e))
    } else if let Some(e) = try_specifier(s, pos, "long") {
        Some(("long", e))
    } else if let Some(e) = try_specifier(s, pos, "float") {
        Some(("float", e))
    } else if let Some(e) = try_specifier(s, pos, "double") {
        Some(("double", e))
    } else if let Some(e) = try_specifier(s, pos, "signed") {
        Some(("signed", e))
    } else if let Some(e) = try_specifier(s, pos, "unsigned") {
        Some(("unsigned", e))
    } else if let Some(e) = try_specifier(s, pos, "_Bool") {
        Some(("_Bool", e))
    } else if let Some(e) = try_specifier(s, pos, "_Complex") {
        Some(("_Complex", e))
    } else if let Some(e) = try_specifier(s, pos, "size_t") {
        Some(("size_t", e))
    } else {
        None
    };
    match cand {
        Some((kw, e)) => Some((String::from_str(kw), e)),
        None => None,
    }
}

/// The end of `kw` when it stands at `pos` as a whole token.
fn try_specifier(s: &str, pos: usize, kw: &str) -> (r: Option<usize>)
    requires
        pos <= s@.len(),
    ensures
        match r {
            Some(e) => specifier_token_at(s@, pos as int, kw@) && e as int == pos + kw@.len(),
            None => !specifier_token_at(s@, pos as int, kw@),
        },
{
    match keyword_end(s, pos, kw) {
        Some(e) => if at_keyword_boundary(s, e) {
            Some(e)
        } else {
            None
        },
        None => None,
    }
}

/// The end of the run of `*` characters starting at `pos`.
fn count_stars_at(s: &str, pos: usize) -> (r: usize)
    requires
        pos <= s@.len(),
    ensures
        r as int == count_stars(s@, pos as int),
        pos <= r <= s@.len(),
{
    let len = s.unicode_len();
    let mut cur = pos;
    loop
        invariant
            pos <= cur <= len,
            len as nat == s@.len(),
            count_stars(s@, pos as int) == count_stars(s@, cur as int),
        decreases len - cur,
    {
        if cur == len {
            return cur;
        }
        if s.get_char(cur) != '*' {
            return cur;
        }
        cur = cur + 1;
    }
}

/// Parses a C type at `pos`.
pub fn parse_type_at(s: &str, pos: usize) -> (r: Result<(Type, usize), ParseError>)
    requires
        pos <= s@.len(),
    ensures
        match r {
            Ok(p) => parse_type(s@, pos as int) == Ok::<(TypeView, int), ParseError>(
                (p.0@, p.1 as int),
            ) && pos <= p.1 <= s@.len(),
            Err(e) => parse_type(s@, pos as int) == Err::<(TypeView, int), ParseError>(e),
        },
{
    let (quals, p1) = parse_qualifiers_at(s, pos);
    let p2 = skip_whitespace(s, p1);
    match specifier_lookup(s, p2) {
        None => Err(ParseError { kind: ErrorKind::Type, offset: p2 }),
        Some((kw, e)) => {
            let p3 = skip_whitespace(s, e);
            let p4 = count_stars_at(s, p3);
            Ok((Type { qualifiers: quals, specifier: kw, pointer: p4 - p3 }, p4))
        },
    }
}

/// Parses an identifier at `pos` and yields its text.
pub fn parse_name_at(s: &str, pos: usize) -> (r: Result<(String, usize), ParseError>)
    requires
        pos <= s@.len(),
    ensures
        match r {
            Ok(p) => parse_name(s@, pos as int) == Ok::<(Seq<char>, int), ParseError>(
                (p.0@, p.1 as int),
            ) && pos < p.1 <= s@.len(),
            Err(e) => parse_name(s@, pos as int) == Err::<(Seq<char>, int), ParseError>(e),
        },
{
    match identifier(s, pos) {
        Ok(e) => {
            proof {
                lemma_parse_name(s@, pos as int);
            }
            let n = s.substring_char(pos, e);
            Ok((String::from_str(n), e))
        },
        Err(e) => Err(e),
    }
}

/// Parses one parameter at `pos`: optional whitespace, a type and a name.
fn parse_parameter_at(s: &str, pos: usize) -> (r: Result<((Type, String), usize), ParseError>)
    requires
        pos <= s@.len(),
    ensures
        match r {
            Ok(p) => parse_parameter(s@, pos as int) matches Ok(q) && q.0.0 == p.0.0@ && q.0.1
                == p.0.1@ && q.1 == p.1 as int && pos < p.1 <= s@.len(),
            Err(e) => parse_parameter(s@, pos as int) == Err::<((TypeView, Seq<char>), int), ParseError>(e),
        },
{
    let p = skip_whitespace(s, pos);
    match parse_type_at(s, p) {
        Err(e) => Err(e),
        Ok((t, p1)) => {
            let p2 = skip_whitespace(s, p1);
            match parse_name_at(s, p2) {
                Err(e) => Err(e),
                Ok((n, p3)) => Ok(((t, n), p3)),
            }
        },
    }
}

/// Parses a non-empty parameter list at `pos`, up to and including the
/// closing parenthesis.
fn parse_parameters_at(s: &str, pos: usize) -> (r: Result<(Vec<(Type, String)>, usize), ParseError>)
    requires
        pos <= s@.len(),
    ensures
        match r {
            Ok(p) => parse_parameters(s@, pos as int) == Ok::<
                (Seq<(TypeView, Seq<char>)>, int),
                ParseError,
            >((p.0@.map_values(|q: (Type, String)| (q.0@, q.1@)), p.1 as int)) && pos < p.1
                <= s@.len(),
            Err(e) => parse_parameters(s@, pos as int) == Err::<
                (Seq<(TypeView, Seq<char>)>, int),
                ParseError,
            >(e),
        },
    decreases s@.len() - pos,
{
    let len = s.unicode_len();
    match parse_parameter_at(s, pos) {
        Err(e) => Err(e),
        Ok((prm, p1)) => {
            let p2 = skip_whitespace(s, p1);
            if p2 == len {
                Err(ParseError { kind: ErrorKind::Incomplete, offset: p2 })
            } else {
                let c = s.get_char(p2);
                if c == ',' {
                    match parse_parameters_at(s, p2 + 1) {
                        Err(e) => Err(e),
                        Ok((mut rest, e)) => {
                            let ghost rest0 = rest@;
                            let ghost pv = (prm.0@, prm.1@);
                            rest.insert(0, prm);
                            proof {
                                assert(rest@.map_values(|q: (Type, String)| (q.0@, q.1@))
                                    =~= seq![pv] + rest0.map_values(
                                    |q: (Type, String)| (q.0@, q.1@),
                                ));
                            }
                            Ok((rest, e))
                        },
                    }
                } else if c == ')' {
                    let mut one: Vec<(Type, String)> = Vec::new();
                    one.push(prm);
                    proof {
                        assert(one@.map_values(|q: (Type, String)| (q.0@, q.1@)) =~= seq![
                            (prm.0@, prm.1@),
                        ]);
                    }
                    Ok((one, p2 + 1))
                } else {
                    Err(ParseError { kind: ErrorKind::Syntax, offset: p2 })
                }
            }
        },
    }
}

/// Parses one prototype at `pos` without its terminating semicolon.
pub fn parse_signature_at(s: &str, pos: usize) -> (r: Result<(Function, usize), ParseError>)
    requires
        pos <= s@.len(),
    ensures
        match r {
            Ok(p) => parse_signature(s@, pos as int) matches Ok(q) && q.0 == p.0@ && q.1
                == p.1 as int && pos <= p.1 <= s@.len(),
            Err(e) => parse_signature(s@, pos as int) == Err::<(FunctionView, int), ParseError>(e),
        },
{
    let p0 = skip_whitespace(s, pos);
    let (ret, p1) = match parse_type_at(s, p0) {
        Err(e) => {
            return Err(e);
        },
        Ok(p) => p,
    };
    let p2 = skip_whitespace(s, p1);
    let (name, p3) = match parse_name_at(s, p2) {
        Err(e) => {
            return Err(e);
        },
        Ok(p) => p,
    };
    let p4 = skip_whitespace(s, p3);
    let len = s.unicode_len();
    if p4 == len {
        return Err(ParseError { kind: ErrorKind::Incomplete, offset: p4 });
    }
    if s.get_char(p4) != '(' {
        return Err(ParseError { kind: ErrorKind::Syntax, offset: p4 });
    }
    let q = skip_whitespace(s, p4 + 1);
    if q == len {
        return Err(ParseError { kind: ErrorKind::Incomplete, offset: q });
    }
    if s.get_char(q) == ')' {
        let f = Function { return_type: ret, name: name, parameters: Vec::new() };
        proof {
            assert(f@.parameters =~= Seq::<(TypeView, Seq<char>)>::empty());
        }
        return Ok((f, q + 1));
    }
    match parse_parameters_at(s, p4 + 1) {
        Err(e) => Err(e),
        Ok((ps, p5)) => {
            let f = Function { return_type: ret, name: name, parameters: ps };
            Ok((f, p5))
        },
    }
}

/// Parses one prototype at `pos`: a signature terminated by `;`.
pub fn parse_function_at(s: &str, pos: usize) -> (r: Result<(Function, usize), ParseError>)
    requires
        pos <= s@.len(),
    ensures
        match r {
            Ok(p) => parse_function(s@, pos as int) matches Ok(q) && q.0 == p.0@ && q.1
                == p.1 as int && pos < p.1 <= s@.len(),
            Err(e) => parse_function(s@, pos as int) == Err::<(FunctionView, int), ParseError>(e),
        },
{
    match parse_signature_at(s, pos) {
        Err(e) => Err(e),
        Ok((f, p5)) => {
            let p6 = skip_whitespace(s, p5);
            if p6 == s.unicode_len() {
                Err(ParseError { kind: ErrorKind::Incomplete, offset: p6 })
            } else if s.get_char(p6) == ';' {
                Ok((f, p6 + 1))
            } else {
                Err(ParseError { kind: ErrorKind::Syntax, offset: p6 })
            }
        },
    }
}

/// The rest of a stream parse, seen after `prefix` declarations already
/// parsed.
pub open spec fn program_with_prefix(
    prefix: Seq<FunctionView>,
    rest: Result<Seq<FunctionView>, ParseError>,
) -> Result<Seq<FunctionView>, ParseError> {
    match rest {
        Ok(fs) => Ok(prefix + fs),
        Err(e) => Err(e),
    }
}

/// Reinterprets an `Incomplete` failure as a syntax error.
fn harden_error(e: ParseError) -> (r: ParseError)
    ensures
        r == harden(e),
{
    if e.kind == ErrorKind::Incomplete {
        ParseError { kind: ErrorKind::Syntax, offset: e.offset }
    } else {
        e
    }
}

/// Applies the declaration parser repeatedly across the whole input,
/// collecting the declarations in encounter order; any parse failure
/// aborts the whole stream.
pub fn parse_program_at(s: &str) -> (r: Result<Vec<Function>, ParseError>)
    ensures
        match r {
            Ok(v) => parse_program(s@, 0) == Ok::<Seq<FunctionView>, ParseError>(
                v@.map_values(|f: Function| f@),
            ),
            Err(e) => parse_program(s@, 0) == Err::<Seq<FunctionView>, ParseError>(e),
        },
{
    let mut acc: Vec<Function> = Vec::new();
    let mut cur: usize = 0;
    let len = s.unicode_len();
    proof {
        assert(acc@.map_values(|f: Function| f@) + parse_program(s@, 0)->Ok_0 =~= parse_program(
            s@,
            0,
        )->Ok_0);
    }
    loop
        invariant
            cur <= len,
            len as nat == s@.len(),
            parse_program(s@, 0) == program_with_prefix(
                acc@.map_values(|f: Function| f@),
                parse_program(s@, cur as int),
            ),
        decreases len - cur,
    {
        let p = skip_whitespace(s, cur);
        if p == len {
            proof {
                assert(acc@.map_values(|f: Function| f@) + Seq::<FunctionView>::empty()
                    =~= acc@.map_values(|f: Function| f@));
            }
            return Ok(acc);
        }
        match parse_function_at(s, p) {
            Err(e) => {
                return Err(harden_error(e));
            },
            Ok((f, e)) => {
                proof {
                    let m = acc@.map_values(|g: Function| g@);
                    let m2 = acc@.push(f).map_values(|g: Function| g@);
                    assert(m.push(f@) =~= m2);
                    if let Ok(fs) = parse_program(s@, e as int) {
                        assert(m + (seq![f@] + fs) =~= m2 + fs);
                    }
                }
                acc.push(f);
                cur = e;
            },
        }
    }
}

} // verus!
