//! Laws of the lexer and of the output assembly, stated over the same spec
//! functions that the exec functions' contracts use.

use vstd::prelude::*;
use crate::ast::{is_identifier_text, FunctionView};
use crate::basic::{
    identifier_end, is_digit, is_hex_digit, is_nondigit, lex_hex_quad, lex_hex_run,
    lex_identifier, lex_identifier_char, lex_identifier_nondigit,
    lex_universal_character_name, lemma_identifier_end, lemma_lex_identifier_char_take,
    lemma_lex_identifier_nondigit_take, lemma_lex_hex_run_take, Lex, ParseError,
};
use crate::parser::parse_program;
use crate::render::definition_text;
use crate::{definitions_text, header_text, output_text};

verus! {

/// A consumed run of `n` hexadecimal digits lies in bounds and has a
/// hexadecimal digit at each of its `n` positions.
pub proof fn lemma_hex_run_chars(s: Seq<char>, pos: int, n: nat)
    requires
        lex_hex_run(s, pos, n) matches Lex::Take(_),
    ensures
        pos + n <= s.len() || n == 0,
        forall|j: int| pos <= j < pos + n ==> is_hex_digit(#[trigger] s[j]),
    decreases n,
{
    lemma_lex_hex_run_take(s, pos, n);
    if n > 0 {
        lemma_hex_run_chars(s, pos + 1, (n - 1) as nat);
        assert forall|j: int| pos <= j < pos + n implies is_hex_digit(#[trigger] s[j]) by {
            if j > pos {
                assert(pos + 1 <= j < pos + 1 + ((n - 1) as nat));
                assert(is_hex_digit(s[j]));
            }
        }
    }
}

/// A hex quad is rejected whenever fewer than four hexadecimal digits, or
/// any non-hexadecimal character, stand in the first four positions.
pub proof fn lemma_hex_quad_rejects(s: Seq<char>, pos: int)
    requires
        exists|j: int| pos <= j < pos + 4 && !(j < s.len() && is_hex_digit(#[trigger] s[j])),
    ensures
        !(lex_hex_quad(s, pos) matches Lex::Take(_)),
{
    if lex_hex_quad(s, pos) matches Lex::Take(_) {
        lemma_hex_run_chars(s, pos, 4);
        let j = choose|j: int|
            pos <= j < pos + 4 && !(j < s.len() && is_hex_digit(#[trigger] s[j]));
        assert(is_hex_digit(s[j]));
        assert(false);
    }
}

/// A universal-character-name needs exactly four hexadecimal digits after
/// `\u` and exactly eight after `\U`; any shorter run of hexadecimal
/// digits fails.
pub proof fn lemma_universal_character_name_exact(s: Seq<char>, pos: int)
    ensures
        lex_universal_character_name(s, pos) matches Lex::Take(e) ==> pos + 1 < s.len()
            && s[pos] == '\\' && ((s[pos + 1] == 'u' && e == pos + 6) || (s[pos + 1] == 'U' && e
            == pos + 10)),
        (pos + 1 < s.len() && s[pos] == '\\' && s[pos + 1] == 'u' && (exists|j: int|
            pos + 2 <= j < pos + 6 && !(j < s.len() && is_hex_digit(#[trigger] s[j]))))
            ==> !(lex_universal_character_name(s, pos) matches Lex::Take(_)),
        (pos + 1 < s.len() && s[pos] == '\\' && s[pos + 1] == 'U' && (exists|j: int|
            pos + 2 <= j < pos + 10 && !(j < s.len() && is_hex_digit(#[trigger] s[j]))))
            ==> !(lex_universal_character_name(s, pos) matches Lex::Take(_)),
{
    lemma_lex_hex_run_take(s, pos + 2, 4);
    lemma_lex_hex_run_take(s, pos + 2, 8);
    if pos + 1 < s.len() && s[pos] == '\\' && s[pos + 1] == 'u' && (exists|j: int|
        pos + 2 <= j < pos + 6 && !(j < s.len() && is_hex_digit(#[trigger] s[j])))
        && (lex_universal_character_name(s, pos) matches Lex::Take(_)) {
        lemma_hex_run_chars(s, pos + 2, 4);
        let j = choose|j: int|
            pos + 2 <= j < pos + 6 && !(j < s.len() && is_hex_digit(#[trigger] s[j]));
        assert(is_hex_digit(s[j]));
        assert(false);
    }
    if pos + 1 < s.len() && s[pos] == '\\' && s[pos + 1] == 'U' && (exists|j: int|
        pos + 2 <= j < pos + 10 && !(j < s.len() && is_hex_digit(#[trigger] s[j])))
        && (lex_universal_character_name(s, pos) matches Lex::Take(_)) {
        lemma_hex_run_chars(s, pos + 2, 8);
        let j = choose|j: int|
            pos + 2 <= j < pos + 10 && !(j < s.len() && is_hex_digit(#[trigger] s[j]));
        assert(is_hex_digit(s[j]));
        assert(false);
    }
}

/// A consumed run of hexadecimal digits reads the same characters at the
/// same offset of a longer input.
pub proof fn lemma_hex_run_shift(q: Seq<char>, s: Seq<char>, p: int, i: int, n: nat)
    requires
        0 <= p,
        0 <= i,
        p + q.len() <= s.len(),
        s.subrange(p, p + q.len()) == q,
        lex_hex_run(q, i, n) matches Lex::Take(e) && e <= q.len(),
    ensures
        lex_hex_run(s, p + i, n) == Lex::Take(p + i + n),
    decreases n,
{
    lemma_lex_hex_run_take(q, i, n);
    if n > 0 {
        assert(s[p + i] == s.subrange(p, p + q.len())[i]);
        lemma_hex_run_shift(q, s, p, i + 1, (n - 1) as nat);
    }
}

/// A consumed identifier continuation character is consumed alike at the
/// same offset of a longer input.
pub proof fn lemma_id_char_shift(q: Seq<char>, s: Seq<char>, p: int, i: int)
    requires
        0 <= p,
        0 <= i,
        p + q.len() <= s.len(),
        s.subrange(p, p + q.len()) == q,
        lex_identifier_char(q, i) matches Lex::Take(e) && e <= q.len(),
    ensures
        lex_identifier_char(s, p + i) == Lex::Take(p + (lex_identifier_char(q, i)->Take_0)),
{
    lemma_lex_identifier_char_take(q, i);
    assert(i < q.len());
    assert(s[p + i] == s.subrange(p, p + q.len())[i]);
    if is_nondigit(q[i]) {
        assert(lex_identifier_char(s, p + i) == Lex::Take(p + i + 1));
    } else if is_digit(q[i]) {
        assert(lex_identifier_char(s, p + i) == Lex::Take(p + i + 1));
    } else {
        assert(i + 1 < q.len());
        assert(s[p + i + 1] == s.subrange(p, p + q.len())[i + 1]);
        if q[i + 1] == 'u' {
            lemma_lex_hex_run_take(q, i + 2, 4);
            lemma_hex_run_shift(q, s, p, i + 2, 4);
            assert(lex_identifier_char(s, p + i) == Lex::Take(p + i + 6));
            assert(lex_identifier_char(q, i) == Lex::Take(i + 6));
        } else {
            lemma_lex_hex_run_take(q, i + 2, 8);
            lemma_hex_run_shift(q, s, p, i + 2, 8);
            assert(lex_identifier_char(s, p + i) == Lex::Take(p + i + 10));
            assert(lex_identifier_char(q, i) == Lex::Take(i + 10));
        }
    }
}

/// The maximal run of identifier continuation characters that exactly
/// reaches the end of `q` reaches the same point at the same offset of a
/// longer input whose next character continues no identifier.
pub proof fn lemma_identifier_end_shift(q: Seq<char>, s: Seq<char>, p: int, i: int)
    requires
        0 <= p,
        0 <= i <= q.len(),
        p + q.len() <= s.len(),
        s.subrange(p, p + q.len()) == q,
        identifier_end(q, i) == q.len(),
        lex_identifier_char(s, p + q.len()) matches Lex::Bad(_),
    ensures
        identifier_end(s, p + i) == p + q.len(),
    decreases q.len() - i,
{
    lemma_lex_identifier_char_take(q, i);
    match lex_identifier_char(q, i) {
        Lex::Take(e) => {
            lemma_id_char_shift(q, s, p, i);
            lemma_identifier_end_shift(q, s, p, e);
        },
        _ => {
            assert(identifier_end(q, i) == i);
        },
    }
}

/// For an input that begins with a well-formed identifier followed by a
/// character that can continue no identifier, the identifier lexer consumes
/// exactly that identifier: it stops at the first disallowed character.
pub proof fn lemma_identifier_at(s: Seq<char>, p: int, q: Seq<char>)
    requires
        0 <= p,
        p + q.len() <= s.len(),
        s.subrange(p, p + q.len()) == q,
        is_identifier_text(q),
        lex_identifier_char(s, p + q.len()) matches Lex::Bad(_),
    ensures
        lex_identifier(s, p) == Lex::Take(p + q.len()),
{
    lemma_lex_identifier_nondigit_take(q, 0);
    let e0 = lex_identifier_nondigit(q, 0)->Take_0;
    assert(0 < q.len());
    assert(s[p] == s.subrange(p, p + q.len())[0]);
    if is_nondigit(q[0]) {
        assert(lex_identifier_nondigit(s, p) == Lex::Take(p + 1));
        assert(e0 == 1);
    } else {
        assert(q[0] == '\\');
        assert(1 < q.len());
        assert(s[p + 1] == s.subrange(p, p + q.len())[1]);
        if q[1] == 'u' {
            lemma_lex_hex_run_take(q, 2, 4);
            lemma_hex_run_shift(q, s, p, 2, 4);
            assert(lex_identifier_nondigit(s, p) == Lex::Take(p + 6));
            assert(e0 == 6);
        } else {
            assert(q[1] == 'U');
            lemma_lex_hex_run_take(q, 2, 8);
            lemma_hex_run_shift(q, s, p, 2, 8);
            assert(lex_identifier_nondigit(s, p) == Lex::Take(p + 10));
            assert(e0 == 10);
        }
    }
    assert(lex_identifier_nondigit(s, p) == Lex::Take(p + e0));
    lemma_identifier_end_shift(q, s, p, e0);
}

/// A character that is no letter, digit, underscore or backslash can
/// continue no identifier.
pub proof fn lemma_delimiter_stops_identifier(s: Seq<char>, b: int)
    requires
        0 <= b < s.len(),
        !is_nondigit(s[b]),
        !is_digit(s[b]),
        s[b] != '\\',
    ensures
        lex_identifier_char(s, b) matches Lex::Bad(_),
{
}

/// The identifier lexer consumes the maximal valid prefix: an input that is
/// one well-formed identifier followed by a character that can continue no
/// identifier lexes to exactly that identifier, and the reported stop point
/// is the position of the first disallowed character.
pub proof fn lemma_identifier_maximal(q: Seq<char>, rest: Seq<char>)
    requires
        is_identifier_text(q),
        lex_identifier_char(q + rest, q.len() as int) matches Lex::Bad(_),
    ensures
        lex_identifier(q + rest, 0) == Lex::Take(q.len() as int),
{
    assert((q + rest).subrange(0, q.len() as int) =~= q);
    lemma_identifier_at(q + rest, 0, q);
}

/// The output for a list of two declarations keeps their order: the header,
/// then the first declaration's definition, then, separated from it by
/// exactly one blank line, the second's. Each definition ends with its own
/// newline, so the separating newline makes the blank line.
pub proof fn lemma_two_declarations_output(
    s: Seq<char>,
    dbg: Seq<char>,
    f1: FunctionView,
    f2: FunctionView,
)
    requires
        parse_program(s, 0) == Ok::<Seq<FunctionView>, ParseError>(seq![f1, f2]),
    ensures
        output_text(seq![f1, f2], dbg) == header_text() + ("\n"@ + definition_text(f1, dbg)) + (
        "\n"@ + definition_text(f2, dbg)),
        definition_text(f1, dbg).len() > 0 && definition_text(f1, dbg).last() == '\n',
{
    let fs = seq![f1, f2];
    reveal_with_fuel(definitions_text, 4);
    assert(fs.drop_first() =~= seq![f2]);
    assert(seq![f2].drop_first() =~= Seq::<FunctionView>::empty());
    assert(definitions_text(Seq::<FunctionView>::empty(), dbg) == Seq::<char>::empty());
    assert(definitions_text(seq![f2], dbg) =~= "\n"@ + definition_text(f2, dbg));
    assert(definitions_text(fs, dbg) =~= "\n"@ + definition_text(f1, dbg) + ("\n"@
        + definition_text(f2, dbg)));
    assert(output_text(fs, dbg) =~= header_text() + ("\n"@ + definition_text(f1, dbg)) + ("\n"@
        + definition_text(f2, dbg)));
    reveal_strlit("}\n");
    assert(definition_text(f1, dbg).last() == '\n');
}

} // verus!


