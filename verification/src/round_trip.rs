//! The signature round trip: re-parsing the rendered signature of a
//! well-formed declaration reproduces the declaration exactly.

use vstd::prelude::*;
use crate::ast::{is_identifier_text, is_specifier_keyword, wf_type, wf_function, FunctionView, TypeQualifier, TypeView};
use crate::basic::{
    identifier_end, is_digit, is_nondigit, is_space, lemma_identifier_end,
    lemma_lex_hex_run_take, lemma_lex_identifier_char_take, lemma_lex_identifier_nondigit_take,
    lex_hex_run, lex_identifier, lex_identifier_char, lex_identifier_nondigit, Lex, ParseError,
};
use crate::laws::{lemma_delimiter_stops_identifier, lemma_identifier_at};
use crate::parser::{
    count_stars, keyword_boundary, lemma_parse_name, lemma_parse_type_bounds, lemma_skip_ws,
    match_keyword_at, parse_name, parse_parameter, parse_parameters_rec, parse_qualifiers,
    parse_signature, parse_type, qualifier_at, skip_ws, specifier_at, specifier_token_at,
};
use crate::render::{
    parameter_text, parameter_type_gap, parameters_text, qualifier_text, qualifiers_text,
    signature_text, stars_text,
};

verus! {

/// A keyword cannot stand at `pos` when one of its characters differs from
/// the input there.
proof fn lemma_kw_mismatch(s: Seq<char>, p: int, kw: Seq<char>, j: int)
    requires
        0 <= j < kw.len(),
        p + j < s.len() ==> s[p + j] != kw[j],
    ensures
        !match_keyword_at(s, p, kw),
{
    if match_keyword_at(s, p, kw) {
        assert(s.subrange(p, p + kw.len())[j] == kw[j]);
        assert(s[p + j] == kw[j]);
        assert(false);
    }
}

/// The star run has one `*` at each of its positions.
proof fn lemma_stars_text(n: nat)
    ensures
        stars_text(n).len() == n,
        forall|i: int| 0 <= i < n ==> stars_text(n)[i] == '*',
    decreases n,
{
    reveal_strlit("*");
    if n > 0 {
        lemma_stars_text((n - 1) as nat);
        assert forall|i: int| 0 <= i < n implies stars_text(n)[i] == '*' by {
            if i > 0 {
                assert(stars_text((n - 1) as nat)[i - 1] == '*');
            }
        }
    }
}

/// A run of `n` stars bounded by a non-star character counts as `n`.
proof fn lemma_count_stars_run(s: Seq<char>, p: int, n: nat)
    requires
        0 <= p,
        p + n <= s.len(),
        forall|j: int| p <= j < p + n ==> #[trigger] s[j] == '*',
        p + n == s.len() || s[p + n] != '*',
    ensures
        count_stars(s, p) == p + n,
    decreases n,
{
    if n == 0 {
    } else {
        assert(s[p] == '*');
        lemma_count_stars_run(s, p + 1, (n - 1) as nat);
    }
}

/// A qualifier keyword begins with a nondigit.
proof fn lemma_qualifier_text_first(q: TypeQualifier)
    ensures
        qualifier_text(q).len() > 0,
        is_nondigit(qualifier_text(q)[0]),
{
    reveal_strlit("const");
    reveal_strlit("restrict");
    reveal_strlit("volatile");
    reveal_strlit("_Atomic");
}

/// A specifier keyword begins with a nondigit.
proof fn lemma_specifier_keyword_first(kw: Seq<char>)
    requires
        is_specifier_keyword(kw),
    ensures
        kw.len() > 0,
        is_nondigit(kw[0]),
{
    reveal_strlit("void");
    reveal_strlit("char");
    reveal_strlit("short");
    reveal_strlit("int");
    reveal_strlit("long");
    reveal_strlit("float");
    reveal_strlit("double");
    reveal_strlit("signed");
    reveal_strlit("unsigned");
    reveal_strlit("_Bool");
    reveal_strlit("_Complex");
    reveal_strlit("size_t");
}

/// The rendered text before a name decomposes uniformly: qualifiers, the
/// specifier, one space, and the star run.
proof fn lemma_type_gap_decomposition(t: TypeView)
    ensures
        parameter_type_gap(t) == qualifiers_text(t.qualifiers) + t.specifier + " "@ + stars_text(
            t.pointer,
        ),
{
    if t.pointer == 0 {
        assert(parameter_type_gap(t) =~= qualifiers_text(t.qualifiers) + t.specifier + " "@
            + stars_text(t.pointer));
    } else {
        assert(parameter_type_gap(t) =~= qualifiers_text(t.qualifiers) + t.specifier + " "@
            + stars_text(t.pointer));
    }
}

/// The rendered text before a name begins with a nondigit.
proof fn lemma_type_gap_first(t: TypeView)
    requires
        wf_type(t),
    ensures
        parameter_type_gap(t).len() > 0,
        is_nondigit(parameter_type_gap(t)[0]),
{
    lemma_type_gap_decomposition(t);
    lemma_specifier_keyword_first(t.specifier);
    if t.qualifiers.len() == 0 {
        assert(qualifiers_text(t.qualifiers).len() == 0);
        assert(parameter_type_gap(t)[0] == t.specifier[0]);
    } else {
        lemma_qualifier_text_first(t.qualifiers[0]);
        assert(parameter_type_gap(t)[0] == qualifier_text(t.qualifiers[0])[0]);
    }
}

/// A well-formed identifier begins with a nondigit or a backslash.
proof fn lemma_identifier_text_first(q: Seq<char>)
    requires
        is_identifier_text(q),
    ensures
        q.len() > 0,
        is_nondigit(q[0]) || q[0] == '\\',
{
}

/// No qualifier keyword followed by whitespace stands where a specifier
/// keyword stands.
proof fn lemma_no_qualifier_at_specifier(s: Seq<char>, p: int, kw: Seq<char>)
    requires
        0 <= p,
        is_specifier_keyword(kw),
        p + kw.len() <= s.len(),
        s.subrange(p, p + kw.len()) == kw,
    ensures
        qualifier_at(s, p) is None,
{
    reveal_strlit("const");
    reveal_strlit("restrict");
    reveal_strlit("volatile");
    reveal_strlit("_Atomic");
    lemma_specifier_keyword_first(kw);
    assert(s[p] == s.subrange(p, p + kw.len())[0]);
    reveal_strlit("void");
    reveal_strlit("char");
    reveal_strlit("short");
    reveal_strlit("int");
    reveal_strlit("long");
    reveal_strlit("float");
    reveal_strlit("double");
    reveal_strlit("signed");
    reveal_strlit("unsigned");
    reveal_strlit("_Bool");
    reveal_strlit("_Complex");
    reveal_strlit("size_t");
    if kw.len() > 1 {
        assert(s[p + 1] == s.subrange(p, p + kw.len())[1]);
    }
    if kw.len() > 2 {
        assert(s[p + 2] == s.subrange(p, p + kw.len())[2]);
    }
    if kw == "char"@ {
        lemma_kw_mismatch(s, p, "const"@, 1);
    } else {
        lemma_kw_mismatch(s, p, "const"@, 0);
    }
    lemma_kw_mismatch(s, p, "restrict"@, 0);
    if kw == "void"@ {
        lemma_kw_mismatch(s, p, "volatile"@, 2);
    } else {
        lemma_kw_mismatch(s, p, "volatile"@, 0);
    }
    if kw == "_Bool"@ || kw == "_Complex"@ {
        lemma_kw_mismatch(s, p, "_Atomic"@, 1);
    } else {
        lemma_kw_mismatch(s, p, "_Atomic"@, 0);
    }
}

/// Where a specifier keyword stands as a whole token, the specifier lookup
/// finds exactly that keyword.
proof fn lemma_specifier_at_render(s: Seq<char>, p: int, kw: Seq<char>)
    requires
        0 <= p,
        is_specifier_keyword(kw),
        p + kw.len() < s.len(),
        s.subrange(p, p + kw.len()) == kw,
        s[p + kw.len()] == ' ',
    ensures
        specifier_at(s, p) == Some(kw),
{
    reveal_strlit("void");
    reveal_strlit("char");
    reveal_strlit("short");
    reveal_strlit("int");
    reveal_strlit("long");
    reveal_strlit("float");
    reveal_strlit("double");
    reveal_strlit("signed");
    reveal_strlit("unsigned");
    reveal_strlit("_Bool");
    reveal_strlit("_Complex");
    reveal_strlit("size_t");
    lemma_specifier_keyword_first(kw);
    assert(s[p] == s.subrange(p, p + kw.len())[0]);
    if kw.len() > 1 {
        assert(s[p + 1] == s.subrange(p, p + kw.len())[1]);
    }
    if kw.len() > 2 {
        assert(s[p + 2] == s.subrange(p, p + kw.len())[2]);
    }
    assert(match_keyword_at(s, p, kw));
    assert(keyword_boundary(s, p + kw.len()));
    assert(specifier_token_at(s, p, kw));
    if kw != "void"@ {
        lemma_kw_mismatch(s, p, "void"@, 0);
    }
    if kw != "char"@ && kw != "void"@ {
        lemma_kw_mismatch(s, p, "char"@, 0);
    }
    if kw == "signed"@ || kw == "size_t"@ {
        lemma_kw_mismatch(s, p, "short"@, 1);
    } else if kw != "short"@ && kw != "void"@ && kw != "char"@ {
        lemma_kw_mismatch(s, p, "short"@, 0);
    }
    if kw == "size_t"@ {
        lemma_kw_mismatch(s, p, "signed"@, 2);
        lemma_kw_mismatch(s, p, "int"@, 0);
        lemma_kw_mismatch(s, p, "long"@, 0);
        lemma_kw_mismatch(s, p, "float"@, 0);
        lemma_kw_mismatch(s, p, "double"@, 0);
        lemma_kw_mismatch(s, p, "unsigned"@, 0);
        lemma_kw_mismatch(s, p, "_Bool"@, 0);
        lemma_kw_mismatch(s, p, "_Complex"@, 0);
    }
    if kw == "unsigned"@ || kw == "_Bool"@ || kw == "_Complex"@ {
        lemma_kw_mismatch(s, p, "int"@, 0);
        lemma_kw_mismatch(s, p, "long"@, 0);
        lemma_kw_mismatch(s, p, "float"@, 0);
        lemma_kw_mismatch(s, p, "double"@, 0);
        lemma_kw_mismatch(s, p, "signed"@, 0);
    }
    if kw == "_Bool"@ || kw == "_Complex"@ {
        lemma_kw_mismatch(s, p, "unsigned"@, 0);
    }
    if kw == "_Complex"@ {
        lemma_kw_mismatch(s, p, "_Bool"@, 1);
    }
    if kw == "long"@ || kw == "float"@ || kw == "double"@ || kw == "signed"@ {
        lemma_kw_mismatch(s, p, "int"@, 0);
    }
    if kw == "float"@ || kw == "double"@ || kw == "signed"@ {
        lemma_kw_mismatch(s, p, "long"@, 0);
    }
    if kw == "double"@ || kw == "signed"@ {
        lemma_kw_mismatch(s, p, "float"@, 0);
    }
    if kw == "signed"@ {
        lemma_kw_mismatch(s, p, "double"@, 0);
    }
}

/// Where a qualifier list stands, followed by something that is no further
/// qualifier, the qualifier parser reads exactly that list.
proof fn lemma_parse_qualifiers_render(s: Seq<char>, p: int, qs: Seq<TypeQualifier>, b: int)
    requires
        0 <= p,
        b == p + qualifiers_text(qs).len(),
        b < s.len(),
        s.subrange(p, b) == qualifiers_text(qs),
        qualifier_at(s, b) is None,
        !is_space(s[b]),
    ensures
        parse_qualifiers(s, p) == (qs, b),
    decreases qs.len(),
{
    reveal_strlit("const");
    reveal_strlit("restrict");
    reveal_strlit("volatile");
    reveal_strlit("_Atomic");
    reveal_strlit(" ");
    if qs.len() == 0 {
        assert(qs =~= Seq::<TypeQualifier>::empty());
        assert(parse_qualifiers(s, p) == (Seq::<TypeQualifier>::empty(), p));
    } else {
        let kw = qualifier_text(qs[0]);
        let k = kw.len() as int;
        let rest_text = qualifiers_text(qs.drop_first());
        assert(qualifiers_text(qs) == kw + " "@ + rest_text);
        assert(s[p + k] == s.subrange(p, b)[k]);
        assert(s[p + k] == ' ');
        // the keyword of the first qualifier stands at p
        assert(s.subrange(p, p + k) =~= kw);
        assert(s[p] == s.subrange(p, b)[0]);
        // no earlier keyword of the fixed order stands there
        if qs[0] != TypeQualifier::Const {
            lemma_kw_mismatch(s, p, "const"@, 0);
        }
        if qs[0] != TypeQualifier::Const && qs[0] != TypeQualifier::Restrict {
            lemma_kw_mismatch(s, p, "restrict"@, 0);
        }
        if qs[0] == TypeQualifier::Atomic {
            lemma_kw_mismatch(s, p, "volatile"@, 0);
        }
        // the character after the space begins the next keyword or `b`
        if qs.len() == 1 {
            assert(rest_text.len() == 0);
            assert(p + k + 1 == b);
        } else {
            lemma_qualifier_text_first(qs.drop_first()[0]);
            assert(rest_text[0] == qualifier_text(qs.drop_first()[0])[0]);
            assert(s[p + k + 1] == s.subrange(p, b)[k + 1]);
            assert(s[p + k + 1] == rest_text[0]);
        }
        assert(p + k + 1 == b || !is_space(s[p + k + 1]));
        assert(skip_ws(s, p + k + 1) == p + k + 1);
        assert(skip_ws(s, p + k) == skip_ws(s, p + k + 1));
        assert(qualifier_at(s, p) == Some((qs[0], p + k + 1)));
        assert forall|i: int|
            0 <= i < rest_text.len() implies s.subrange(p + k + 1, b)[i] == rest_text[i] by {
            assert(s.subrange(p, b)[k + 1 + i] == qualifiers_text(qs)[k + 1 + i]);
            assert(qualifiers_text(qs)[k + 1 + i] == rest_text[i]);
            assert(s.subrange(p + k + 1, b)[i] == s[p + k + 1 + i]);
            assert(s.subrange(p, b)[k + 1 + i] == s[p + k + 1 + i]);
        }
        assert(s.subrange(p + k + 1, b) =~= rest_text);
        lemma_parse_qualifiers_render(s, p + k + 1, qs.drop_first(), b);
        assert(seq![qs[0]] + qs.drop_first() =~= qs);
    }
}

/// Where a rendered type stands, followed by a character that neither
/// whitespace nor a star, the type parser reads exactly that type.
proof fn lemma_parse_type_render(s: Seq<char>, p: int, t: TypeView, b: int)
    requires
        0 <= p,
        wf_type(t),
        b == p + parameter_type_gap(t).len(),
        b < s.len(),
        s.subrange(p, b) == parameter_type_gap(t),
        !is_space(s[b]),
        s[b] != '*',
    ensures
        parse_type(s, p) == Ok::<(TypeView, int), ParseError>((t, b)),
{
    reveal_strlit(" ");
    lemma_type_gap_decomposition(t);
    lemma_specifier_keyword_first(t.specifier);
    lemma_stars_text(t.pointer);
    let qt = qualifiers_text(t.qualifiers);
    let sp = p + qt.len();
    let se = sp + t.specifier.len() as int;
    let st = se + 1;
    assert forall|i: int| 0 <= i < t.specifier.len() implies s.subrange(sp, se)[i]
        == t.specifier[i] by {
        assert(s.subrange(p, b)[sp - p + i] == parameter_type_gap(t)[sp - p + i]);
        assert(parameter_type_gap(t)[sp - p + i] == t.specifier[i]);
        assert(s.subrange(sp, se)[i] == s[sp + i]);
        assert(s.subrange(p, b)[sp - p + i] == s[sp + i]);
    }
    assert(s.subrange(sp, se) =~= t.specifier);
    assert(s[se] == s.subrange(p, b)[se - p]);
    assert(s[se] == ' ');
    // the qualifier list ends at the specifier
    lemma_no_qualifier_at_specifier(s, sp, t.specifier);
    assert(s[sp] == t.specifier[0]);
    assert forall|i: int| 0 <= i < qt.len() implies s.subrange(p, sp)[i] == qt[i] by {
        assert(s.subrange(p, b)[i] == parameter_type_gap(t)[i]);
        assert(parameter_type_gap(t)[i] == qt[i]);
        assert(s.subrange(p, sp)[i] == s[p + i]);
        assert(s.subrange(p, b)[i] == s[p + i]);
    }
    assert(s.subrange(p, sp) =~= qt);
    lemma_parse_qualifiers_render(s, p, t.qualifiers, sp);
    assert(parse_qualifiers(s, p) == (t.qualifiers, sp));
    assert(skip_ws(s, sp) == sp);
    // the specifier keyword stands at sp, followed by one space
    lemma_specifier_at_render(s, sp, t.specifier);
    // the space is skipped; the star run follows
    assert forall|j: int| st <= j < b implies #[trigger] s[j] == '*' by {
        assert(s[j] == s.subrange(p, b)[j - p]);
        assert(parameter_type_gap(t)[j - p] == stars_text(t.pointer)[j - st]);
        assert(stars_text(t.pointer)[j - st] == '*');
    }
    if t.pointer == 0 {
        assert(st == b);
        assert(skip_ws(s, b) == b);
        assert(skip_ws(s, se) == skip_ws(s, b));
    } else {
        assert(s[st] == s.subrange(p, b)[st - p]);
        assert(s[st] == '*');
        assert(skip_ws(s, st) == st);
        assert(skip_ws(s, se) == skip_ws(s, st));
    }
    lemma_count_stars_run(s, st, t.pointer);
    assert(count_stars(s, st) == b);
    if t.pointer == 0 {
        assert(count_stars(s, b) == b);
    }
    assert(parse_type(s, p) == Ok::<(TypeView, int), ParseError>(
        (TypeView { qualifiers: t.qualifiers, specifier: t.specifier, pointer: (b - st) as nat }, b),
    ));
    assert(TypeView { qualifiers: t.qualifiers, specifier: t.specifier, pointer: (b - st) as nat }
        == t);
}

/// Where a rendered parameter stands, followed by a delimiter, the
/// parameter parser reads exactly that parameter.
proof fn lemma_parse_parameter_render(
    s: Seq<char>,
    p: int,
    prm: (TypeView, Seq<char>),
    pstart: int,
    b: int,
)
    requires
        0 <= p <= s.len(),
        wf_type(prm.0),
        is_identifier_text(prm.1),
        skip_ws(s, p) == pstart,
        b == pstart + parameter_text(prm).len(),
        b < s.len(),
        s.subrange(pstart, b) == parameter_text(prm),
        !is_nondigit(s[b]),
        !is_digit(s[b]),
        s[b] != '\\',
        s[b] != '*',
        !is_space(s[b]),
    ensures
        parse_parameter(s, p) == Ok::<((TypeView, Seq<char>), int), ParseError>((prm, b)),
{
    lemma_skip_ws(s, p);
    let gap = parameter_type_gap(prm.0);
    let bt = pstart + gap.len();
    assert(parameter_text(prm) == gap + prm.1);
    lemma_identifier_text_first(prm.1);
    assert forall|i: int| 0 <= i < gap.len() implies s.subrange(pstart, bt)[i] == gap[i] by {
        assert(s.subrange(pstart, b)[i] == parameter_text(prm)[i]);
        assert(parameter_text(prm)[i] == gap[i]);
        assert(s.subrange(pstart, bt)[i] == s[pstart + i]);
        assert(s.subrange(pstart, b)[i] == s[pstart + i]);
    }
    assert(s.subrange(pstart, bt) =~= gap);
    assert(s[bt] == s.subrange(pstart, b)[bt - pstart]);
    assert(s[bt] == prm.1[0]);
    lemma_parse_type_render(s, pstart, prm.0, bt);
    assert(skip_ws(s, bt) == bt);
    assert forall|i: int| 0 <= i < prm.1.len() implies s.subrange(bt, b)[i] == prm.1[i] by {
        assert(s.subrange(pstart, b)[gap.len() + i] == parameter_text(prm)[gap.len() + i]);
        assert(parameter_text(prm)[gap.len() + i] == prm.1[i]);
        assert(s.subrange(bt, b)[i] == s[bt + i]);
        assert(s.subrange(pstart, b)[gap.len() + i] == s[pstart + gap.len() + i]);
    }
    assert(s.subrange(bt, b) =~= prm.1);
    lemma_delimiter_stops_identifier(s, b);
    lemma_identifier_at(s, bt, prm.1);
    assert(parse_name(s, bt) == Ok::<(Seq<char>, int), ParseError>((s.subrange(bt, b), b)));
    assert(s.subrange(bt, b) == prm.1);
}

/// Where a rendered parameter list stands, up to its closing parenthesis,
/// the parameter list parser reads exactly that list.
proof fn lemma_parse_parameters_render(
    s: Seq<char>,
    p: int,
    ps: Seq<(TypeView, Seq<char>)>,
    pstart: int,
    b: int,
)
    requires
        ps.len() >= 1,
        forall|i: int| 0 <= i < ps.len() ==> wf_type(#[trigger] ps[i].0),
        forall|i: int| 0 <= i < ps.len() ==> is_identifier_text(#[trigger] ps[i].1),
        0 <= p <= s.len(),
        skip_ws(s, p) == pstart,
        b == pstart + parameters_text(ps).len(),
        b < s.len(),
        s.subrange(pstart, b) == parameters_text(ps),
        s[b] == ')',
    ensures
        parse_parameters_rec(s, p) == Ok::<(Seq<(TypeView, Seq<char>)>, int), ParseError>(
            (ps, b + 1),
        ),
    decreases ps.len(),
{
    reveal_strlit(", ");
    lemma_skip_ws(s, p);
    if ps.len() == 1 {
        assert(parameters_text(ps) == parameter_text(ps[0]));
        lemma_parse_parameter_render(s, p, ps[0], pstart, b);
        assert(skip_ws(s, b) == b);
        assert(seq![ps[0]] =~= ps);
    } else {
        let p0 = parameter_text(ps[0]);
        let e0 = pstart + p0.len();
        let rest = ps.drop_first();
        let rest_text = parameters_text(rest);
        assert(parameters_text(ps) == p0 + ", "@ + rest_text);
        assert forall|i: int| 0 <= i < p0.len() implies s.subrange(pstart, e0)[i] == p0[i] by {
            assert(s.subrange(pstart, b)[i] == parameters_text(ps)[i]);
            assert(parameters_text(ps)[i] == p0[i]);
            assert(s.subrange(pstart, e0)[i] == s[pstart + i]);
            assert(s.subrange(pstart, b)[i] == s[pstart + i]);
        }
        assert(s.subrange(pstart, e0) =~= p0);
        assert(s[e0] == s.subrange(pstart, b)[e0 - pstart]);
        assert(s[e0] == ',');
        assert(s[e0 + 1] == s.subrange(pstart, b)[e0 + 1 - pstart]);
        assert(s[e0 + 1] == ' ');
        lemma_parse_parameter_render(s, p, ps[0], pstart, e0);
        assert(skip_ws(s, e0) == e0);
        assert(rest[0] == ps[1]);
        lemma_type_gap_first(rest[0].0);
        assert(rest_text[0] == parameter_text(rest[0])[0]);
        assert(rest_text[0] == parameter_type_gap(rest[0].0)[0]);
        assert(s[e0 + 2] == s.subrange(pstart, b)[e0 + 2 - pstart]);
        assert(s[e0 + 2] == rest_text[0]);
        assert(skip_ws(s, e0 + 2) == e0 + 2);
        assert(skip_ws(s, e0 + 1) == skip_ws(s, e0 + 2));
        assert forall|i: int| 0 <= i < rest_text.len() implies s.subrange(e0 + 2, b)[i]
            == rest_text[i] by {
            assert(s.subrange(pstart, b)[e0 + 2 - pstart + i] == parameters_text(ps)[e0 + 2
                - pstart + i]);
            assert(parameters_text(ps)[e0 + 2 - pstart + i] == rest_text[i]);
            assert(s.subrange(e0 + 2, b)[i] == s[e0 + 2 + i]);
            assert(s.subrange(pstart, b)[e0 + 2 - pstart + i] == s[e0 + 2 + i]);
        }
        assert(s.subrange(e0 + 2, b) =~= rest_text);
        assert forall|i: int| 0 <= i < rest.len() implies wf_type(#[trigger] rest[i].0) by {
            assert(wf_type(ps[i + 1].0));
        }
        assert forall|i: int| 0 <= i < rest.len() implies is_identifier_text(
            #[trigger] rest[i].1,
        ) by {
            assert(is_identifier_text(ps[i + 1].1));
        }
        lemma_parse_parameters_render(s, e0 + 1, rest, e0 + 2, b);
        assert(seq![ps[0]] + rest =~= ps);
    }
}

/// Re-parsing the generator's own rendered signature for a well-formed
/// declaration reproduces exactly the declaration's return type, name and
/// parameters, consuming the whole text.
pub proof fn lemma_signature_round_trip(f: FunctionView)
    requires
        wf_function(f),
    ensures
        parse_signature(signature_text(f, false), 0) == Ok::<(FunctionView, int), ParseError>(
            (f, signature_text(f, false).len() as int),
        ),
{
    reveal_strlit("(");
    reveal_strlit(")");
    let s = signature_text(f, false);
    let gap = parameter_type_gap(f.return_type);
    let g = gap.len() as int;
    let nm = f.name.len() as int;
    let ne = g + nm;
    let q0 = ne + 1;
    let pt = parameters_text(f.parameters);
    let pe = q0 + pt.len() as int;
    assert(s =~= gap + f.name + "("@ + pt + ")"@);
    assert(s.len() == pe + 1);
    lemma_type_gap_first(f.return_type);
    lemma_identifier_text_first(f.name);
    assert(s[0] == gap[0]);
    assert(skip_ws(s, 0) == 0);
    assert forall|i: int| 0 <= i < g implies s.subrange(0, g)[i] == gap[i] by {
        assert(s.subrange(0, g)[i] == s[i]);
        assert(s[i] == (gap + f.name + "("@ + pt + ")"@)[i]);
    }
    assert(s.subrange(0, g) =~= gap);
    assert(s[g] == f.name[0]);
    lemma_parse_type_render(s, 0, f.return_type, g);
    assert(skip_ws(s, g) == g);
    assert forall|i: int| 0 <= i < nm implies s.subrange(g, ne)[i] == f.name[i] by {
        assert(s.subrange(g, ne)[i] == s[g + i]);
        assert(s[g + i] == (gap + f.name + "("@ + pt + ")"@)[g + i]);
    }
    assert(s.subrange(g, ne) =~= f.name);
    assert(s[ne] == '(');
    lemma_delimiter_stops_identifier(s, ne);
    lemma_identifier_at(s, g, f.name);
    assert(parse_name(s, g) == Ok::<(Seq<char>, int), ParseError>((s.subrange(g, ne), ne)));
    assert(skip_ws(s, ne) == ne);
    assert(s[pe] == ')');
    if f.parameters.len() == 0 {
        assert(q0 == pe);
        assert(skip_ws(s, q0) == q0);
        assert(FunctionView {
            return_type: f.return_type,
            name: s.subrange(g, ne),
            parameters: Seq::<(TypeView, Seq<char>)>::empty(),
        } =~= f);
        assert(parse_signature(s, 0) == Ok::<(FunctionView, int), ParseError>((f, pe + 1)));
    } else {
        lemma_type_gap_first(f.parameters[0].0);
        assert(pt[0] == parameter_text(f.parameters[0])[0]);
        assert(pt[0] == parameter_type_gap(f.parameters[0].0)[0]);
        assert(s[q0] == pt[0]);
        assert(skip_ws(s, q0) == q0);
        assert(s[q0] != ')');
        assert forall|i: int| 0 <= i < pt.len() implies s.subrange(q0, pe)[i] == pt[i] by {
            assert(s.subrange(q0, pe)[i] == s[q0 + i]);
            assert(s[q0 + i] == (gap + f.name + "("@ + pt + ")"@)[q0 + i]);
        }
        assert(s.subrange(q0, pe) =~= pt);
        lemma_parse_parameters_render(s, q0, f.parameters, q0, pe);
        assert(FunctionView {
            return_type: f.return_type,
            name: s.subrange(g, ne),
            parameters: f.parameters,
        } =~= f);
        assert(parse_signature(s, 0) == Ok::<(FunctionView, int), ParseError>((f, pe + 1)));
    }
}

/// A consumed run of hexadecimal digits is consumed alike in the window
/// cut from the input around it.
proof fn lemma_hex_run_restrict(s: Seq<char>, pos: int, e: int, i: int, n: nat)
    requires
        0 <= pos <= i,
        i + n <= e <= s.len(),
        lex_hex_run(s, i, n) matches Lex::Take(_),
    ensures
        lex_hex_run(s.subrange(pos, e), i - pos, n) == Lex::Take(i - pos + n),
    decreases n,
{
    lemma_lex_hex_run_take(s, i, n);
    if n > 0 {
        assert(s.subrange(pos, e)[i - pos] == s[i]);
        lemma_hex_run_restrict(s, pos, e, i + 1, (n - 1) as nat);
    }
}

/// A consumed identifier continuation character is consumed alike in the
/// window cut from the input around it.
proof fn lemma_id_char_restrict(s: Seq<char>, pos: int, e: int, i: int)
    requires
        0 <= pos <= i,
        e <= s.len(),
        lex_identifier_char(s, i) matches Lex::Take(k) && k <= e,
    ensures
        lex_identifier_char(s.subrange(pos, e), i - pos) == Lex::Take(
            (lex_identifier_char(s, i)->Take_0) - pos,
        ),
{
    lemma_lex_identifier_char_take(s, i);
    let q = s.subrange(pos, e);
    assert(q[i - pos] == s[i]);
    if is_nondigit(s[i]) {
        assert(lex_identifier_char(q, i - pos) == Lex::Take(i - pos + 1));
    } else if is_digit(s[i]) {
        assert(lex_identifier_char(q, i - pos) == Lex::Take(i - pos + 1));
    } else {
        lemma_lex_hex_run_take(s, i + 2, 4);
        lemma_lex_hex_run_take(s, i + 2, 8);
        assert(i + 1 < e);
        assert(q[i - pos + 1] == s[i + 1]);
        if s[i + 1] == 'u' {
            lemma_hex_run_restrict(s, pos, e, i + 2, 4);
            assert(lex_identifier_char(q, i - pos) == Lex::Take(i - pos + 6));
        } else {
            lemma_hex_run_restrict(s, pos, e, i + 2, 8);
            assert(lex_identifier_char(q, i - pos) == Lex::Take(i - pos + 10));
        }
    }
}

/// The maximal run of identifier continuation characters ends alike in the
/// window that it exactly fills.
proof fn lemma_identifier_end_restrict(s: Seq<char>, pos: int, e: int, i: int)
    requires
        0 <= pos <= i <= e <= s.len(),
        identifier_end(s, i) == e,
    ensures
        identifier_end(s.subrange(pos, e), i - pos) == e - pos,
    decreases e - i,
{
    lemma_lex_identifier_char_take(s, i);
    let q = s.subrange(pos, e);
    match lex_identifier_char(s, i) {
        Lex::Take(k) => {
            lemma_identifier_end(s, k);
            assert(identifier_end(s, i) == identifier_end(s, k));
            assert(k <= e);
            lemma_id_char_restrict(s, pos, e, i);
            lemma_identifier_end_restrict(s, pos, e, k);
        },
        _ => {
            assert(identifier_end(s, i) == i);
            assert(i == e);
        },
    }
}

/// What the identifier lexer consumes is itself a well-formed identifier.
pub proof fn lemma_lexed_identifier_text(s: Seq<char>, pos: int)
    requires
        0 <= pos,
        lex_identifier(s, pos) matches Lex::Take(_),
    ensures
        is_identifier_text(s.subrange(pos, lex_identifier(s, pos)->Take_0)),
{
    lemma_lex_identifier_nondigit_take(s, pos);
    let e0 = lex_identifier_nondigit(s, pos)->Take_0;
    lemma_identifier_end(s, e0);
    let e = identifier_end(s, e0);
    assert(lex_identifier(s, pos) == Lex::Take(e));
    assert(pos < e0 <= e <= s.len());
    let q = s.subrange(pos, e);
    assert(q[0] == s[pos]);
    if is_nondigit(s[pos]) {
        assert(lex_identifier_nondigit(q, 0) == Lex::Take(1));
        assert(e0 == pos + 1);
    } else {
        assert(q[1] == s[pos + 1]);
        if s[pos + 1] == 'u' {
            lemma_lex_hex_run_take(s, pos + 2, 4);
            lemma_hex_run_restrict(s, pos, e, pos + 2, 4);
            assert(lex_identifier_nondigit(q, 0) == Lex::Take(6));
            assert(e0 == pos + 6);
        } else {
            lemma_lex_hex_run_take(s, pos + 2, 8);
            lemma_hex_run_restrict(s, pos, e, pos + 2, 8);
            assert(lex_identifier_nondigit(q, 0) == Lex::Take(10));
            assert(e0 == pos + 10);
        }
    }
    lemma_identifier_end_restrict(s, pos, e, e0);
}

/// A parsed type is well-formed: its specifier is drawn from the fixed set.
proof fn lemma_parse_type_wf(s: Seq<char>, pos: int)
    ensures
        parse_type(s, pos) matches Ok(p) ==> wf_type(p.0),
{
}

/// A parsed name is a well-formed identifier.
proof fn lemma_parse_name_wf(s: Seq<char>, pos: int)
    requires
        0 <= pos,
    ensures
        parse_name(s, pos) matches Ok(p) ==> is_identifier_text(p.0),
{
    if let Ok(p) = parse_name(s, pos) {
        lemma_lexed_identifier_text(s, pos);
    }
}

/// A parsed parameter list holds well-formed types and names throughout.
proof fn lemma_parse_parameters_wf(s: Seq<char>, pos: int)
    requires
        0 <= pos <= s.len(),
    ensures
        parse_parameters_rec(s, pos) matches Ok(r) ==> forall|i: int|
            0 <= i < r.0.len() ==> wf_type(#[trigger] r.0[i].0),
        parse_parameters_rec(s, pos) matches Ok(r) ==> forall|i: int|
            0 <= i < r.0.len() ==> is_identifier_text(#[trigger] r.0[i].1),
    decreases s.len() - pos,
{
    if let Ok(r) = parse_parameters_rec(s, pos) {
        lemma_skip_ws(s, pos);
        let pp = skip_ws(s, pos);
        lemma_parse_type_wf(s, pp);
        lemma_parse_type_bounds(s, pp);
        let tr = parse_type(s, pp)->Ok_0;
        lemma_skip_ws(s, tr.1);
        let p2 = skip_ws(s, tr.1);
        lemma_parse_name_wf(s, p2);
        lemma_parse_name(s, p2);
        let nr = parse_name(s, p2)->Ok_0;
        let prm = (tr.0, nr.0);
        lemma_skip_ws(s, nr.1);
        let p3 = skip_ws(s, nr.1);
        if p3 < s.len() && s[p3] == ',' {
            lemma_parse_parameters_wf(s, p3 + 1);
            let rest = parse_parameters_rec(s, p3 + 1)->Ok_0.0;
            assert(r.0 == seq![prm] + rest);
            assert forall|i: int| 0 <= i < r.0.len() implies wf_type(#[trigger] r.0[i].0) by {
                if i > 0 {
                    assert(r.0[i] == rest[i - 1]);
                    assert(wf_type(rest[i - 1].0));
                }
            }
            assert forall|i: int| 0 <= i < r.0.len() implies is_identifier_text(
                #[trigger] r.0[i].1,
            ) by {
                if i > 0 {
                    assert(r.0[i] == rest[i - 1]);
                    assert(is_identifier_text(rest[i - 1].1));
                }
            }
        } else {
            assert(r.0 == seq![prm]);
        }
    }
}

/// Every declaration the signature parser yields is well-formed.
pub proof fn lemma_parse_signature_wf(s: Seq<char>, pos: int)
    requires
        0 <= pos <= s.len(),
    ensures
        parse_signature(s, pos) matches Ok(p) ==> wf_function(p.0),
{
    if let Ok(p) = parse_signature(s, pos) {
        lemma_skip_ws(s, pos);
        let p0 = skip_ws(s, pos);
        lemma_parse_type_wf(s, p0);
        lemma_parse_type_bounds(s, p0);
        let tr = parse_type(s, p0)->Ok_0;
        lemma_skip_ws(s, tr.1);
        let p2 = skip_ws(s, tr.1);
        lemma_parse_name_wf(s, p2);
        lemma_parse_name(s, p2);
        let nr = parse_name(s, p2)->Ok_0;
        lemma_skip_ws(s, nr.1);
        let p4 = skip_ws(s, nr.1);
        lemma_skip_ws(s, p4 + 1);
        lemma_parse_parameters_wf(s, p4 + 1);
    }
}

/// The round trip for parsed declarations: re-parsing the rendered
/// signature of any declaration the signature parser yields reproduces that
/// declaration exactly.
pub proof fn lemma_parsed_signature_round_trip(s: Seq<char>, pos: int)
    requires
        0 <= pos <= s.len(),
    ensures
        parse_signature(s, pos) matches Ok(p) ==> parse_signature(
            signature_text(p.0, false),
            0,
        ) == Ok::<(FunctionView, int), ParseError>(
            (p.0, signature_text(p.0, false).len() as int),
        ),
{
    if let Ok(p) = parse_signature(s, pos) {
        lemma_parse_signature_wf(s, pos);
        lemma_signature_round_trip(p.0);
    }
}

} // verus!
