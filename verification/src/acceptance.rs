//! What the readers of the library accept: numbers in fields, grok tokens,
//! lines of pattern files, and the fields a parse reports.

use vstd::prelude::*;
use crate::laws::{lemma_decimal_digits, lemma_decimal_value};
use crate::numbers::{
    ascii_lower, digit_run_end, digits_value, float_error, is_decimal_number, is_digit,
    is_exponent_tail, is_float_literal, parse_i64,
};
use crate::laws::{lemma_alias_of_index, lemma_name_index_from};
use crate::pattern::{
    AliasSpec, PatternSpec, ValueSpec, alias_index_from, alias_of, alias_pass, convert, group_text,
    name_index_from, named_pass, parse_result,
};
use crate::text::decimal;
use crate::table::{
    definition_of, definitions_map, definitions_of, first_space, is_space_char, space_run_end, space_run_start, trim,
};
use crate::token::{FieldType, TokenSpec, alias_end, has_at, is_alias_char, is_word_char, token_at, word_end};

verus! {

/// Every character of `s` is one of `0` to `9`.
pub open spec fn all_digits(s: Seq<char>) -> bool {
    forall|i: int| 0 <= i < s.len() ==> '0' <= #[trigger] s[i] && s[i] <= '9'
}

/// A run of digits that starts at `i` ends at `j`, where a non-digit or the
/// end of the text stands.
proof fn lemma_digit_run_to(s: Seq<char>, i: int, j: int)
    requires
        0 <= i <= j <= s.len(),
        forall|k: int| i <= k < j ==> is_digit(s[k]),
        j == s.len() || !is_digit(s[j]),
    ensures
        digit_run_end(s, i) == j,
    decreases j - i,
{
    if i < j {
        lemma_digit_run_to(s, i + 1, j);
    }
}

/// Lower-casing leaves digits and dots as they are.
proof fn lemma_lower_digits_dots(s: Seq<char>)
    requires
        forall|i: int| 0 <= i < s.len() ==> ('0' <= #[trigger] s[i] && s[i] <= '9') || s[i] == '.',
    ensures
        s.map_values(|c: char| ascii_lower(c)) == s,
{
    assert(s.map_values(|c: char| ascii_lower(c)) =~= s);
}

/// A decimal literal is a float: digits alone (at least one), or digits, a
/// dot and digits with at least one digit in all, whatever the number of
/// digits on either side. A `float` field holding one reads as that literal.
pub proof fn law_decimal_literals_are_floats(a: Seq<char>, f: Seq<char>)
    requires
        all_digits(a),
        all_digits(f),
    ensures
        a.len() > 0 ==> float_error(a) is None,
        a.len() + f.len() > 0 ==> float_error(a + seq!['.'] + f) is None,
        a.len() > 0 ==> convert(Some(FieldType::Float), a) == Ok::<ValueSpec, Seq<char>>(
            ValueSpec::Float(a),
        ),
        a.len() + f.len() > 0 ==> convert(Some(FieldType::Float), a + seq!['.'] + f) == Ok::<
            ValueSpec,
            Seq<char>,
        >(ValueSpec::Float(a + seq!['.'] + f)),
{
    if a.len() > 0 {
        lemma_lower_digits_dots(a);
        lemma_digit_run_to(a, 0, a.len() as int);
        assert(a[0] != '+' && a[0] != '-' && a[0] != 'i' && a[0] != 'n');
        assert(a != seq!['i', 'n', 'f']);
        assert(a != seq!['i', 'n', 'f', 'i', 'n', 'i', 't', 'y']);
        assert(a != seq!['n', 'a', 'n']);
        assert(is_exponent_tail(a, a.len() as int));
        assert(is_decimal_number(a));
        assert(is_float_literal(a));
    }
    if a.len() + f.len() > 0 {
        let t = a + seq!['.'] + f;
        assert forall|i: int| 0 <= i < t.len() implies ('0' <= #[trigger] t[i] && t[i] <= '9')
            || t[i] == '.' by {
            if i < a.len() {
                assert(t[i] == a[i]);
            } else if i > a.len() {
                assert(t[i] == f[i - a.len() - 1]);
            }
        }
        lemma_lower_digits_dots(t);
        assert(t[a.len() as int] == '.');
        assert forall|k: int| 0 <= k < a.len() implies is_digit(t[k]) by {
            assert(t[k] == a[k]);
        }
        lemma_digit_run_to(t, 0, a.len() as int);
        assert forall|k: int| a.len() + 1 <= k < t.len() implies is_digit(t[k]) by {
            assert(t[k] == f[k - a.len() - 1]);
        }
        lemma_digit_run_to(t, a.len() as int + 1, t.len() as int);
        assert(t[0] != '+' && t[0] != '-' && t[0] != 'i' && t[0] != 'n') by {
            if a.len() > 0 {
                assert(t[0] == a[0]);
            }
        }
        assert(t != seq!['i', 'n', 'f']);
        assert(t != seq!['i', 'n', 'f', 'i', 'n', 'i', 't', 'y']);
        assert(t != seq!['n', 'a', 'n']);
        assert(is_exponent_tail(t, t.len() as int));
        assert(is_decimal_number(t));
        assert(is_float_literal(t));
    }
}

/// Whether a float literal is accepted does not depend on the case of its
/// letters.
pub proof fn law_float_case_does_not_matter(s: Seq<char>)
    ensures
        float_error(s) == float_error(s.map_values(|c: char| ascii_lower(c))),
{
    let l = s.map_values(|c: char| ascii_lower(c));
    assert(l.map_values(|c: char| ascii_lower(c)) =~= l);
}

/// A sign: nothing, `+` or `-`.
pub open spec fn is_sign(s: Seq<char>) -> bool {
    s == Seq::<char>::empty() || s == seq!['+'] || s == seq!['-']
}

proof fn lemma_decimal_with_exponent(a: Seq<char>, f: Seq<char>, es: Seq<char>, g: Seq<char>)
    requires
        all_digits(a),
        all_digits(f),
        all_digits(g),
        is_sign(es),
        g.len() > 0,
    ensures
        a.len() > 0 ==> is_decimal_number(a + seq!['e'] + es + g),
        a.len() + f.len() > 0 ==> is_decimal_number(a + seq!['.'] + f + seq!['e'] + es + g),
{
    let al = a.len() as int;
    let fl = f.len() as int;
    let el = es.len() as int;
    if a.len() > 0 {
        let u = a + seq!['e'] + es + g;
        assert forall|k: int| 0 <= k < al implies is_digit(u[k]) by {
            assert(u[k] == a[k]);
        }
        assert(u[al] == 'e');
        lemma_digit_run_to(u, 0, al);
        assert(el > 0 ==> u[al + 1] == es[0]);
        let fpos = al + 1 + el;
        assert forall|k: int| fpos <= k < u.len() implies is_digit(u[k]) by {
            assert(u[k] == g[k - fpos]);
        }
        lemma_digit_run_to(u, fpos, u.len() as int);
        assert(el == 0 ==> !(u[al + 1] == '+' || u[al + 1] == '-')) by {
            if el == 0 {
                assert(u[al + 1] == g[0]);
            }
        }
        assert(is_exponent_tail(u, al));
    }
    if a.len() + f.len() > 0 {
        let u = a + seq!['.'] + f + seq!['e'] + es + g;
        assert forall|k: int| 0 <= k < al implies is_digit(u[k]) by {
            assert(u[k] == a[k]);
        }
        assert(u[al] == '.');
        lemma_digit_run_to(u, 0, al);
        assert forall|k: int| al + 1 <= k < al + 1 + fl implies is_digit(u[k]) by {
            assert(u[k] == f[k - al - 1]);
        }
        let b = al + 1 + fl;
        assert(u[b] == 'e');
        lemma_digit_run_to(u, al + 1, b);
        assert(el > 0 ==> u[b + 1] == es[0]);
        let fpos = b + 1 + el;
        assert forall|k: int| fpos <= k < u.len() implies is_digit(u[k]) by {
            assert(u[k] == g[k - fpos]);
        }
        lemma_digit_run_to(u, fpos, u.len() as int);
        assert(el == 0 ==> !(u[b + 1] == '+' || u[b + 1] == '-')) by {
            if el == 0 {
                assert(u[b + 1] == g[0]);
            }
        }
        assert(is_exponent_tail(u, b));
    }
}

/// Signs, digits, dots and `e` only.
pub open spec fn plain_float_chars(s: Seq<char>) -> bool {
    forall|i: int|
        0 <= i < s.len() ==> ('0' <= #[trigger] s[i] && s[i] <= '9') || s[i] == '.' || s[i] == 'e'
            || s[i] == '+' || s[i] == '-'
}

proof fn lemma_plain_concat(x: Seq<char>, y: Seq<char>)
    requires
        plain_float_chars(x),
        plain_float_chars(y),
    ensures
        plain_float_chars(x + y),
{
    assert forall|i: int| 0 <= i < (x + y).len() implies ('0' <= #[trigger] (x + y)[i] && (x + y)[i]
        <= '9') || (x + y)[i] == '.' || (x + y)[i] == 'e' || (x + y)[i] == '+' || (x + y)[i]
        == '-' by {
        if i < x.len() {
            assert((x + y)[i] == x[i]);
        } else {
            assert((x + y)[i] == y[i - x.len()]);
        }
    }
}

/// A decimal number with an optional sign in front is accepted.
proof fn lemma_signed_decimal(lead: Seq<char>, u: Seq<char>)
    requires
        is_sign(lead),
        plain_float_chars(u),
        u.len() > 0,
        ('0' <= u[0] && u[0] <= '9') || u[0] == '.',
        is_decimal_number(u),
    ensures
        float_error(lead + u) is None,
{
    let t = lead + u;
    assert(plain_float_chars(lead));
    lemma_plain_concat(lead, u);
    assert(t.map_values(|c: char| ascii_lower(c)) =~= t);
    assert(u != seq!['i', 'n', 'f']);
    assert(u != seq!['i', 'n', 'f', 'i', 'n', 'i', 't', 'y']);
    assert(u != seq!['n', 'a', 'n']);
    if lead.len() == 0 {
        assert(t =~= u);
    } else {
        assert(t.drop_first() =~= u);
        assert(t[0] == '+' || t[0] == '-');
    }
    assert(is_float_literal(t));
}

proof fn lemma_digits_plain(a: Seq<char>)
    requires
        all_digits(a),
    ensures
        plain_float_chars(a),
{
}

proof fn lemma_form_exponent(lead: Seq<char>, a: Seq<char>, es: Seq<char>, g: Seq<char>)
    requires
        is_sign(lead),
        all_digits(a),
        is_sign(es),
        all_digits(g),
        g.len() > 0,
        a.len() > 0,
    ensures
        float_error(lead + a + seq!['e'] + es + g) is None,
{
    lemma_decimal_with_exponent(a, Seq::empty(), es, g);
    lemma_digits_plain(a);
    lemma_digits_plain(g);
    assert(plain_float_chars(es));
    assert(plain_float_chars(seq!['e']));
    lemma_plain_concat(a, seq!['e']);
    lemma_plain_concat(a + seq!['e'], es);
    lemma_plain_concat(a + seq!['e'] + es, g);
    let u = a + seq!['e'] + es + g;
    assert(u[0] == a[0]);
    lemma_signed_decimal(lead, u);
    assert(lead + a + seq!['e'] + es + g =~= lead + u);
}

proof fn lemma_form_fraction_exponent(
    lead: Seq<char>,
    a: Seq<char>,
    f: Seq<char>,
    es: Seq<char>,
    g: Seq<char>,
)
    requires
        is_sign(lead),
        all_digits(a),
        all_digits(f),
        is_sign(es),
        all_digits(g),
        g.len() > 0,
        a.len() + f.len() > 0,
    ensures
        float_error(lead + a + seq!['.'] + f + seq!['e'] + es + g) is None,
{
    lemma_decimal_with_exponent(a, f, es, g);
    lemma_digits_plain(a);
    lemma_digits_plain(f);
    lemma_digits_plain(g);
    assert(plain_float_chars(es));
    assert(plain_float_chars(seq!['.']));
    assert(plain_float_chars(seq!['e']));
    lemma_plain_concat(a, seq!['.']);
    lemma_plain_concat(a + seq!['.'], f);
    lemma_plain_concat(a + seq!['.'] + f, seq!['e']);
    lemma_plain_concat(a + seq!['.'] + f + seq!['e'], es);
    lemma_plain_concat(a + seq!['.'] + f + seq!['e'] + es, g);
    let u = a + seq!['.'] + f + seq!['e'] + es + g;
    assert(('0' <= u[0] && u[0] <= '9') || u[0] == '.') by {
        if a.len() > 0 {
            assert(u[0] == a[0]);
        }
    }
    lemma_signed_decimal(lead, u);
    assert(lead + a + seq!['.'] + f + seq!['e'] + es + g =~= lead + u);
}

proof fn lemma_form_integer(lead: Seq<char>, a: Seq<char>)
    requires
        is_sign(lead),
        all_digits(a),
        a.len() > 0,
    ensures
        float_error(lead + a) is None,
{
    lemma_digits_plain(a);
    lemma_digit_run_to(a, 0, a.len() as int);
    assert(is_exponent_tail(a, a.len() as int));
    assert(is_decimal_number(a));
    lemma_signed_decimal(lead, a);
}

proof fn lemma_form_fraction(lead: Seq<char>, a: Seq<char>, f: Seq<char>)
    requires
        is_sign(lead),
        all_digits(a),
        all_digits(f),
        a.len() + f.len() > 0,
    ensures
        float_error(lead + a + seq!['.'] + f) is None,
{
    lemma_digits_plain(a);
    lemma_digits_plain(f);
    assert(plain_float_chars(seq!['.']));
    lemma_plain_concat(a, seq!['.']);
    lemma_plain_concat(a + seq!['.'], f);
    let u = a + seq!['.'] + f;
    assert(('0' <= u[0] && u[0] <= '9') || u[0] == '.') by {
        if a.len() > 0 {
            assert(u[0] == a[0]);
        }
    }
    assert forall|k: int| 0 <= k < a.len() implies is_digit(u[k]) by {
        assert(u[k] == a[k]);
    }
    assert(u[a.len() as int] == '.');
    lemma_digit_run_to(u, 0, a.len() as int);
    assert forall|k: int| a.len() + 1 <= k < u.len() implies is_digit(u[k]) by {
        assert(u[k] == f[k - a.len() - 1]);
    }
    lemma_digit_run_to(u, a.len() as int + 1, u.len() as int);
    assert(is_exponent_tail(u, u.len() as int));
    assert(is_decimal_number(u));
    lemma_signed_decimal(lead, u);
    assert(lead + a + seq!['.'] + f =~= lead + u);
}

/// Float literals with a sign and an exponent are accepted: an optional sign,
/// digits (at least one) or digits, a dot and digits (at least one digit in
/// all), then optionally `e`, an optional sign and at least one digit. By
/// `law_float_case_does_not_matter`, `E` is accepted as well.
pub proof fn law_float_literals_with_exponent(
    lead: Seq<char>,
    a: Seq<char>,
    f: Seq<char>,
    es: Seq<char>,
    g: Seq<char>,
)
    requires
        is_sign(lead),
        all_digits(a),
        all_digits(f),
        is_sign(es),
        all_digits(g),
        g.len() > 0,
    ensures
        a.len() > 0 ==> float_error(lead + a + seq!['e'] + es + g) is None,
        a.len() + f.len() > 0 ==> float_error(lead + a + seq!['.'] + f + seq!['e'] + es + g) is None,
        a.len() > 0 ==> float_error(lead + a) is None,
        a.len() + f.len() > 0 ==> float_error(lead + a + seq!['.'] + f) is None,
{
    if a.len() > 0 {
        lemma_form_exponent(lead, a, es, g);
        lemma_form_integer(lead, a);
    }
    if a.len() + f.len() > 0 {
        lemma_form_fraction_exponent(lead, a, f, es, g);
        lemma_form_fraction(lead, a, f);
    }
}

/// `inf`, `infinity` and `nan`, with an optional sign, are floats.
pub proof fn law_float_infinity_and_nan(lead: Seq<char>)
    requires
        is_sign(lead),
    ensures
        float_error(lead + seq!['i', 'n', 'f']) is None,
        float_error(lead + seq!['i', 'n', 'f', 'i', 'n', 'i', 't', 'y']) is None,
        float_error(lead + seq!['n', 'a', 'n']) is None,
{
    let words = seq![
        seq!['i', 'n', 'f'],
        seq!['i', 'n', 'f', 'i', 'n', 'i', 't', 'y'],
        seq!['n', 'a', 'n'],
    ];
    assert forall|x: int| 0 <= x < 3 implies float_error(lead + #[trigger] words[x]) is None by {
        let w = words[x];
        let t = lead + w;
        assert(t.map_values(|c: char| ascii_lower(c)) =~= t);
        if lead.len() == 0 {
            assert(t =~= w);
        } else {
            assert(t.drop_first() =~= w);
        }
        assert(is_float_literal(t));
    }
    assert(words[0] == seq!['i', 'n', 'f']);
    assert(words[1] == seq!['i', 'n', 'f', 'i', 'n', 'i', 't', 'y']);
    assert(words[2] == seq!['n', 'a', 'n']);
}

/// The characters a float literal can hold once lower-cased.
pub open spec fn float_char(c: char) -> bool {
    ('0' <= c && c <= '9') || c == '.' || c == 'e' || c == '+' || c == '-' || c == 'i' || c == 'n'
        || c == 'f' || c == 't' || c == 'y' || c == 'a'
}

proof fn lemma_decimal_number_chars(u: Seq<char>)
    requires
        is_decimal_number(u),
    ensures
        plain_float_chars(u),
{
    crate::numbers::lemma_digit_run_end(u, 0);
    let a = digit_run_end(u, 0);
    let b = if a < u.len() && u[a] == '.' {
        crate::numbers::lemma_digit_run_end(u, a + 1);
        digit_run_end(u, a + 1)
    } else {
        a
    };
    if b < u.len() {
        let f = if b + 1 < u.len() && (u[b + 1] == '+' || u[b + 1] == '-') {
            b + 2
        } else {
            b + 1
        };
        crate::numbers::lemma_digit_run_end(u, f);
    }
    assert forall|i: int| 0 <= i < u.len() implies ('0' <= #[trigger] u[i] && u[i] <= '9') || u[i]
        == '.' || u[i] == 'e' || u[i] == '+' || u[i] == '-' by {
        if i < a {
            assert(is_digit(u[i]));
        } else if i == a {
        } else if i < b {
            assert(is_digit(u[i]));
        }
    }
}

/// A text with a character that no float literal holds, whatever its case,
/// is not a float: reading it fails as an invalid literal.
pub proof fn law_float_rejects_foreign_chars(s: Seq<char>, i: int)
    requires
        0 <= i < s.len(),
        !float_char(ascii_lower(s[i])),
    ensures
        float_error(s) == Some(crate::numbers::float_invalid_message()),
        convert(Some(FieldType::Float), s) == Err::<ValueSpec, Seq<char>>(
            crate::numbers::float_invalid_message(),
        ),
{
    let t = s.map_values(|c: char| ascii_lower(c));
    assert(t[i] == ascii_lower(s[i]));
    let u = if t.len() > 0 && (t[0] == '+' || t[0] == '-') {
        t.drop_first()
    } else {
        t
    };
    let j = if t.len() > 0 && (t[0] == '+' || t[0] == '-') {
        i - 1
    } else {
        i
    };
    assert(0 <= j < u.len() && u[j] == t[i]) by {
        if t[0] == '+' || t[0] == '-' {
            assert(i != 0);
        }
    }
    assert(u != seq!['i', 'n', 'f']) by {
        if u == seq!['i', 'n', 'f'] {
            assert(u[j] == seq!['i', 'n', 'f'][j]);
        }
    }
    assert(u != seq!['i', 'n', 'f', 'i', 'n', 'i', 't', 'y']) by {
        if u == seq!['i', 'n', 'f', 'i', 'n', 'i', 't', 'y'] {
            assert(u[j] == seq!['i', 'n', 'f', 'i', 'n', 'i', 't', 'y'][j]);
        }
    }
    assert(u != seq!['n', 'a', 'n']) by {
        if u == seq!['n', 'a', 'n'] {
            assert(u[j] == seq!['n', 'a', 'n'][j]);
        }
    }
    if is_decimal_number(u) {
        lemma_decimal_number_chars(u);
        assert(plain_float_chars(u));
        assert(false);
    }
    assert(!is_float_literal(t));
}

proof fn lemma_word_run_chars(h: Seq<char>, j: int)
    requires
        0 <= j <= h.len(),
    ensures
        j <= word_end(h, j) <= h.len(),
        forall|k: int| j <= k < word_end(h, j) ==> in_word_set(#[trigger] h[k]),
    decreases h.len() - j,
{
    if j < h.len() && is_word_char(h[j]) {
        lemma_word_run_chars(h, j + 1);
    }
}

proof fn lemma_alias_run_chars(h: Seq<char>, j: int)
    requires
        0 <= j <= h.len(),
    ensures
        j <= alias_end(h, j) <= h.len(),
        forall|k: int| j <= k < alias_end(h, j) ==> in_alias_set(#[trigger] h[k]),
    decreases h.len() - j,
{
    if j < h.len() && is_alias_char(h[j]) {
        lemma_alias_run_chars(h, j + 1);
    }
}

/// What closes a token of type `kind` that has an alias.
pub open spec fn token_tail(kind: Option<FieldType>) -> Seq<char> {
    match kind {
        None => seq!['}'],
        Some(FieldType::Int) => seq![':', 'i', 'n', 't', '}'],
        Some(FieldType::Float) => seq![':', 'f', 'l', 'o', 'a', 't', '}'],
    }
}

/// A recognized token is nothing but a token: its text is `%{P}` or
/// `%{P:alias}` closed by `}`, `:int}` or `:float}`, where `P` is a non-empty
/// run of letters, digits and `_` and the alias a non-empty run of letters,
/// digits, `_`, `@`, `.` and `-`; a token without alias has no type.
pub proof fn law_recognized_tokens_are_tokens(h: Seq<char>, i: int)
    ensures
        token_at(h, i) matches Some(tok) ==> {
            &&& tok.start == i
            &&& tok.pattern.len() > 0
            &&& forall|k: int| 0 <= k < tok.pattern.len() ==> in_word_set(#[trigger] tok.pattern[k])
            &&& tok.alias matches Some(a) ==> a.len() > 0 && forall|k: int|
                0 <= k < a.len() ==> in_alias_set(#[trigger] a[k])
            &&& tok.alias is None ==> tok.kind is None
            &&& tok.end <= h.len()
            &&& h.subrange(i, tok.end) == token_text(tok.pattern, tok.alias, token_tail(tok.kind))
        },
{
    if let Some(tok) = token_at(h, i) {
        lemma_word_run_chars(h, i + 2);
        let p = word_end(h, i + 2);
        let pat = h.subrange(i + 2, p);
        assert forall|k: int| 0 <= k < pat.len() implies in_word_set(#[trigger] pat[k]) by {
            assert(pat[k] == h[i + 2 + k]);
        }
        if h[p] == '}' {
            assert(h.subrange(i, tok.end) =~= token_text(pat, None, seq![]));
        } else {
            lemma_alias_run_chars(h, p + 1);
            let a = alias_end(h, p + 1);
            let al = h.subrange(p + 1, a);
            assert forall|k: int| 0 <= k < al.len() implies in_alias_set(#[trigger] al[k]) by {
                assert(al[k] == h[p + 1 + k]);
            }
            let tail = token_tail(tok.kind);
            if h[a] == '}' {
                assert(h.subrange(i, tok.end) =~= token_text(pat, Some(al), tail));
            } else if has_at(h, a + 1, seq!['i', 'n', 't', '}']) {
                let w = h.subrange(a + 1, a + 5);
                assert(w[0] == h[a + 1] && w[1] == h[a + 2] && w[2] == h[a + 3] && w[3] == h[a + 4]);
                assert(h.subrange(i, tok.end) =~= token_text(pat, Some(al), tail));
            } else {
                let w = h.subrange(a + 1, a + 7);
                assert(w[0] == h[a + 1] && w[1] == h[a + 2] && w[2] == h[a + 3]);
                assert(w[3] == h[a + 4] && w[4] == h[a + 5] && w[5] == h[a + 6]);
                assert(h.subrange(i, tok.end) =~= token_text(pat, Some(al), tail));
            }
        }
    }
}

/// `k` zeros.
pub open spec fn zeros(k: nat) -> Seq<char> {
    Seq::new(k, |i: int| '0')
}

proof fn lemma_zeros_value(k: nat)
    ensures
        digits_value(zeros(k)) == 0,
    decreases k,
{
    if k > 0 {
        assert(zeros(k).drop_last() =~= zeros((k - 1) as nat));
        lemma_zeros_value((k - 1) as nat);
    }
}

/// Leading zeros do not change the value of digits.
proof fn lemma_leading_zeros_value(k: nat, d: Seq<char>)
    ensures
        digits_value(zeros(k) + d) == digits_value(d),
    decreases d.len(),
{
    if d.len() == 0 {
        assert(zeros(k) + d =~= zeros(k));
        lemma_zeros_value(k);
    } else {
        assert((zeros(k) + d).drop_last() =~= zeros(k) + d.drop_last());
        assert((zeros(k) + d).last() == d.last());
        lemma_leading_zeros_value(k, d.drop_last());
    }
}

/// An `int` field reads the number its digits denote, leading zeros or not:
/// any number of zeros followed by the decimal text of `n` reads as `n` when
/// `n` fits in an `i64`.
pub proof fn law_int_fields_read_decimal_digits(k: nat, n: nat)
    requires
        n <= i64::MAX,
    ensures
        parse_i64(zeros(k) + decimal(n)) == Ok::<i64, Seq<char>>(n as i64),
        convert(Some(FieldType::Int), zeros(k) + decimal(n)) == Ok::<ValueSpec, Seq<char>>(
            ValueSpec::Int(n as i64),
        ),
{
    let t = zeros(k) + decimal(n);
    lemma_decimal_digits(n);
    lemma_decimal_value(n);
    lemma_leading_zeros_value(k, decimal(n));
    assert forall|i: int| 0 <= i < t.len() implies is_digit(t[i]) by {
        if i >= k {
            assert(t[i] == decimal(n)[i - k]);
        }
    }
    lemma_digit_run_to(t, 0, t.len() as int);
    assert(t.subrange(0, t.len() as int) =~= t);
    assert(t[0] != '+' && t[0] != '-');
}

/// Zeros followed by the decimal text of `n`: digits whose value is `n`.
proof fn lemma_zero_padded(k: nat, n: nat)
    ensures
        ({
            let d = zeros(k) + decimal(n);
            &&& d.len() > 0
            &&& forall|i: int| 0 <= i < d.len() ==> is_digit(#[trigger] d[i])
            &&& digits_value(d) == n
            &&& digit_run_end(d, 0) == d.len()
            &&& d.subrange(0, d.len() as int) == d
        }),
{
    let d = zeros(k) + decimal(n);
    lemma_decimal_digits(n);
    lemma_decimal_value(n);
    lemma_leading_zeros_value(k, decimal(n));
    assert forall|i: int| 0 <= i < d.len() implies is_digit(#[trigger] d[i]) by {
        if i >= k {
            assert(d[i] == decimal(n)[i - k]);
        }
    }
    lemma_digit_run_to(d, 0, d.len() as int);
    assert(d.subrange(0, d.len() as int) =~= d);
}

/// An `int` field reads signed decimal numbers: a `+` or `-`, any number of
/// zeros and the decimal text of `n` read as `n` or `-n` when that fits in an
/// `i64`, and fail as too large or too small when it does not. Digits
/// followed by anything that is not a digit fail as an invalid digit when
/// their value fits.
pub proof fn law_int_fields_read_signed_numbers(k: nat, n: nat, c: char, rest: Seq<char>)
    ensures
        n <= i64::MAX ==> parse_i64(seq!['+'] + zeros(k) + decimal(n)) == Ok::<i64, Seq<char>>(
            n as i64,
        ),
        n <= 0x8000_0000_0000_0000 ==> parse_i64(seq!['-'] + zeros(k) + decimal(n)) == Ok::<
            i64,
            Seq<char>,
        >((-n) as i64),
        n > i64::MAX ==> parse_i64(zeros(k) + decimal(n)) == Err::<i64, Seq<char>>(
            crate::numbers::int_too_large_message(),
        ),
        n > 0x8000_0000_0000_0000 ==> parse_i64(seq!['-'] + zeros(k) + decimal(n)) == Err::<
            i64,
            Seq<char>,
        >(crate::numbers::int_too_small_message()),
        n <= i64::MAX && !is_digit(c) ==> parse_i64(zeros(k) + decimal(n) + seq![c] + rest)
            == Err::<i64, Seq<char>>(crate::numbers::int_invalid_message()),
{
    lemma_zero_padded(k, n);
    let d = zeros(k) + decimal(n);
    let plus = seq!['+'] + d;
    let minus = seq!['-'] + d;
    assert(seq!['+'] + zeros(k) + decimal(n) =~= plus);
    assert(seq!['-'] + zeros(k) + decimal(n) =~= minus);
    assert(plus.len() > 1 && minus.len() > 1);
    assert(plus.drop_first() =~= d);
    assert(minus.drop_first() =~= d);
    assert(plus[0] == '+' && minus[0] == '-');
    assert(d[0] != '+' && d[0] != '-');
    if n <= i64::MAX && !is_digit(c) {
        let t = d + seq![c] + rest;
        assert forall|i: int| 0 <= i < d.len() implies is_digit(t[i]) by {
            assert(t[i] == d[i]);
        }
        assert(t[d.len() as int] == c);
        lemma_digit_run_to(t, 0, d.len() as int);
        assert(t.subrange(0, d.len() as int) =~= d);
        assert(t[0] == d[0]);
    }
}

/// A letter, a digit or `_`.
pub open spec fn in_word_set(c: char) -> bool {
    ('a' <= c && c <= 'z') || ('A' <= c && c <= 'Z') || ('0' <= c && c <= '9') || c == '_'
}

/// A letter, a digit, `_`, `@`, `.` or `-`.
pub open spec fn in_alias_set(c: char) -> bool {
    in_word_set(c) || c == '@' || c == '.' || c == '-'
}

proof fn lemma_word_run_to(h: Seq<char>, i: int, j: int)
    requires
        0 <= i <= j < h.len(),
        forall|k: int| i <= k < j ==> in_word_set(h[k]),
        h[j] == ':' || h[j] == '}',
    ensures
        word_end(h, i) == j,
    decreases j - i,
{
    if i < j {
        assert(is_word_char(h[i]));
        lemma_word_run_to(h, i + 1, j);
    }
}

proof fn lemma_alias_run_to(h: Seq<char>, i: int, j: int)
    requires
        0 <= i <= j < h.len(),
        forall|k: int| i <= k < j ==> in_alias_set(h[k]),
        h[j] == ':' || h[j] == '}',
    ensures
        alias_end(h, i) == j,
    decreases j - i,
{
    if i < j {
        assert(is_alias_char(h[i]));
        lemma_alias_run_to(h, i + 1, j);
    }
}

/// The text of a token: `%{p}`, or `%{p:a}` followed by `tail` (`}`,
/// `:int}` or `:float}`).
pub open spec fn token_text(p: Seq<char>, a: Option<Seq<char>>, tail: Seq<char>) -> Seq<char> {
    match a {
        None => seq!['%', '{'] + p + seq!['}'],
        Some(a) => seq!['%', '{'] + p + seq![':'] + a + tail,
    }
}

/// The shape of `%{p:a}` followed by `t`.
proof fn lemma_aliased_shape(p: Seq<char>, a: Seq<char>, t: Seq<char>)
    requires
        p.len() > 0,
        forall|i: int| 0 <= i < p.len() ==> in_word_set(#[trigger] p[i]),
        a.len() > 0,
        forall|i: int| 0 <= i < a.len() ==> in_alias_set(#[trigger] a[i]),
        t.len() > 0,
        t[0] == ':' || t[0] == '}',
    ensures
        ({
            let h = token_text(p, Some(a), t);
            let pl = p.len() as int;
            let al = a.len() as int;
            &&& h[0] == '%' && h[1] == '{'
            &&& word_end(h, 2) == 2 + pl
            &&& h[2 + pl] == ':'
            &&& h.subrange(2, 2 + pl) == p
            &&& alias_end(h, 3 + pl) == 3 + pl + al
            &&& h.subrange(3 + pl, 3 + pl + al) == a
            &&& h.len() == 3 + pl + al + t.len()
            &&& forall|k: int| 0 <= k < t.len() ==> h[3 + pl + al + k] == t[k]
        }),
{
    let h = token_text(p, Some(a), t);
    let pl = p.len() as int;
    let al = a.len() as int;
    assert forall|k: int| 2 <= k < 2 + pl implies in_word_set(h[k]) by {
        assert(h[k] == p[k - 2]);
    }
    assert(h[2 + pl] == ':');
    lemma_word_run_to(h, 2, 2 + pl);
    assert forall|k: int| 3 + pl <= k < 3 + pl + al implies in_alias_set(h[k]) by {
        assert(h[k] == a[k - 3 - pl]);
    }
    assert(h[3 + pl + al] == t[0]);
    lemma_alias_run_to(h, 3 + pl, 3 + pl + al);
    assert(h.subrange(2, 2 + pl) =~= p);
    assert(h.subrange(3 + pl, 3 + pl + al) =~= a);
}

proof fn lemma_token_plain(p: Seq<char>)
    requires
        p.len() > 0,
        forall|i: int| 0 <= i < p.len() ==> in_word_set(#[trigger] p[i]),
    ensures
        token_at(token_text(p, None, seq![]), 0) == Some(
            TokenSpec { start: 0, end: p.len() as int + 3, pattern: p, alias: None, kind: None },
        ),
{
    let pl = p.len() as int;
    let h = token_text(p, None, seq![]);
    assert forall|k: int| 2 <= k < 2 + pl implies in_word_set(h[k]) by {
        assert(h[k] == p[k - 2]);
    }
    assert(h[2 + pl] == '}');
    lemma_word_run_to(h, 2, 2 + pl);
    assert(h.subrange(2, 2 + pl) =~= p);
}

proof fn lemma_token_alias(p: Seq<char>, a: Seq<char>)
    requires
        p.len() > 0,
        forall|i: int| 0 <= i < p.len() ==> in_word_set(#[trigger] p[i]),
        a.len() > 0,
        forall|i: int| 0 <= i < a.len() ==> in_alias_set(#[trigger] a[i]),
    ensures
        token_at(token_text(p, Some(a), seq!['}']), 0) == Some(
            TokenSpec {
                start: 0,
                end: (p.len() + a.len() + 4) as int,
                pattern: p,
                alias: Some(a),
                kind: None,
            },
        ),
{
    lemma_aliased_shape(p, a, seq!['}']);
    let h = token_text(p, Some(a), seq!['}']);
    assert(h[3 + p.len() as int + a.len() as int] == seq!['}'][0]);
}

proof fn lemma_token_int(p: Seq<char>, a: Seq<char>)
    requires
        p.len() > 0,
        forall|i: int| 0 <= i < p.len() ==> in_word_set(#[trigger] p[i]),
        a.len() > 0,
        forall|i: int| 0 <= i < a.len() ==> in_alias_set(#[trigger] a[i]),
    ensures
        token_at(token_text(p, Some(a), seq![':', 'i', 'n', 't', '}']), 0) == Some(
            TokenSpec {
                start: 0,
                end: (p.len() + a.len() + 8) as int,
                pattern: p,
                alias: Some(a),
                kind: Some(FieldType::Int),
            },
        ),
{
    let t = seq![':', 'i', 'n', 't', '}'];
    lemma_aliased_shape(p, a, t);
    let h = token_text(p, Some(a), t);
    let e = 3 + p.len() as int + a.len() as int;
    assert(h[e] == t[0]);
    assert(h[e + 1] == t[1] && h[e + 2] == t[2] && h[e + 3] == t[3] && h[e + 4] == t[4]);
    assert(h.subrange(e + 1, e + 5) =~= seq!['i', 'n', 't', '}']);
}

proof fn lemma_token_float(p: Seq<char>, a: Seq<char>)
    requires
        p.len() > 0,
        forall|i: int| 0 <= i < p.len() ==> in_word_set(#[trigger] p[i]),
        a.len() > 0,
        forall|i: int| 0 <= i < a.len() ==> in_alias_set(#[trigger] a[i]),
    ensures
        token_at(token_text(p, Some(a), seq![':', 'f', 'l', 'o', 'a', 't', '}']), 0) == Some(
            TokenSpec {
                start: 0,
                end: (p.len() + a.len() + 10) as int,
                pattern: p,
                alias: Some(a),
                kind: Some(FieldType::Float),
            },
        ),
{
    let t = seq![':', 'f', 'l', 'o', 'a', 't', '}'];
    lemma_aliased_shape(p, a, t);
    let h = token_text(p, Some(a), t);
    let e = 3 + p.len() as int + a.len() as int;
    assert(h[e] == t[0]);
    assert(h[e + 1] == t[1] && h[e + 2] == t[2] && h[e + 3] == t[3]);
    assert(h[e + 4] == t[4] && h[e + 5] == t[5] && h[e + 6] == t[6]);
    assert(h.subrange(e + 1, e + 5)[0] == h[e + 1]);
    assert(!has_at(h, e + 1, seq!['i', 'n', 't', '}']));
    assert(h.subrange(e + 1, e + 7) =~= seq!['f', 'l', 'o', 'a', 't', '}']);
}

/// Every token is recognized: `%{P}`, `%{P:alias}`, `%{P:alias:int}` and
/// `%{P:alias:float}` for every non-empty `P` of letters, digits and `_`,
/// and every non-empty alias of letters, digits, `_`, `@`, `.` and `-`.
pub proof fn law_tokens_are_recognized(p: Seq<char>, a: Seq<char>)
    requires
        p.len() > 0,
        forall|i: int| 0 <= i < p.len() ==> in_word_set(#[trigger] p[i]),
        a.len() > 0,
        forall|i: int| 0 <= i < a.len() ==> in_alias_set(#[trigger] a[i]),
    ensures
        token_at(token_text(p, None, seq![]), 0) == Some(
            TokenSpec { start: 0, end: p.len() as int + 3, pattern: p, alias: None, kind: None },
        ),
        token_at(token_text(p, Some(a), seq!['}']), 0) == Some(
            TokenSpec {
                start: 0,
                end: (p.len() + a.len() + 4) as int,
                pattern: p,
                alias: Some(a),
                kind: None,
            },
        ),
        token_at(token_text(p, Some(a), seq![':', 'i', 'n', 't', '}']), 0) == Some(
            TokenSpec {
                start: 0,
                end: (p.len() + a.len() + 8) as int,
                pattern: p,
                alias: Some(a),
                kind: Some(FieldType::Int),
            },
        ),
        token_at(token_text(p, Some(a), seq![':', 'f', 'l', 'o', 'a', 't', '}']), 0) == Some(
            TokenSpec {
                start: 0,
                end: (p.len() + a.len() + 10) as int,
                pattern: p,
                alias: Some(a),
                kind: Some(FieldType::Float),
            },
        ),
{
    lemma_token_plain(p);
    lemma_token_alias(p, a);
    lemma_token_int(p, a);
    lemma_token_float(p, a);
}

/// A line of a pattern file counts as a definition exactly when it is not
/// empty and does not start with `#`, wherever else a `#` stands in it; other
/// lines are skipped.
pub proof fn law_definition_lines(lines: Seq<Seq<char>>, l: Seq<char>)
    ensures
        l.len() > 0 && l[0] != '#' ==> definitions_of(lines.push(l)) == definitions_of(lines).push(
            definition_of(l),
        ),
        l.len() == 0 || l[0] == '#' ==> definitions_of(lines.push(l)) == definitions_of(lines),
{
    assert(lines.push(l).drop_last() =~= lines);
}

/// Loading one more definition line defines its name as its regular
/// expression, replacing any earlier definition of that name, and leaves every
/// other name as it was.
pub proof fn law_later_definitions_win(lines: Seq<Seq<char>>, l: Seq<char>)
    requires
        l.len() > 0,
        l[0] != '#',
    ensures
        definitions_map(definitions_of(lines.push(l))) == definitions_map(definitions_of(lines)).insert(
            definition_of(l).0,
            definition_of(l).1,
        ),
{
    law_definition_lines(lines, l);
    let d = definitions_of(lines);
    assert(d.push(definition_of(l)).drop_last() =~= d);
}

proof fn lemma_space_run_end_one(t: Seq<char>)
    requires
        t.len() > 1,
        t[0] == ' ',
        !is_space_char(t[1]),
    ensures
        space_run_end(t, 0) == 1,
{
    assert(space_run_end(t, 1) == 1);
}

/// A definition line is its name, a space and its regular expression: the
/// name is all that comes before the first space, and the regular
/// expression all that follows, without surrounding whitespace.
#[verifier::rlimit(40)]
pub proof fn law_definition_line_parts(name: Seq<char>, regex: Seq<char>)
    requires
        forall|i: int| 0 <= i < name.len() ==> #[trigger] name[i] != ' ',
        regex.len() > 0,
        !is_space_char(regex[0]),
        !is_space_char(regex.last()),
    ensures
        definition_of(name + seq![' '] + regex) == (name, regex),
{
    let l = name + seq![' '] + regex;
    let n = name.len() as int;
    assert(l[n] == ' ');
    assert forall|j: int| 0 <= j < n implies l[j] != ' ' by {
        assert(l[j] == name[j]);
    }
    let k = first_space(l);
    assert(0 <= n < l.len() && l[n] == ' ' && forall|j: int| 0 <= j < n ==> l[j] != ' ');
    assert(k == n) by {
        if k < n {
            assert(l[k] == name[k]);
        } else if k > n {
            assert(l[n] != ' ');
        }
    }
    let rest = l.subrange(n, l.len() as int);
    assert(rest =~= seq![' '] + regex);
    assert(rest[1] == regex[0]);
    lemma_space_run_end_one(rest);
    assert(rest[rest.len() - 1] == regex.last());
    assert(space_run_start(rest, rest.len() as int) == rest.len());
    assert(rest.subrange(1, rest.len() as int) =~= regex);
    assert(l.subrange(0, n) =~= name);
}

/// The field `k` with value `v` comes from a capture group that took part in
/// the match: group `i` is named `n` and matched the text `t`, and either an
/// alias of the pattern stands for `n` under the name `k`, and `v` is `t`
/// converted to that alias's type, or the field is the group's own name and
/// text.
pub open spec fn field_from_match(
    names: Seq<Option<Seq<char>>>,
    caps: Seq<Option<Seq<char>>>,
    aliases: Seq<AliasSpec>,
    k: Seq<char>,
    v: ValueSpec,
) -> bool {
    exists|i: int, n: Seq<char>, t: Seq<char>|
        #![trigger names[i], caps[i], field_source(aliases, k, v, n, t)]
        0 <= i < names.len() && i < caps.len() && names[i] == Some(n) && caps[i] == Some(t)
            && field_source(aliases, k, v, n, t)
}

/// The group named `n`, having matched `t`, yields the field `k` with value
/// `v`: by one of the aliases, or as itself.
pub open spec fn field_source(
    aliases: Seq<AliasSpec>,
    k: Seq<char>,
    v: ValueSpec,
    n: Seq<char>,
    t: Seq<char>,
) -> bool {
    ||| exists|j: int|
        0 <= j < aliases.len() && #[trigger] aliases[j].group == n && aliases[j].alias == k
            && convert(aliases[j].kind, t) == Ok::<ValueSpec, Seq<char>>(v)
    ||| (n == k && v == ValueSpec::Text(t))
}

/// Every field of `m` comes from the match.
pub open spec fn fields_from_match(
    names: Seq<Option<Seq<char>>>,
    caps: Seq<Option<Seq<char>>>,
    aliases: Seq<AliasSpec>,
    m: Map<Seq<char>, ValueSpec>,
) -> bool {
    forall|k: Seq<char>| #[trigger] m.contains_key(k) ==> field_from_match(names, caps, aliases, k, m[k])
}

/// The text that `group_text` gives is that of a group of that name.
proof fn lemma_group_text_source(
    names: Seq<Option<Seq<char>>>,
    caps: Seq<Option<Seq<char>>>,
    n: Seq<char>,
)
    ensures
        group_text(names, caps, n) matches Some(t) ==> ({
            let i = name_index_from(names, n, 0)->Some_0;
            0 <= i < names.len() && i < caps.len() && names[i] == Some(n) && caps[i] == Some(t)
        }),
{
    lemma_name_index_from(names, n, 0);
}

proof fn lemma_insert_keeps(
    names: Seq<Option<Seq<char>>>,
    caps: Seq<Option<Seq<char>>>,
    aliases: Seq<AliasSpec>,
    m: Map<Seq<char>, ValueSpec>,
    k: Seq<char>,
    v: ValueSpec,
)
    requires
        fields_from_match(names, caps, aliases, m),
        field_from_match(names, caps, aliases, k, v),
    ensures
        fields_from_match(names, caps, aliases, m.insert(k, v)),
{
    assert forall|x: Seq<char>| #[trigger] m.insert(k, v).contains_key(x) implies field_from_match(
        names,
        caps,
        aliases,
        x,
        m.insert(k, v)[x],
    ) by {
        if x != k {
            assert(m.contains_key(x));
        }
    }
}

proof fn lemma_named_pass_from_match(
    names: Seq<Option<Seq<char>>>,
    caps: Seq<Option<Seq<char>>>,
    aliases: Seq<AliasSpec>,
    i: int,
    m: Map<Seq<char>, ValueSpec>,
)
    requires
        0 <= i,
        fields_from_match(names, caps, aliases, m),
    ensures
        named_pass(names, caps, aliases, i, m) matches Ok(r) ==> fields_from_match(
            names,
            caps,
            aliases,
            r,
        ),
    decreases names.len() - i,
{
    if i < names.len() {
        match names[i] {
            None => lemma_named_pass_from_match(names, caps, aliases, i + 1, m),
            Some(n) => match group_text(names, caps, n) {
                None => lemma_named_pass_from_match(names, caps, aliases, i + 1, m),
                Some(t) => {
                    lemma_group_text_source(names, caps, n);
                    let g = name_index_from(names, n, 0)->Some_0;
                    match alias_of(aliases, n) {
                        Some(a) => {
                            if let Ok(v) = convert(a.kind, t) {
                                lemma_alias_of_index(aliases, n, 0);
                                let x = alias_index_from(aliases, n, 0)->Some_0;
                                assert(aliases[x] == a);
                                assert(field_source(aliases, a.alias, v, n, t));
                                assert(field_from_match(names, caps, aliases, a.alias, v));
                                lemma_insert_keeps(names, caps, aliases, m, a.alias, v);
                                lemma_named_pass_from_match(
                                    names,
                                    caps,
                                    aliases,
                                    i + 1,
                                    m.insert(a.alias, v),
                                );
                            }
                        },
                        None => {
                            let v = ValueSpec::Text(t);
                            assert(field_source(aliases, n, v, n, t));
                            assert(field_from_match(names, caps, aliases, n, v));
                            lemma_insert_keeps(names, caps, aliases, m, n, v);
                            lemma_named_pass_from_match(names, caps, aliases, i + 1, m.insert(n, v));
                        },
                    }
                },
            },
        }
    }
}

proof fn lemma_alias_pass_from_match(
    names: Seq<Option<Seq<char>>>,
    caps: Seq<Option<Seq<char>>>,
    aliases: Seq<AliasSpec>,
    j: int,
    m: Map<Seq<char>, ValueSpec>,
)
    requires
        0 <= j,
        fields_from_match(names, caps, aliases, m),
    ensures
        alias_pass(names, caps, aliases, j, m) matches Ok(r) ==> fields_from_match(
            names,
            caps,
            aliases,
            r,
        ),
    decreases aliases.len() - j,
{
    if j < aliases.len() {
        let n = aliases[j].group;
        match group_text(names, caps, n) {
            None => lemma_alias_pass_from_match(names, caps, aliases, j + 1, m),
            Some(t) => {
                if let Ok(v) = convert(aliases[j].kind, t) {
                    lemma_group_text_source(names, caps, n);
                    let g = name_index_from(names, n, 0)->Some_0;
                    assert(field_source(aliases, aliases[j].alias, v, n, t));
                    assert(field_from_match(names, caps, aliases, aliases[j].alias, v));
                    lemma_insert_keeps(names, caps, aliases, m, aliases[j].alias, v);
                    lemma_alias_pass_from_match(
                        names,
                        caps,
                        aliases,
                        j + 1,
                        m.insert(aliases[j].alias, v),
                    );
                }
            },
        }
    }
}

/// A parse reports nothing it did not match: every field it reports comes
/// from a capture group that took part in the match, under that group's
/// alias with the group's text converted to the alias's type, or under the
/// group's own name with its text. A group that did not take part in the
/// match gives no field.
pub proof fn law_fields_come_from_the_match(p: PatternSpec, s: Seq<char>)
    ensures
        parse_result(p, s) matches Ok(m) ==> ({
            &&& crate::engine::regex_captures(p.source, s) is Some
            &&& fields_from_match(
                crate::engine::regex_group_names(p.source),
                crate::engine::regex_captures(p.source, s)->Some_0,
                p.aliases,
                m,
            )
        }) || m == Map::<Seq<char>, ValueSpec>::empty(),
{
    if let Some(caps) = crate::engine::regex_captures(p.source, s) {
        let names = crate::engine::regex_group_names(p.source);
        let empty = Map::<Seq<char>, ValueSpec>::empty();
        lemma_named_pass_from_match(names, caps, p.aliases, 0, empty);
        if let Ok(m) = named_pass(names, caps, p.aliases, 0, empty) {
            lemma_alias_pass_from_match(names, caps, p.aliases, 0, m);
        }
    }
}

proof fn lemma_named_pass_keeps(
    names: Seq<Option<Seq<char>>>,
    caps: Seq<Option<Seq<char>>>,
    aliases: Seq<AliasSpec>,
    i: int,
    m: Map<Seq<char>, ValueSpec>,
)
    requires
        0 <= i,
    ensures
        named_pass(names, caps, aliases, i, m) matches Ok(r) ==> {
            &&& forall|k: Seq<char>| #[trigger] m.contains_key(k) ==> r.contains_key(k)
            &&& forall|x: int|
                i <= x < names.len() ==> (#[trigger] names[x] matches Some(n) ==> (group_text(
                    names,
                    caps,
                    n,
                ) is Some ==> r.contains_key(
                    match alias_of(aliases, n) {
                        Some(a) => a.alias,
                        None => n,
                    },
                )))
        },
    decreases names.len() - i,
{
    if i < names.len() {
        match names[i] {
            None => lemma_named_pass_keeps(names, caps, aliases, i + 1, m),
            Some(n) => match group_text(names, caps, n) {
                None => lemma_named_pass_keeps(names, caps, aliases, i + 1, m),
                Some(t) => match alias_of(aliases, n) {
                    Some(a) => {
                        if let Ok(v) = convert(a.kind, t) {
                            let m2 = m.insert(a.alias, v);
                            lemma_named_pass_keeps(names, caps, aliases, i + 1, m2);
                            assert(m2.contains_key(a.alias));
                            assert(forall|k: Seq<char>| #[trigger] m.contains_key(k) ==> m2.contains_key(k));
                        }
                    },
                    None => {
                        let m2 = m.insert(n, ValueSpec::Text(t));
                        lemma_named_pass_keeps(names, caps, aliases, i + 1, m2);
                        assert(m2.contains_key(n));
                        assert(forall|k: Seq<char>| #[trigger] m.contains_key(k) ==> m2.contains_key(k));
                    },
                },
            },
        }
    }
}

proof fn lemma_alias_pass_keeps(
    names: Seq<Option<Seq<char>>>,
    caps: Seq<Option<Seq<char>>>,
    aliases: Seq<AliasSpec>,
    j: int,
    m: Map<Seq<char>, ValueSpec>,
)
    requires
        0 <= j,
    ensures
        alias_pass(names, caps, aliases, j, m) matches Ok(r) ==> {
            &&& forall|k: Seq<char>| #[trigger] m.contains_key(k) ==> r.contains_key(k)
            &&& forall|x: int|
                j <= x < aliases.len() ==> (group_text(names, caps, #[trigger] aliases[x].group) is Some
                    ==> r.contains_key(aliases[x].alias))
        },
    decreases aliases.len() - j,
{
    if j < aliases.len() {
        match group_text(names, caps, aliases[j].group) {
            None => lemma_alias_pass_keeps(names, caps, aliases, j + 1, m),
            Some(t) => {
                if let Ok(v) = convert(aliases[j].kind, t) {
                    let m2 = m.insert(aliases[j].alias, v);
                    lemma_alias_pass_keeps(names, caps, aliases, j + 1, m2);
                    assert(m2.contains_key(aliases[j].alias));
                    assert(forall|k: Seq<char>| #[trigger] m.contains_key(k) ==> m2.contains_key(k));
                }
            },
        }
    }
}

/// A parse that succeeds drops nothing it matched: every alias whose group
/// took part in the match is reported, and so is every other named group that
/// took part in it, under its own name.
pub proof fn law_matched_groups_are_reported(p: PatternSpec, s: Seq<char>)
    ensures
        parse_result(p, s) matches Ok(m) ==> crate::engine::regex_captures(p.source, s) matches Some(
            caps,
        ) ==> {
            let names = crate::engine::regex_group_names(p.source);
            &&& forall|x: int|
                0 <= x < p.aliases.len() ==> (group_text(names, caps, #[trigger] p.aliases[x].group)
                    is Some ==> m.contains_key(p.aliases[x].alias))
            &&& forall|x: int|
                0 <= x < names.len() ==> (#[trigger] names[x] matches Some(n) ==> (group_text(
                    names,
                    caps,
                    n,
                ) is Some && alias_of(p.aliases, n) is None ==> m.contains_key(n)))
        },
{
    if let Some(caps) = crate::engine::regex_captures(p.source, s) {
        let names = crate::engine::regex_group_names(p.source);
        let empty = Map::<Seq<char>, ValueSpec>::empty();
        lemma_named_pass_keeps(names, caps, p.aliases, 0, empty);
        if let Ok(m) = named_pass(names, caps, p.aliases, 0, empty) {
            lemma_alias_pass_keeps(names, caps, p.aliases, 0, m);
        }
    }
}

} // verus!
