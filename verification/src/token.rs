//! The grok token grammar: `%{PATTERN}`, `%{PATTERN:alias}` and
//! `%{PATTERN:alias:int}` / `%{PATTERN:alias:float}`.
//!
//! `PATTERN` is a non-empty run of word characters (`[0-9A-Za-z_]`), `alias`
//! a non-empty run of word characters, `@`, `.` and `-`. A token is searched
//! leftmost-first, as an unanchored regular expression would find it.

use vstd::prelude::*;
use crate::text::copy_chars;

verus! {

/// The type a captured field is converted to.
#[derive(Clone, Copy, PartialEq, Eq, Structural, Debug)]
pub enum FieldType {
    Int,
    Float,
}

/// A word character: `[0-9A-Za-z_]`.
pub open spec fn is_word_char(c: char) -> bool {
    ('a' <= c && c <= 'z') || ('A' <= c && c <= 'Z') || ('0' <= c && c <= '9') || c == '_'
}

/// A character allowed in an alias: a word character, `@`, `.` or `-`.
pub open spec fn is_alias_char(c: char) -> bool {
    is_word_char(c) || c == '@' || c == '.' || c == '-'
}

/// The end of the longest run of word characters that starts at `j`.
pub open spec fn word_end(h: Seq<char>, j: int) -> int
    decreases h.len() - j,
{
    if 0 <= j < h.len() && is_word_char(h[j]) {
        word_end(h, j + 1)
    } else {
        j
    }
}

/// The end of the longest run of alias characters that starts at `j`.
pub open spec fn alias_end(h: Seq<char>, j: int) -> int
    decreases h.len() - j,
{
    if 0 <= j < h.len() && is_alias_char(h[j]) {
        alias_end(h, j + 1)
    } else {
        j
    }
}

/// `lit` occurs in `h` at position `i`.
pub open spec fn has_at(h: Seq<char>, i: int, lit: Seq<char>) -> bool {
    0 <= i && i + lit.len() <= h.len() && h.subrange(i, i + lit.len()) == lit
}

/// A token found in a text: it spans `start..end`.
pub struct TokenSpec {
    pub start: int,
    pub end: int,
    pub pattern: Seq<char>,
    pub alias: Option<Seq<char>>,
    pub kind: Option<FieldType>,
}

/// The token that starts at `i` in `h`, if one does.
pub open spec fn token_at(h: Seq<char>, i: int) -> Option<TokenSpec> {
    if !(0 <= i && i + 1 < h.len() && h[i] == '%' && h[i + 1] == '{') {
        None
    } else {
        let p = word_end(h, i + 2);
        if p == i + 2 || p >= h.len() {
            None
        } else if h[p] == '}' {
            Some(TokenSpec { start: i, end: p + 1, pattern: h.subrange(i + 2, p), alias: None, kind: None })
        } else if h[p] != ':' {
            None
        } else {
            let a = alias_end(h, p + 1);
            let alias = Some(h.subrange(p + 1, a));
            if a == p + 1 || a >= h.len() {
                None
            } else if h[a] == '}' {
                Some(TokenSpec { start: i, end: a + 1, pattern: h.subrange(i + 2, p), alias, kind: None })
            } else if h[a] == ':' && has_at(h, a + 1, seq!['i', 'n', 't', '}']) {
                Some(TokenSpec { start: i, end: a + 5, pattern: h.subrange(i + 2, p), alias, kind: Some(FieldType::Int) })
            } else if h[a] == ':' && has_at(h, a + 1, seq!['f', 'l', 'o', 'a', 't', '}']) {
                Some(TokenSpec { start: i, end: a + 7, pattern: h.subrange(i + 2, p), alias, kind: Some(FieldType::Float) })
            } else {
                None
            }
        }
    }
}

/// The leftmost token of `h` that starts at `i` or later.
pub open spec fn first_token_from(h: Seq<char>, i: int) -> Option<TokenSpec>
    decreases h.len() - i,
{
    if i < 0 || i >= h.len() {
        None
    } else if token_at(h, i) is Some {
        token_at(h, i)
    } else {
        first_token_from(h, i + 1)
    }
}

/// The leftmost token of `h`.
pub open spec fn first_token(h: Seq<char>) -> Option<TokenSpec> {
    first_token_from(h, 0)
}

/// A run of word characters stays within the text.
pub proof fn lemma_word_end(h: Seq<char>, j: int)
    requires
        0 <= j <= h.len(),
    ensures
        j <= word_end(h, j) <= h.len(),
    decreases h.len() - j,
{
    if j < h.len() && is_word_char(h[j]) {
        lemma_word_end(h, j + 1);
    }
}

/// A run of alias characters stays within the text.
pub proof fn lemma_alias_end(h: Seq<char>, j: int)
    requires
        0 <= j <= h.len(),
    ensures
        j <= alias_end(h, j) <= h.len(),
    decreases h.len() - j,
{
    if j < h.len() && is_alias_char(h[j]) {
        lemma_alias_end(h, j + 1);
    }
}

/// A token starts where it is found and lies within the text.
pub proof fn lemma_token_at_bounds(h: Seq<char>, i: int)
    requires
        token_at(h, i) is Some,
    ensures
        token_at(h, i)->0.start == i,
        i + 3 < token_at(h, i)->0.end <= h.len(),
{
    lemma_word_end(h, i + 2);
    let p = word_end(h, i + 2);
    if h[p] == ':' {
        lemma_alias_end(h, p + 1);
    }
}

/// The leftmost token at or after `i` is a token, and no token starts
/// between `i` and it.
pub proof fn lemma_first_token_from(h: Seq<char>, i: int)
    requires
        0 <= i,
    ensures
        match first_token_from(h, i) {
            Some(t) => token_at(h, t.start) == Some(t) && i <= t.start && forall|j: int|
                i <= j < t.start ==> token_at(h, j) is None,
            None => forall|j: int| i <= j ==> token_at(h, j) is None,
        },
    decreases h.len() - i,
{
    if i >= h.len() {
    } else if token_at(h, i) is Some {
        lemma_token_at_bounds(h, i);
    } else {
        lemma_first_token_from(h, i + 1);
    }
}

/// The leftmost token lies within the text.
pub proof fn lemma_first_token_bounds(h: Seq<char>)
    ensures
        first_token(h) matches Some(t) ==> 0 <= t.start && t.start + 3 < t.end <= h.len(),
{
    lemma_first_token_from(h, 0);
    if let Some(t) = first_token(h) {
        lemma_token_at_bounds(h, t.start);
    }
}

/// A token found in a text.
pub struct Token {
    pub start: usize,
    pub end: usize,
    pub pattern: Vec<char>,
    pub alias: Option<Vec<char>>,
    pub kind: Option<FieldType>,
}

impl View for Token {
    type V = TokenSpec;

    open spec fn view(&self) -> TokenSpec {
        TokenSpec {
            start: self.start as int,
            end: self.end as int,
            pattern: self.pattern@,
            alias: match self.alias {
                Some(a) => Some(a@),
                None => None,
            },
            kind: self.kind,
        }
    }
}

fn is_word(c: char) -> (b: bool)
    ensures
        b == is_word_char(c),
{
    ('a' <= c && c <= 'z') || ('A' <= c && c <= 'Z') || ('0' <= c && c <= '9') || c == '_'
}

fn is_alias(c: char) -> (b: bool)
    ensures
        b == is_alias_char(c),
{
    is_word(c) || c == '@' || c == '.' || c == '-'
}

fn scan_word(h: &Vec<char>, j: usize) -> (r: usize)
    requires
        j <= h.len(),
    ensures
        r == word_end(h@, j as int),
        j <= r <= h.len(),
{
    let mut k = j;
    while k < h.len() && is_word(h[k])
        invariant
            j <= k <= h.len(),
            word_end(h@, j as int) == word_end(h@, k as int),
        decreases h.len() - k,
    {
        k = k + 1;
    }
    k
}

fn scan_alias(h: &Vec<char>, j: usize) -> (r: usize)
    requires
        j <= h.len(),
    ensures
        r == alias_end(h@, j as int),
        j <= r <= h.len(),
{
    let mut k = j;
    while k < h.len() && is_alias(h[k])
        invariant
            j <= k <= h.len(),
            alias_end(h@, j as int) == alias_end(h@, k as int),
        decreases h.len() - k,
    {
        k = k + 1;
    }
    k
}

/// Whether `h` holds `int}` at `i`.
fn int_type_at(h: &Vec<char>, i: usize) -> (b: bool)
    ensures
        b == has_at(h@, i as int, seq!['i', 'n', 't', '}']),
{
    if i <= h.len() && h.len() - i >= 4 && h[i] == 'i' && h[i + 1] == 'n' && h[i + 2] == 't'
        && h[i + 3] == '}' {
        assert(h@.subrange(i as int, i + 4) =~= seq!['i', 'n', 't', '}']);
        true
    } else {
        proof {
            if has_at(h@, i as int, seq!['i', 'n', 't', '}']) {
                assert(h@.subrange(i as int, i + 4)[0] == h@[i as int]);
                assert(h@.subrange(i as int, i + 4)[1] == h@[i + 1]);
                assert(h@.subrange(i as int, i + 4)[2] == h@[i + 2]);
                assert(h@.subrange(i as int, i + 4)[3] == h@[i + 3]);
            }
        }
        false
    }
}

/// Whether `h` holds `float}` at `i`.
fn float_type_at(h: &Vec<char>, i: usize) -> (b: bool)
    ensures
        b == has_at(h@, i as int, seq!['f', 'l', 'o', 'a', 't', '}']),
{
    if i <= h.len() && h.len() - i >= 6 && h[i] == 'f' && h[i + 1] == 'l' && h[i + 2] == 'o'
        && h[i + 3] == 'a' && h[i + 4] == 't' && h[i + 5] == '}' {
        assert(h@.subrange(i as int, i + 6) =~= seq!['f', 'l', 'o', 'a', 't', '}']);
        true
    } else {
        proof {
            if has_at(h@, i as int, seq!['f', 'l', 'o', 'a', 't', '}']) {
                let s = h@.subrange(i as int, i + 6);
                assert(s[0] == h@[i as int] && s[1] == h@[i + 1] && s[2] == h@[i + 2]);
                assert(s[3] == h@[i + 3] && s[4] == h@[i + 4] && s[5] == h@[i + 5]);
            }
        }
        false
    }
}

/// The token that starts at `i` in `h`, if one does.
pub(crate) fn token_at_exec(h: &Vec<char>, i: usize) -> (r: Option<Token>)
    ensures
        match r {
            Some(t) => token_at(h@, i as int) == Some(t@),
            None => token_at(h@, i as int) is None,
        },
{
    if !(i < h.len() && h.len() - i >= 2 && h[i] == '%' && h[i + 1] == '{') {
        return None;
    }
    let p = scan_word(h, i + 2);
    if p == i + 2 || p >= h.len() {
        return None;
    }
    if h[p] == '}' {
        let pattern = copy_chars(h, i + 2, p);
        return Some(Token { start: i, end: p + 1, pattern, alias: None, kind: None });
    }
    if h[p] != ':' {
        return None;
    }
    let a = scan_alias(h, p + 1);
    if a == p + 1 || a >= h.len() {
        return None;
    }
    let pattern = copy_chars(h, i + 2, p);
    let alias = copy_chars(h, p + 1, a);
    if h[a] == '}' {
        Some(Token { start: i, end: a + 1, pattern, alias: Some(alias), kind: None })
    } else if h[a] == ':' && int_type_at(h, a + 1) {
        Some(Token { start: i, end: a + 5, pattern, alias: Some(alias), kind: Some(FieldType::Int) })
    } else if h[a] == ':' && float_type_at(h, a + 1) {
        Some(Token { start: i, end: a + 7, pattern, alias: Some(alias), kind: Some(FieldType::Float) })
    } else {
        None
    }
}

/// The leftmost token of `h`.
pub fn find_token(h: &Vec<char>) -> (r: Option<Token>)
    ensures
        match r {
            Some(t) => first_token(h@) == Some(t@),
            None => first_token(h@) is None,
        },
{
    let mut i: usize = 0;
    while i < h.len()
        invariant
            i <= h.len(),
            first_token(h@) == first_token_from(h@, i as int),
        decreases h.len() - i,
    {
        let t = token_at_exec(h, i);
        if t.is_some() {
            return t;
        }
        i = i + 1;
    }
    None
}

} // verus!
