//! Properties of the library that span its functions, proved over the spec
//! functions that their contracts use.

use vstd::prelude::*;
use crate::engine::regex_build_error;
use crate::grok::{
    Expansion, MAX_RECURSION, alias_for, captures_token, compile_result, expand, group_name, lookup,
    replace_occurrences, replacement,
};
use crate::numbers::{digit_run_end, digits_value, is_digit, parse_i64};
use crate::pattern::{
    AliasSpec, PatternSpec, ValueSpec, alias_index_from, alias_of, alias_pass, convert, field_error,
    group_text, name_index_from, named_pass, parse_result,
};
use crate::text::{decimal, digit_char, find_from, lemma_find_from};
use crate::token::first_token;

verus! {

/// Expanding stops only when no token is left.
proof fn lemma_expand_leaves_no_token(
    user: Map<Seq<char>, Seq<char>>,
    defaults: Map<Seq<char>, Seq<char>>,
    e: Expansion,
    left: nat,
    nco: bool,
)
    ensures
        expand(user, defaults, e, left, nco) matches Ok(x) ==> first_token(x.haystack) is None,
    decreases left,
{
    if let Some(tok) = first_token(e.haystack) {
        if left > 0 {
            if let Some(re) = lookup(user, defaults, tok.pattern) {
                lemma_expand_leaves_no_token(
                    user,
                    defaults,
                    replace_occurrences(e, 0, e.haystack.subrange(tok.start, tok.end), re, tok, nco),
                    (left - 1) as nat,
                    nco,
                );
            }
        }
    }
}

/// A compiled pattern is fully expanded: its regular expression holds no grok
/// token.
pub proof fn law_compiled_pattern_has_no_token(
    user: Map<Seq<char>, Seq<char>>,
    defaults: Map<Seq<char>, Seq<char>>,
    s: Seq<char>,
    named_capture_only: bool,
)
    ensures
        compile_result(user, defaults, s, named_capture_only) matches Ok(p) ==> first_token(
            p.source,
        ) is None,
{
    lemma_expand_leaves_no_token(
        user,
        defaults,
        Expansion { haystack: s, aliases: Seq::empty(), index: 0 },
        MAX_RECURSION as nat,
        named_capture_only,
    );
}

/// A text that holds no grok token is compiled as the regular expression it
/// is, with no capture group standing for a token; it fails only when it is
/// not a valid regular expression.
pub proof fn law_text_without_token_compiles_as_is(
    user: Map<Seq<char>, Seq<char>>,
    defaults: Map<Seq<char>, Seq<char>>,
    s: Seq<char>,
    named_capture_only: bool,
)
    requires
        first_token(s) is None,
    ensures
        compile_result(user, defaults, s, named_capture_only) == match regex_build_error(s) {
            None => Ok(PatternSpec { source: s, aliases: Seq::empty() }),
            Some(e) => Err(e),
        },
{
}

/// A pattern the user defines is the one a token of its name expands to,
/// whatever the default patterns hold.
pub proof fn law_user_pattern_takes_precedence(
    user: Map<Seq<char>, Seq<char>>,
    defaults: Map<Seq<char>, Seq<char>>,
    name: Seq<char>,
    regex: Seq<char>,
)
    ensures
        lookup(user.insert(name, regex), defaults, name) == Some(regex),
{
}

/// Replacing the occurrences of a token keeps the aliases made so far and
/// adds one alias per captured occurrence, standing for the token's alias (or
/// its pattern's name). With `named_capture_only`, a token without alias adds
/// none: it is not captured.
pub proof fn law_replacement_aliases(
    e: Expansion,
    from: int,
    t: Seq<char>,
    re: Seq<char>,
    tok: crate::token::TokenSpec,
    named_capture_only: bool,
)
    ensures
        ({
            let r = replace_occurrences(e, from, t, re, tok, named_capture_only);
            &&& e.aliases.len() <= r.aliases.len()
            &&& r.aliases.subrange(0, e.aliases.len() as int) == e.aliases
            &&& forall|k: int|
                e.aliases.len() <= k < r.aliases.len() ==> {
                    &&& captures_token(tok, named_capture_only)
                    &&& r.aliases[k].alias == match tok.alias {
                        Some(a) => a,
                        None => tok.pattern,
                    }
                    &&& r.aliases[k].kind == tok.kind
                }
        }),
    decreases e.haystack.len() + 1 - from,
{
    if from < 0 || t.len() == 0 {
        assert(e.aliases.subrange(0, e.aliases.len() as int) =~= e.aliases);
    } else {
        match find_from(e.haystack, t, from) {
            None => {
                assert(e.aliases.subrange(0, e.aliases.len() as int) =~= e.aliases);
            },
            Some(p) => {
                lemma_find_from(e.haystack, t, from);
                let capture = captures_token(tok, named_capture_only);
                let r = replacement(re, capture, e.index);
                let h = e.haystack.subrange(0, p) + r + e.haystack.subrange(
                    p + t.len(),
                    e.haystack.len() as int,
                );
                let aliases = if capture {
                    e.aliases.push(alias_for(tok, e.index))
                } else {
                    e.aliases
                };
                let e2 = Expansion { haystack: h, aliases, index: e.index + 1 };
                law_replacement_aliases(e2, p + r.len(), t, re, tok, named_capture_only);
                let fin = replace_occurrences(e2, p + r.len(), t, re, tok, named_capture_only);
                assert(fin == replace_occurrences(e, from, t, re, tok, named_capture_only));
                assert(fin.aliases.subrange(0, e.aliases.len() as int) =~= e.aliases) by {
                    assert(fin.aliases.subrange(0, aliases.len() as int) == aliases);
                    assert forall|k: int| 0 <= k < e.aliases.len() implies fin.aliases[k]
                        == e.aliases[k] by {
                        assert(fin.aliases.subrange(0, aliases.len() as int)[k] == aliases[k]);
                    }
                }
                assert forall|k: int| e.aliases.len() <= k < fin.aliases.len() implies {
                    &&& captures_token(tok, named_capture_only)
                    &&& fin.aliases[k].alias == match tok.alias {
                        Some(a) => a,
                        None => tok.pattern,
                    }
                    &&& fin.aliases[k].kind == tok.kind
                } by {
                    if k < aliases.len() {
                        assert(fin.aliases.subrange(0, aliases.len() as int)[k] == aliases[k]);
                    }
                }
            },
        }
    }
}

proof fn lemma_digit_char(d: nat)
    requires
        d < 10,
    ensures
        (digit_char(d) as int) - ('0' as int) == d,
{
}

/// Reading back the decimal representation of `n` gives `n`.
pub proof fn lemma_decimal_value(n: nat)
    ensures
        digits_value(decimal(n)) == n,
    decreases n,
{
    let s = decimal(n);
    if n < 10 {
        lemma_digit_char(n);
        assert(s.drop_last() =~= Seq::<char>::empty());
        assert(s.last() == digit_char(n));
        assert(digits_value(s) == digits_value(s.drop_last()) * 10 + ((s.last() as int) - ('0' as int)) as nat);
    } else {
        lemma_decimal_value(n / 10);
        lemma_digit_char(n % 10);
        assert(s.drop_last() =~= decimal(n / 10));
        assert(s.last() == digit_char(n % 10));
        assert(digits_value(s) == digits_value(s.drop_last()) * 10 + ((s.last() as int) - ('0' as int)) as nat);
        vstd::arithmetic::div_mod::lemma_fundamental_div_mod(n as int, 10);
    }
}

/// The decimal representation of a number is made of digits only.
pub proof fn lemma_decimal_digits(n: nat)
    ensures
        decimal(n).len() > 0,
        forall|i: int| 0 <= i < decimal(n).len() ==> is_digit(#[trigger] decimal(n)[i]),
    decreases n,
{
    if n >= 10 {
        lemma_decimal_digits(n / 10);
        assert forall|i: int| 0 <= i < decimal(n).len() implies is_digit(#[trigger] decimal(n)[i]) by {
            if i < decimal(n).len() - 1 {
                assert(decimal(n)[i] == decimal(n / 10)[i]);
            }
        }
    }
}

proof fn lemma_digit_run_all(s: Seq<char>, i: int)
    requires
        0 <= i <= s.len(),
        forall|j: int| 0 <= j < s.len() ==> is_digit(#[trigger] s[j]),
    ensures
        digit_run_end(s, i) == s.len(),
    decreases s.len() - i,
{
    if i < s.len() {
        lemma_digit_run_all(s, i + 1);
    }
}

/// An `int` field reads back the numbers written in decimal: the text of
/// `n`, or of `-n`, gives `n`, or `-n`, when it fits in an `i64`.
pub proof fn law_int_reads_decimal(n: nat)
    ensures
        n <= i64::MAX ==> parse_i64(decimal(n)) == Ok::<i64, Seq<char>>(n as i64),
        n <= 0x8000_0000_0000_0000 ==> parse_i64(seq!['-'] + decimal(n)) == Ok::<i64, Seq<char>>(
            (-n) as i64,
        ),
{
    let s = decimal(n);
    lemma_decimal_digits(n);
    lemma_decimal_value(n);
    lemma_digit_run_all(s, 0);
    assert(s.subrange(0, s.len() as int) =~= s);
    let m = seq!['-'] + s;
    assert(m.drop_first() =~= s);
    assert(m[0] == '-');
}

/// The number in the name of a capture group made for a token.
pub open spec fn group_number(g: Seq<char>) -> nat {
    digits_value(g.subrange(4, g.len() as int))
}

/// The number of the group made for the `n`-th replacement is `n`.
pub proof fn lemma_group_number(n: nat)
    ensures
        group_number(group_name(n)) == n,
{
    assert(group_name(n).subrange(4, group_name(n).len() as int) =~= decimal(n));
    lemma_decimal_value(n);
}

/// The groups of `aliases` carry increasing numbers, all below `index`.
pub open spec fn numbered(aliases: Seq<AliasSpec>, index: nat) -> bool {
    &&& forall|k: int| 0 <= k < aliases.len() ==> group_number(#[trigger] aliases[k].group) < index
    &&& forall|j: int, k: int|
        0 <= j < k < aliases.len() ==> group_number(#[trigger] aliases[j].group) < group_number(
            #[trigger] aliases[k].group,
        )
}

/// No two aliases stand for the same group.
pub open spec fn groups_distinct(aliases: Seq<AliasSpec>) -> bool {
    forall|j: int, k: int|
        0 <= j < k < aliases.len() ==> #[trigger] aliases[j].group != #[trigger] aliases[k].group
}

proof fn lemma_replace_keeps_numbered(
    e: Expansion,
    from: int,
    t: Seq<char>,
    re: Seq<char>,
    tok: crate::token::TokenSpec,
    nco: bool,
)
    requires
        numbered(e.aliases, e.index),
    ensures
        numbered(
            replace_occurrences(e, from, t, re, tok, nco).aliases,
            replace_occurrences(e, from, t, re, tok, nco).index,
        ),
        e.index <= replace_occurrences(e, from, t, re, tok, nco).index,
    decreases e.haystack.len() + 1 - from,
{
    if from < 0 || t.len() == 0 {
    } else {
        match find_from(e.haystack, t, from) {
            None => {},
            Some(p) => {
                lemma_find_from(e.haystack, t, from);
                let capture = captures_token(tok, nco);
                let r = replacement(re, capture, e.index);
                let h = e.haystack.subrange(0, p) + r + e.haystack.subrange(
                    p + t.len(),
                    e.haystack.len() as int,
                );
                let aliases = if capture {
                    e.aliases.push(alias_for(tok, e.index))
                } else {
                    e.aliases
                };
                let e2 = Expansion { haystack: h, aliases, index: e.index + 1 };
                lemma_group_number(e.index);
                assert(numbered(aliases, e.index + 1)) by {
                    if capture {
                        assert forall|k: int| 0 <= k < aliases.len() implies group_number(
                            #[trigger] aliases[k].group,
                        ) < e.index + 1 by {
                            if k < e.aliases.len() {
                                assert(aliases[k] == e.aliases[k]);
                            }
                        }
                        assert forall|j: int, k: int| 0 <= j < k < aliases.len() implies group_number(
                            #[trigger] aliases[j].group,
                        ) < group_number(#[trigger] aliases[k].group) by {
                            assert(aliases[j] == e.aliases[j]);
                            if k < e.aliases.len() {
                                assert(aliases[k] == e.aliases[k]);
                            }
                        }
                    }
                }
                lemma_replace_keeps_numbered(e2, p + r.len(), t, re, tok, nco);
            },
        }
    }
}

proof fn lemma_expand_keeps_numbered(
    user: Map<Seq<char>, Seq<char>>,
    defaults: Map<Seq<char>, Seq<char>>,
    e: Expansion,
    left: nat,
    nco: bool,
)
    requires
        numbered(e.aliases, e.index),
    ensures
        expand(user, defaults, e, left, nco) matches Ok(x) ==> numbered(x.aliases, x.index),
    decreases left,
{
    if let Some(tok) = first_token(e.haystack) {
        if left > 0 {
            if let Some(re) = lookup(user, defaults, tok.pattern) {
                let t = e.haystack.subrange(tok.start, tok.end);
                lemma_replace_keeps_numbered(e, 0, t, re, tok, nco);
                lemma_expand_keeps_numbered(
                    user,
                    defaults,
                    replace_occurrences(e, 0, t, re, tok, nco),
                    (left - 1) as nat,
                    nco,
                );
            }
        }
    }
}

/// In a compiled pattern, no two aliases stand for the same capture group:
/// the groups made for tokens are named `name0`, `name1`, ..., each once.
pub proof fn law_compiled_groups_distinct(
    user: Map<Seq<char>, Seq<char>>,
    defaults: Map<Seq<char>, Seq<char>>,
    s: Seq<char>,
    named_capture_only: bool,
)
    ensures
        compile_result(user, defaults, s, named_capture_only) matches Ok(p) ==> groups_distinct(
            p.aliases,
        ),
{
    let e = Expansion { haystack: s, aliases: Seq::empty(), index: 0 };
    lemma_expand_keeps_numbered(user, defaults, e, MAX_RECURSION as nat, named_capture_only);
    if let Ok(x) = expand(user, defaults, e, MAX_RECURSION as nat, named_capture_only) {
        assert forall|j: int, k: int| 0 <= j < k < x.aliases.len() implies #[trigger] x.aliases[j].group
            != #[trigger] x.aliases[k].group by {
            assert(group_number(x.aliases[j].group) < group_number(x.aliases[k].group));
        }
    }
}

pub proof fn lemma_name_index_from(names: Seq<Option<Seq<char>>>, n: Seq<char>, i: int)
    ensures
        name_index_from(names, n, i) matches Some(k) ==> i <= k < names.len() && names[k] == Some(n),
    decreases names.len() - i,
{
    if 0 <= i < names.len() && names[i] != Some(n) {
        lemma_name_index_from(names, n, i + 1);
    }
}

proof fn lemma_alias_index_from(aliases: Seq<AliasSpec>, n: Seq<char>, i: int, j: int)
    requires
        0 <= i <= j < aliases.len(),
        aliases[j].group == n,
        forall|k: int| i <= k < j ==> aliases[k].group != n,
    ensures
        alias_index_from(aliases, n, i) == Some(j),
    decreases j - i,
{
    if i < j {
        lemma_alias_index_from(aliases, n, i + 1, j);
    }
}

/// When the named pass succeeds from `i` on, every value it met was readable.
proof fn lemma_named_pass_ok(
    names: Seq<Option<Seq<char>>>,
    caps: Seq<Option<Seq<char>>>,
    aliases: Seq<AliasSpec>,
    i: int,
    m: Map<Seq<char>, ValueSpec>,
)
    requires
        0 <= i,
        named_pass(names, caps, aliases, i, m) is Ok,
    ensures
        forall|k: int|
            i <= k < names.len() ==> match #[trigger] names[k] {
                Some(n) => match group_text(names, caps, n) {
                    Some(t) => match alias_of(aliases, n) {
                        Some(a) => convert(a.kind, t) is Ok,
                        None => true,
                    },
                    None => true,
                },
                None => true,
            },
    decreases names.len() - i,
{
    if i < names.len() {
        match names[i] {
            None => lemma_named_pass_ok(names, caps, aliases, i + 1, m),
            Some(n) => match group_text(names, caps, n) {
                None => lemma_named_pass_ok(names, caps, aliases, i + 1, m),
                Some(t) => match alias_of(aliases, n) {
                    Some(a) => {
                        let v = convert(a.kind, t)->Ok_0;
                        lemma_named_pass_ok(names, caps, aliases, i + 1, m.insert(a.alias, v));
                    },
                    None => lemma_named_pass_ok(
                        names,
                        caps,
                        aliases,
                        i + 1,
                        m.insert(n, ValueSpec::Text(t)),
                    ),
                },
            },
        }
    }
}

/// The named pass fails only on a value it cannot read, and says which.
proof fn lemma_named_pass_err(
    names: Seq<Option<Seq<char>>>,
    caps: Seq<Option<Seq<char>>>,
    aliases: Seq<AliasSpec>,
    i: int,
    m: Map<Seq<char>, ValueSpec>,
)
    ensures
        named_pass(names, caps, aliases, i, m) matches Err(msg) ==> exists|e: Seq<char>, t: Seq<char>|
            msg == field_error(e, t),
    decreases names.len() - i,
{
    if 0 <= i < names.len() {
        match names[i] {
            None => lemma_named_pass_err(names, caps, aliases, i + 1, m),
            Some(n) => match group_text(names, caps, n) {
                None => lemma_named_pass_err(names, caps, aliases, i + 1, m),
                Some(t) => match alias_of(aliases, n) {
                    Some(a) => match convert(a.kind, t) {
                        Ok(v) => lemma_named_pass_err(names, caps, aliases, i + 1, m.insert(a.alias, v)),
                        Err(e) => {
                            assert(named_pass(names, caps, aliases, i, m) == Err::<
                                Map<Seq<char>, ValueSpec>,
                                Seq<char>,
                            >(field_error(e, t)));
                        },
                    },
                    None => lemma_named_pass_err(
                        names,
                        caps,
                        aliases,
                        i + 1,
                        m.insert(n, ValueSpec::Text(t)),
                    ),
                },
            },
        }
    }
}

/// The alias pass cannot fail once the named pass has read every value.
proof fn lemma_alias_pass_ok(
    names: Seq<Option<Seq<char>>>,
    caps: Seq<Option<Seq<char>>>,
    aliases: Seq<AliasSpec>,
    j: int,
    m: Map<Seq<char>, ValueSpec>,
)
    requires
        0 <= j,
        groups_distinct(aliases),
        forall|k: int|
            0 <= k < names.len() ==> match #[trigger] names[k] {
                Some(n) => match group_text(names, caps, n) {
                    Some(t) => match alias_of(aliases, n) {
                        Some(a) => convert(a.kind, t) is Ok,
                        None => true,
                    },
                    None => true,
                },
                None => true,
            },
    ensures
        alias_pass(names, caps, aliases, j, m) is Ok,
    decreases aliases.len() - j,
{
    if j < aliases.len() {
        let g = aliases[j].group;
        match group_text(names, caps, g) {
            None => lemma_alias_pass_ok(names, caps, aliases, j + 1, m),
            Some(t) => {
                lemma_name_index_from(names, g, 0);
                let k = name_index_from(names, g, 0)->Some_0;
                assert(names[k] == Some(g));
                assert forall|x: int| 0 <= x < j implies aliases[x].group != g by {
                    assert(aliases[x].group != aliases[j].group);
                }
                lemma_alias_index_from(aliases, g, 0, j);
                assert(alias_of(aliases, g) == Some(aliases[j]));
                let v = convert(aliases[j].kind, t)->Ok_0;
                lemma_alias_pass_ok(names, caps, aliases, j + 1, m.insert(aliases[j].alias, v));
            },
        }
    }
}

/// Parsing with a compiled pattern fails only on a captured value that cannot
/// be read as its type, and the error ends with that value: it is the reader's
/// error, a colon, and the value.
pub proof fn law_parse_error_names_the_value(
    user: Map<Seq<char>, Seq<char>>,
    defaults: Map<Seq<char>, Seq<char>>,
    text: Seq<char>,
    named_capture_only: bool,
    s: Seq<char>,
)
    ensures
        compile_result(user, defaults, text, named_capture_only) matches Ok(p) ==> (parse_result(
            p,
            s,
        ) matches Err(msg) ==> exists|e: Seq<char>, t: Seq<char>| msg == field_error(e, t)),
{
    law_compiled_groups_distinct(user, defaults, text, named_capture_only);
    if let Ok(p) = compile_result(user, defaults, text, named_capture_only) {
        if let Some(caps) = crate::engine::regex_captures(p.source, s) {
            let names = crate::engine::regex_group_names(p.source);
            let empty = Map::<Seq<char>, ValueSpec>::empty();
            lemma_named_pass_err(names, caps, p.aliases, 0, empty);
            if let Ok(m) = named_pass(names, caps, p.aliases, 0, empty) {
                lemma_named_pass_ok(names, caps, p.aliases, 0, empty);
                lemma_alias_pass_ok(names, caps, p.aliases, 0, m);
            }
        }
    }
}

/// A field name a pattern can report: the alias of one of its groups made for
/// a token, or the name of a named group that was not made for a token.
pub open spec fn reportable(names: Seq<Option<Seq<char>>>, aliases: Seq<AliasSpec>, k: Seq<char>) -> bool {
    ||| exists|j: int| 0 <= j < aliases.len() && #[trigger] aliases[j].alias == k
    ||| exists|i: int|
        0 <= i < names.len() && #[trigger] names[i] == Some(k) && alias_of(aliases, k) is None
}

pub proof fn lemma_alias_of_index(aliases: Seq<AliasSpec>, n: Seq<char>, j: int)
    requires
        0 <= j,
    ensures
        alias_index_from(aliases, n, j) matches Some(x) ==> j <= x < aliases.len() && aliases[x].group == n,
    decreases aliases.len() - j,
{
    if 0 <= j < aliases.len() && aliases[j].group != n {
        lemma_alias_of_index(aliases, n, j + 1);
    }
}

proof fn lemma_named_pass_keys(
    names: Seq<Option<Seq<char>>>,
    caps: Seq<Option<Seq<char>>>,
    aliases: Seq<AliasSpec>,
    i: int,
    m: Map<Seq<char>, ValueSpec>,
)
    requires
        0 <= i,
        forall|k: Seq<char>| #[trigger] m.contains_key(k) ==> reportable(names, aliases, k),
    ensures
        named_pass(names, caps, aliases, i, m) matches Ok(r) ==> forall|k: Seq<char>|
            #[trigger] r.contains_key(k) ==> reportable(names, aliases, k),
    decreases names.len() - i,
{
    if i < names.len() {
        match names[i] {
            None => lemma_named_pass_keys(names, caps, aliases, i + 1, m),
            Some(n) => match group_text(names, caps, n) {
                None => lemma_named_pass_keys(names, caps, aliases, i + 1, m),
                Some(t) => match alias_of(aliases, n) {
                    Some(a) => {
                        lemma_alias_of_index(aliases, n, 0);
                        let x = alias_index_from(aliases, n, 0)->Some_0;
                        assert(aliases[x].alias == a.alias);
                        if let Ok(v) = convert(a.kind, t) {
                            lemma_named_pass_keys(names, caps, aliases, i + 1, m.insert(a.alias, v));
                        }
                    },
                    None => {
                        assert(names[i] == Some(n));
                        lemma_named_pass_keys(
                            names,
                            caps,
                            aliases,
                            i + 1,
                            m.insert(n, ValueSpec::Text(t)),
                        );
                    },
                },
            },
        }
    }
}

proof fn lemma_alias_pass_keys(
    names: Seq<Option<Seq<char>>>,
    caps: Seq<Option<Seq<char>>>,
    aliases: Seq<AliasSpec>,
    j: int,
    m: Map<Seq<char>, ValueSpec>,
)
    requires
        0 <= j,
        forall|k: Seq<char>| #[trigger] m.contains_key(k) ==> reportable(names, aliases, k),
    ensures
        alias_pass(names, caps, aliases, j, m) matches Ok(r) ==> forall|k: Seq<char>|
            #[trigger] r.contains_key(k) ==> reportable(names, aliases, k),
    decreases aliases.len() - j,
{
    if j < aliases.len() {
        match group_text(names, caps, aliases[j].group) {
            None => lemma_alias_pass_keys(names, caps, aliases, j + 1, m),
            Some(t) => {
                if let Ok(v) = convert(aliases[j].kind, t) {
                    assert(reportable(names, aliases, aliases[j].alias));
                    lemma_alias_pass_keys(names, caps, aliases, j + 1, m.insert(aliases[j].alias, v));
                }
            },
        }
    }
}

/// Every field a parse reports is named by an alias of the pattern, or is a
/// named group of the regular expression that was not made for a token. With
/// `named_capture_only`, an alias is only made for a token that has one (see
/// `law_replacement_aliases`), so a token without alias reports nothing.
pub proof fn law_fields_are_named(p: PatternSpec, s: Seq<char>)
    ensures
        parse_result(p, s) matches Ok(m) ==> forall|k: Seq<char>|
            #[trigger] m.contains_key(k) ==> reportable(
                crate::engine::regex_group_names(p.source),
                p.aliases,
                k,
            ),
{
    if let Some(caps) = crate::engine::regex_captures(p.source, s) {
        let names = crate::engine::regex_group_names(p.source);
        let empty = Map::<Seq<char>, ValueSpec>::empty();
        lemma_named_pass_keys(names, caps, p.aliases, 0, empty);
        if let Ok(m) = named_pass(names, caps, p.aliases, 0, empty) {
            lemma_alias_pass_keys(names, caps, p.aliases, 0, m);
        }
    }
}

/// A text that the pattern does not match gives no field at all.
pub proof fn law_no_match_no_fields(p: PatternSpec, s: Seq<char>)
    requires
        crate::engine::regex_captures(p.source, s) is None,
    ensures
        parse_result(p, s) == Ok::<Map<Seq<char>, ValueSpec>, Seq<char>>(Map::empty()),
{
}

} // verus!
