//! The pattern compiler: expands grok tokens into one regular expression.

use vstd::prelude::*;
use crate::engine::{compile_regex, regex_build_error};
use crate::pattern::{Alias, AliasSpec, Pattern, PatternSpec, aliases_view};
use crate::table::{PatternTable, definitions_map};
use crate::text::{
    chars_of, copy_chars, decimal, find_from, find_occurrence, lemma_find_from, push_all,
    push_decimal, push_range, string_from_chars,
};
use crate::token::{Token, TokenSpec, find_token, first_token};

verus! {

broadcast use vstd::string::group_string_axioms;

/// How many tokens one compilation expands at most.
pub const MAX_RECURSION: u64 = 1024;

/// The name of the capture group made for the `index`-th expansion.
pub open spec fn group_name(index: nat) -> Seq<char> {
    seq!['n', 'a', 'm', 'e'] + decimal(index)
}

/// Whether expanding `tok` makes a capture group: always, unless only named
/// captures are wanted and the token has no alias.
pub open spec fn captures_token(tok: TokenSpec, named_capture_only: bool) -> bool {
    !(tok.alias is None && named_capture_only)
}

/// The text that replaces one occurrence of a token whose pattern is `re`:
/// `(?<nameN>re)` when it is captured, `(?:re)` otherwise.
pub open spec fn replacement(re: Seq<char>, capture: bool, index: nat) -> Seq<char> {
    if capture {
        seq!['(', '?', '<'] + group_name(index) + seq!['>'] + re + seq![')']
    } else {
        seq!['(', '?', ':'] + re + seq![')']
    }
}

/// What the capture group made for `tok` at `index` stands for: its alias, or
/// the pattern's name when it has none, and its type.
pub open spec fn alias_for(tok: TokenSpec, index: nat) -> AliasSpec {
    AliasSpec {
        group: group_name(index),
        alias: match tok.alias {
            Some(a) => a,
            None => tok.pattern,
        },
        kind: tok.kind,
    }
}

/// The state of an expansion: the text so far, the capture groups made so
/// far, and the number of replacements made so far.
pub struct Expansion {
    pub haystack: Seq<char>,
    pub aliases: Seq<AliasSpec>,
    pub index: nat,
}

/// Replaces, one after the other, every occurrence of the token text `t` at or
/// after `from`, each by its replacement for pattern `re`; the search goes on
/// after the inserted text.
pub open spec fn replace_occurrences(
    e: Expansion,
    from: int,
    t: Seq<char>,
    re: Seq<char>,
    tok: TokenSpec,
    named_capture_only: bool,
) -> Expansion
    decreases e.haystack.len() + 1 - from,
{
    if from < 0 || t.len() == 0 {
        e
    } else {
        match find_from(e.haystack, t, from) {
            None => e,
            Some(p) => {
                proof {
                    lemma_find_from(e.haystack, t, from);
                }
                let capture = captures_token(tok, named_capture_only);
                let r = replacement(re, capture, e.index);
                let h = e.haystack.subrange(0, p) + r + e.haystack.subrange(
                    p + t.len(),
                    e.haystack.len() as int,
                );
                let aliases = if capture {
                    e.aliases.push(alias_for(tok, e.index))
                } else {
                    e.aliases
                };
                replace_occurrences(
                    Expansion { haystack: h, aliases, index: e.index + 1 },
                    p + r.len(),
                    t,
                    re,
                    tok,
                    named_capture_only,
                )
            },
        }
    }
}

/// The regular expression that `name` is defined as: by the user's patterns
/// first, then by the default ones.
pub open spec fn lookup(
    user: Map<Seq<char>, Seq<char>>,
    defaults: Map<Seq<char>, Seq<char>>,
    name: Seq<char>,
) -> Option<Seq<char>> {
    if user.contains_key(name) {
        Some(user[name])
    } else if defaults.contains_key(name) {
        Some(defaults[name])
    } else {
        None
    }
}

/// The error when more than `MAX_RECURSION` tokens would be expanded.
pub open spec fn max_recursion_message() -> Seq<char> {
    "max recursion 1024 reached"@
}

/// The error when a token names a pattern that is not defined.
pub open spec fn not_found_message(name: Seq<char>) -> Seq<char> {
    "pattern: "@ + name + "  not found"@
}

/// Expands the leftmost token of the text, with every other occurrence of the
/// same token text, and goes on until no token is left; at most `left` more
/// tokens are expanded.
pub open spec fn expand(
    user: Map<Seq<char>, Seq<char>>,
    defaults: Map<Seq<char>, Seq<char>>,
    e: Expansion,
    left: nat,
    named_capture_only: bool,
) -> Result<Expansion, Seq<char>>
    decreases left,
{
    match first_token(e.haystack) {
        None => Ok(e),
        Some(tok) => {
            if left == 0 {
                Err(max_recursion_message())
            } else {
                match lookup(user, defaults, tok.pattern) {
                    None => Err(not_found_message(tok.pattern)),
                    Some(re) => expand(
                        user,
                        defaults,
                        replace_occurrences(
                            e,
                            0,
                            e.haystack.subrange(tok.start, tok.end),
                            re,
                            tok,
                            named_capture_only,
                        ),
                        (left - 1) as nat,
                        named_capture_only,
                    ),
                }
            }
        },
    }
}

/// Whether the expansion never ends: some round reaches a token whose
/// definition holds the token's own text. Replacing the occurrences of such a
/// token one at a time, each time the first one left in the whole text, never
/// runs out of occurrences.
pub open spec fn expansion_endless(
    user: Map<Seq<char>, Seq<char>>,
    defaults: Map<Seq<char>, Seq<char>>,
    e: Expansion,
    left: nat,
    named_capture_only: bool,
) -> bool
    decreases left,
{
    match first_token(e.haystack) {
        None => false,
        Some(tok) => {
            if left == 0 {
                false
            } else {
                match lookup(user, defaults, tok.pattern) {
                    None => false,
                    Some(re) => {
                        let t = e.haystack.subrange(tok.start, tok.end);
                        find_from(re, t, 0) is Some || expansion_endless(
                            user,
                            defaults,
                            replace_occurrences(e, 0, t, re, tok, named_capture_only),
                            (left - 1) as nat,
                            named_capture_only,
                        )
                    },
                }
            }
        },
    }
}

/// Whether compiling `s` never returns (see `expansion_endless`).
pub open spec fn compile_never_returns(
    user: Map<Seq<char>, Seq<char>>,
    defaults: Map<Seq<char>, Seq<char>>,
    s: Seq<char>,
    named_capture_only: bool,
) -> bool {
    expansion_endless(
        user,
        defaults,
        Expansion { haystack: s, aliases: Seq::empty(), index: 0 },
        MAX_RECURSION as nat,
        named_capture_only,
    )
}

/// What compiling `s` gives: its full expansion, compiled as a regular
/// expression.
pub open spec fn compile_result(
    user: Map<Seq<char>, Seq<char>>,
    defaults: Map<Seq<char>, Seq<char>>,
    s: Seq<char>,
    named_capture_only: bool,
) -> Result<PatternSpec, Seq<char>> {
    match expand(
        user,
        defaults,
        Expansion { haystack: s, aliases: Seq::empty(), index: 0 },
        MAX_RECURSION as nat,
        named_capture_only,
    ) {
        Err(e) => Err(e),
        Ok(x) => match regex_build_error(x.haystack) {
            Some(e) => Err(e),
            None => Ok(PatternSpec { source: x.haystack, aliases: x.aliases }),
        },
    }
}

/// A set of pattern definitions: the user's own, which take precedence, and
/// the default ones.
pub struct Grok {
    patterns: PatternTable,
    defaults: PatternTable,
}

impl Grok {
    /// The patterns the user defined.
    pub closed spec fn user_patterns(&self) -> Map<Seq<char>, Seq<char>> {
        self.patterns@
    }

    /// The default patterns.
    pub closed spec fn default_patterns(&self) -> Map<Seq<char>, Seq<char>> {
        self.defaults@
    }

    /// A `Grok` whose default patterns are `defaults` and that has no pattern
    /// of the user's.
    pub fn with_default_patterns(defaults: PatternTable) -> (r: Grok)
        ensures
            r.user_patterns() == Map::<Seq<char>, Seq<char>>::empty(),
            r.default_patterns() == defaults@,
    {
        Grok { patterns: PatternTable::new(), defaults }
    }

    /// Defines the pattern `name` as `pattern`, replacing any earlier
    /// definition of it by the user.
    pub fn add_pattern(&mut self, name: &str, pattern: &str)
        ensures
            final(self).user_patterns() == old(self).user_patterns().insert(name@, pattern@),
            final(self).default_patterns() == old(self).default_patterns(),
    {
        self.patterns.insert(name, pattern);
    }

    fn lookup_exec(&self, name: &Vec<char>) -> (r: Option<&Vec<char>>)
        ensures
            match r {
                Some(v) => lookup(self.user_patterns(), self.default_patterns(), name@) == Some(v@),
                None => lookup(self.user_patterns(), self.default_patterns(), name@) is None,
            },
    {
        match self.patterns.get(name) {
            Some(v) => Some(v),
            None => self.defaults.get(name),
        }
    }
}

/// The definitions that `pairs` hold, as texts.
pub open spec fn pairs_view(pairs: Seq<(&str, &str)>) -> Seq<(Seq<char>, Seq<char>)> {
    pairs.map_values(|p: (&str, &str)| (p.0@, p.1@))
}

impl Default for Grok {
    /// A `Grok` with no pattern at all.
    fn default() -> (r: Grok)
        ensures
            r.user_patterns() == Map::<Seq<char>, Seq<char>>::empty(),
            r.default_patterns() == Map::<Seq<char>, Seq<char>>::empty(),
    {
        Grok { patterns: PatternTable::new(), defaults: PatternTable::new() }
    }
}

impl Grok {
    /// A `Grok` whose user patterns are defined by `pairs`, in order: a name
    /// defined twice means its later definition.
    pub fn from_iter(pairs: Vec<(&str, &str)>) -> (r: Grok)
        ensures
            r.user_patterns() == definitions_map(pairs_view(pairs@)),
            r.default_patterns() == Map::<Seq<char>, Seq<char>>::empty(),
    {
        let mut grok = Grok::default();
        let mut i: usize = 0;
        while i < pairs.len()
            invariant
                i <= pairs.len(),
                grok.user_patterns() == definitions_map(pairs_view(pairs@).subrange(0, i as int)),
                grok.default_patterns() == Map::<Seq<char>, Seq<char>>::empty(),
            decreases pairs.len() - i,
        {
            let (name, pattern) = pairs[i];
            grok.add_pattern(name, pattern);
            assert(pairs_view(pairs@).subrange(0, i + 1).drop_last() =~= pairs_view(pairs@).subrange(
                0,
                i as int,
            ));
            i = i + 1;
        }
        assert(pairs_view(pairs@).subrange(0, pairs.len() as int) =~= pairs_view(pairs@));
        grok
    }

    /// A `Grok` whose user patterns are defined by `pairs`, in order: a name
    /// defined twice means its later definition.
    pub fn from<const N: usize>(pairs: [(&str, &str); N]) -> (r: Grok)
        ensures
            r.user_patterns() == definitions_map(pairs_view(pairs@)),
            r.default_patterns() == Map::<Seq<char>, Seq<char>>::empty(),
    {
        let mut grok = Grok::default();
        let mut i: usize = 0;
        while i < N
            invariant
                i <= N,
                N == pairs@.len(),
                grok.user_patterns() == definitions_map(pairs_view(pairs@).subrange(0, i as int)),
                grok.default_patterns() == Map::<Seq<char>, Seq<char>>::empty(),
            decreases N - i,
        {
            let (name, pattern) = pairs[i];
            grok.add_pattern(name, pattern);
            assert(pairs_view(pairs@).subrange(0, i + 1).drop_last() =~= pairs_view(pairs@).subrange(
                0,
                i as int,
            ));
            i = i + 1;
        }
        assert(pairs_view(pairs@).subrange(0, N as int) =~= pairs_view(pairs@));
        grok
    }
}

fn group_name_chars(index: u128) -> (r: Vec<char>)
    ensures
        r@ == group_name(index as nat),
{
    let mut r: Vec<char> = Vec::new();
    r.push('n');
    r.push('a');
    r.push('m');
    r.push('e');
    push_decimal(&mut r, index);
    assert(r@ =~= group_name(index as nat));
    r
}

fn push_replacement(out: &mut Vec<char>, re: &Vec<char>, capture: bool, index: u128)
    ensures
        final(out)@ == old(out)@ + replacement(re@, capture, index as nat),
{
    if capture {
        out.push('(');
        out.push('?');
        out.push('<');
        let name = group_name_chars(index);
        push_all(out, &name);
        out.push('>');
        push_all(out, re);
        out.push(')');
    } else {
        out.push('(');
        out.push('?');
        out.push(':');
        push_all(out, re);
        out.push(')');
    }
    assert(out@ =~= old(out)@ + replacement(re@, capture, index as nat));
}

/// The view of an expansion state held by exec values.
pub open spec fn state(h: Seq<char>, aliases: Seq<Alias>, index: u128) -> Expansion {
    Expansion { haystack: h, aliases: aliases_view(aliases), index: index as nat }
}

/// 2^64, an upper bound of `usize::MAX + 1`.
pub open spec fn word_bound() -> int {
    0x1_0000_0000_0000_0000
}

/// Replaces every occurrence of the token `tok` (its text in `h`) by its
/// replacement for pattern `re`.
fn replace_token(
    h: Vec<char>,
    aliases: &mut Vec<Alias>,
    index: &mut u128,
    tok: &Token,
    re: &Vec<char>,
    named_capture_only: bool,
) -> (r: Vec<char>)
    requires
        tok.start < tok.end <= h.len(),
        *old(index) <= 1023 * word_bound(),
    ensures
        state(r@, final(aliases)@, *final(index)) == replace_occurrences(
            state(h@, old(aliases)@, *old(index)),
            0,
            h@.subrange(tok.start as int, tok.end as int),
            re@,
            tok@,
            named_capture_only,
        ),
        *final(index) <= *old(index) + word_bound(),
{
    let t = copy_chars(&h, tok.start, tok.end);
    let ghost tok_spec = tok@;
    let ghost result = replace_occurrences(
        state(h@, aliases@, *index),
        0,
        t@,
        re@,
        tok_spec,
        named_capture_only,
    );
    let ghost index0 = *index;
    let capture = !(tok.alias.is_none() && named_capture_only);
    assert(capture == captures_token(tok_spec, named_capture_only));
    let mut h = h;
    let mut from: usize = 0;
    loop
        invariant
            t@.len() > 0,
            tok_spec == tok@,
            from <= h.len(),
            capture == captures_token(tok_spec, named_capture_only),
            index0 <= 1023 * word_bound(),
            index0 <= *index,
            4 * (*index - index0) <= from,
            result == replace_occurrences(
                state(h@, aliases@, *index),
                from as int,
                t@,
                re@,
                tok_spec,
                named_capture_only,
            ),
        ensures
            result == state(h@, aliases@, *index),
            *index <= index0 + word_bound(),
        decreases h.len() + 1 - from,
    {
        let found = find_occurrence(&h, &t, from);
        match found {
            None => {
                break;
            },
            Some(p) => {
                proof {
                    lemma_find_from(h@, t@, from as int);
                }
                let mut nh: Vec<char> = Vec::new();
                push_range(&mut nh, &h, 0, p);
                push_replacement(&mut nh, re, capture, *index);
                let next = nh.len();
                push_range(&mut nh, &h, p + t.len(), h.len());
                if capture {
                    let group = group_name_chars(*index);
                    let alias_text = match &tok.alias {
                        Some(a) => {
                            let c = copy_chars(a, 0, a.len());
                            assert(c@ =~= a@);
                            c
                        },
                        None => {
                            let c = copy_chars(&tok.pattern, 0, tok.pattern.len());
                            assert(c@ =~= tok.pattern@);
                            c
                        },
                    };
                    let ghost before = aliases@;
                    let entry = Alias { group, alias: alias_text, kind: tok.kind };
                    assert(entry@ == alias_for(tok_spec, *index as nat));
                    aliases.push(entry);
                    assert(aliases_view(aliases@) =~= aliases_view(before).push(
                        alias_for(tok_spec, *index as nat),
                    ));
                }
                *index = *index + 1;
                from = next;
                h = nh;
            },
        }
    }
    h
}

impl Grok {
    /// Compiles `s` into a pattern.
    ///
    /// Every grok token `%{PATTERN}`, `%{PATTERN:alias}` or
    /// `%{PATTERN:alias:type}` is replaced by the regular expression that
    /// `PATTERN` is defined as, wrapped in a capture group `(?<nameN>...)`,
    /// until no token is left; the group stands for `alias` (or the pattern's
    /// name when there is none). When `named_capture_only` is true, a token
    /// without alias is wrapped in a group that captures nothing, so that only
    /// aliased tokens are captured. For example, with `named_capture_only`,
    /// `"%{USERNAME} %{EMAILADDRESS:email}"` captures only `email`.
    ///
    /// The expansion goes by rounds: each round takes the leftmost token and
    /// replaces every occurrence of its text, numbering the groups in the
    /// order of replacement; text that a round inserts is expanded by later
    /// rounds. A round whose token's definition holds the token itself would
    /// never end: such inputs are left out (`compile_never_returns`).
    ///
    /// Fails when a token names an undefined pattern, when more than
    /// `MAX_RECURSION` tokens would be expanded, or when the result is not a
    /// valid regular expression.
    pub fn compile(&self, s: &str, named_capture_only: bool) -> (r: Result<Pattern, String>)
        requires
            !compile_never_returns(
                self.user_patterns(),
                self.default_patterns(),
                s@,
                named_capture_only,
            ),
        ensures
            match r {
                Ok(p) => compile_result(
                    self.user_patterns(),
                    self.default_patterns(),
                    s@,
                    named_capture_only,
                ) == Ok::<PatternSpec, Seq<char>>(p@),
                Err(e) => compile_result(
                    self.user_patterns(),
                    self.default_patterns(),
                    s@,
                    named_capture_only,
                ) == Err::<PatternSpec, Seq<char>>(e@),
            },
    {
        let ghost user = self.user_patterns();
        let ghost defaults = self.default_patterns();
        let mut h = chars_of(s);
        let mut aliases: Vec<Alias> = Vec::new();
        let mut index: u128 = 0;
        let mut left: u64 = MAX_RECURSION;
        let ghost goal = expand(
            user,
            defaults,
            Expansion { haystack: s@, aliases: Seq::empty(), index: 0 },
            MAX_RECURSION as nat,
            named_capture_only,
        );
        assert(state(h@, aliases@, index) == Expansion {
            haystack: s@,
            aliases: Seq::empty(),
            index: 0,
        }) by {
            assert(aliases_view(aliases@) =~= Seq::<AliasSpec>::empty());
        }
        loop
            invariant
                user == self.user_patterns(),
                defaults == self.default_patterns(),
                goal == expand(
                    user,
                    defaults,
                    Expansion { haystack: s@, aliases: Seq::empty(), index: 0 },
                    MAX_RECURSION as nat,
                    named_capture_only,
                ),
                left <= MAX_RECURSION,
                index <= (MAX_RECURSION - left) * word_bound(),
                goal == expand(
                    user,
                    defaults,
                    state(h@, aliases@, index),
                    left as nat,
                    named_capture_only,
                ),
                !expansion_endless(
                    user,
                    defaults,
                    state(h@, aliases@, index),
                    left as nat,
                    named_capture_only,
                ),
            ensures
                goal == Ok::<Expansion, Seq<char>>(state(h@, aliases@, index)),
            decreases left,
        {
            let found = find_token(&h);
            match found {
                None => {
                    break;
                },
                Some(tok) => {
                    if left == 0 {
                        return Err("max recursion 1024 reached".to_string());
                    }
                    left = left - 1;
                    let re = match self.lookup_exec(&tok.pattern) {
                        Some(re) => re,
                        None => {
                            let mut m = chars_of("pattern: ");
                            push_all(&mut m, &tok.pattern);
                            let tail = chars_of("  not found");
                            push_all(&mut m, &tail);
                            let msg = string_from_chars(&m);
                            return Err(msg);
                        },
                    };
                    proof {
                        // a token lies within the text it was found in
                        assert(tok.start < tok.end <= h.len()) by {
                            crate::token::lemma_first_token_bounds(h@);
                        }
                    }
                    h = replace_token(h, &mut aliases, &mut index, &tok, re, named_capture_only);
                },
            }
        }
        let source = string_from_chars(&h);
        match compile_regex(source.as_str()) {
            Ok(c) => Ok(Pattern::new(c, aliases)),
            Err(e) => Err(e),
        }
    }
}

} // verus!
