//! Compiled patterns, and what they capture from a text.

use vstd::prelude::*;
use crate::engine::{CompiledRegex, captures, group_names, regex_captures, regex_group_names, texts_view};
use crate::numbers::{float_error, float_error_exec, parse_i64, parse_i64_exec};
use crate::text::{chars_eq, chars_of, copy_chars, push_all, string_from_chars};
use crate::token::FieldType;

verus! {

/// What a capture group stands for: the group `group` of the regular
/// expression is reported under the name `alias`, converted to `kind`.
pub struct AliasSpec {
    pub group: Seq<char>,
    pub alias: Seq<char>,
    pub kind: Option<FieldType>,
}

/// What a capture group stands for.
pub struct Alias {
    pub group: Vec<char>,
    pub alias: Vec<char>,
    pub kind: Option<FieldType>,
}

impl View for Alias {
    type V = AliasSpec;

    open spec fn view(&self) -> AliasSpec {
        AliasSpec { group: self.group@, alias: self.alias@, kind: self.kind }
    }
}

/// The aliases of a table, as spec values.
pub open spec fn aliases_view(a: Seq<Alias>) -> Seq<AliasSpec> {
    a.map_values(|x: Alias| x@)
}

/// A compiled pattern: the regular expression it expanded to, and what its
/// capture groups stand for, in the order they were made.
pub struct PatternSpec {
    pub source: Seq<char>,
    pub aliases: Seq<AliasSpec>,
}

/// A compiled pattern.
pub struct Pattern {
    regex: CompiledRegex,
    aliases: Vec<Alias>,
}

impl View for Pattern {
    type V = PatternSpec;

    closed spec fn view(&self) -> PatternSpec {
        PatternSpec { source: self.regex.source(), aliases: aliases_view(self.aliases@) }
    }
}

impl Pattern {
    pub(crate) fn new(regex: CompiledRegex, aliases: Vec<Alias>) -> (r: Pattern)
        ensures
            r@ == (PatternSpec { source: regex.source(), aliases: aliases_view(aliases@) }),
    {
        Pattern { regex, aliases }
    }

    /// The regular expression this pattern expanded to.
    pub fn regex_text(&self) -> (r: &str)
        ensures
            r@ == self@.source,
    {
        self.regex.as_str()
    }
}

/// A captured value.
///
/// A float is held by the text it was read from, which is a valid float
/// literal (see `crate::numbers::float_error`): the library holds no floating
/// point number.
#[derive(Clone, Debug, PartialEq)]
pub enum Value {
    Int(i64),
    Float(String),
    String(String),
}

/// A captured value, as a spec value.
pub enum ValueSpec {
    Int(i64),
    Float(Seq<char>),
    Text(Seq<char>),
}

impl View for Value {
    type V = ValueSpec;

    open spec fn view(&self) -> ValueSpec {
        match self {
            Value::Int(i) => ValueSpec::Int(*i),
            Value::Float(s) => ValueSpec::Float(s@),
            Value::String(s) => ValueSpec::Text(s@),
        }
    }
}

/// The value that `text`, captured by a group of type `kind`, stands for; or
/// the text of the error that reading it gives.
pub open spec fn convert(kind: Option<FieldType>, text: Seq<char>) -> Result<ValueSpec, Seq<char>> {
    match kind {
        None => Ok(ValueSpec::Text(text)),
        Some(FieldType::Int) => match parse_i64(text) {
            Ok(v) => Ok(ValueSpec::Int(v)),
            Err(e) => Err(e),
        },
        Some(FieldType::Float) => match float_error(text) {
            None => Ok(ValueSpec::Float(text)),
            Some(e) => Err(e),
        },
    }
}

/// The index of the first group named `n`, at `i` or later.
pub open spec fn name_index_from(names: Seq<Option<Seq<char>>>, n: Seq<char>, i: int) -> Option<int>
    decreases names.len() - i,
{
    if i < 0 || i >= names.len() {
        None
    } else if names[i] == Some(n) {
        Some(i)
    } else {
        name_index_from(names, n, i + 1)
    }
}

/// The text that the group named `n` matched, if it took part in the match.
pub open spec fn group_text(
    names: Seq<Option<Seq<char>>>,
    caps: Seq<Option<Seq<char>>>,
    n: Seq<char>,
) -> Option<Seq<char>> {
    match name_index_from(names, n, 0) {
        Some(i) => if i < caps.len() {
            caps[i]
        } else {
            None
        },
        None => None,
    }
}

/// The first alias entry, at `j` or later, for the group `n`.
pub open spec fn alias_index_from(aliases: Seq<AliasSpec>, n: Seq<char>, j: int) -> Option<int>
    decreases aliases.len() - j,
{
    if j < 0 || j >= aliases.len() {
        None
    } else if aliases[j].group == n {
        Some(j)
    } else {
        alias_index_from(aliases, n, j + 1)
    }
}

/// What the group `n` stands for, if it was made for a token.
pub open spec fn alias_of(aliases: Seq<AliasSpec>, n: Seq<char>) -> Option<AliasSpec> {
    match alias_index_from(aliases, n, 0) {
        Some(j) => Some(aliases[j]),
        None => None,
    }
}

/// The error for a value that cannot be read: the reader's error, a colon, and
/// the value.
pub open spec fn field_error(e: Seq<char>, text: Seq<char>) -> Seq<char> {
    e + ": "@ + text
}

/// Records, group by group from the `i`-th on, what every named group that
/// matched captured: under its alias, converted to its type, for a group made
/// for a token; under its own name, as text, otherwise.
pub open spec fn named_pass(
    names: Seq<Option<Seq<char>>>,
    caps: Seq<Option<Seq<char>>>,
    aliases: Seq<AliasSpec>,
    i: int,
    m: Map<Seq<char>, ValueSpec>,
) -> Result<Map<Seq<char>, ValueSpec>, Seq<char>>
    decreases names.len() - i,
{
    if i < 0 || i >= names.len() {
        Ok(m)
    } else {
        match names[i] {
            None => named_pass(names, caps, aliases, i + 1, m),
            Some(n) => match group_text(names, caps, n) {
                None => named_pass(names, caps, aliases, i + 1, m),
                Some(t) => match alias_of(aliases, n) {
                    Some(a) => match convert(a.kind, t) {
                        Ok(v) => named_pass(names, caps, aliases, i + 1, m.insert(a.alias, v)),
                        Err(e) => Err(field_error(e, t)),
                    },
                    None => named_pass(names, caps, aliases, i + 1, m.insert(n, ValueSpec::Text(t))),
                },
            },
        }
    }
}

/// Records again, alias entry by alias entry from the `j`-th on, the value of
/// every group made for a token that matched, under its alias.
pub open spec fn alias_pass(
    names: Seq<Option<Seq<char>>>,
    caps: Seq<Option<Seq<char>>>,
    aliases: Seq<AliasSpec>,
    j: int,
    m: Map<Seq<char>, ValueSpec>,
) -> Result<Map<Seq<char>, ValueSpec>, Seq<char>>
    decreases aliases.len() - j,
{
    if j < 0 || j >= aliases.len() {
        Ok(m)
    } else {
        match group_text(names, caps, aliases[j].group) {
            None => alias_pass(names, caps, aliases, j + 1, m),
            Some(t) => match convert(aliases[j].kind, t) {
                Ok(v) => alias_pass(names, caps, aliases, j + 1, m.insert(aliases[j].alias, v)),
                Err(e) => Err(e),
            },
        }
    }
}

/// What parsing `s` with the pattern `p` gives: nothing when the pattern does
/// not match, otherwise the captured fields by name.
pub open spec fn parse_result(p: PatternSpec, s: Seq<char>) -> Result<
    Map<Seq<char>, ValueSpec>,
    Seq<char>,
> {
    match regex_captures(p.source, s) {
        None => Ok(Map::empty()),
        Some(caps) => {
            let names = regex_group_names(p.source);
            match named_pass(names, caps, p.aliases, 0, Map::empty()) {
                Err(e) => Err(e),
                Ok(m) => alias_pass(names, caps, p.aliases, 0, m),
            }
        },
    }
}

/// The map that a sequence of fields gives, a later field replacing an earlier
/// one of the same name.
pub open spec fn pairs_map(s: Seq<(Seq<char>, ValueSpec)>) -> Map<Seq<char>, ValueSpec>
    decreases s.len(),
{
    if s.len() == 0 {
        Map::empty()
    } else {
        pairs_map(s.drop_last()).insert(s.last().0, s.last().1)
    }
}

/// No two fields have the same name.
pub open spec fn names_distinct(s: Seq<(Seq<char>, ValueSpec)>) -> bool {
    forall|i: int, j: int| 0 <= i < j < s.len() ==> s[i].0 != s[j].0
}

/// Fields with names as characters, as spec values.
pub open spec fn chars_fields_view(v: Seq<(Vec<char>, Value)>) -> Seq<(Seq<char>, ValueSpec)> {
    v.map_values(|e: (Vec<char>, Value)| (e.0@, e.1@))
}

/// Fields, as spec values.
pub open spec fn fields_view(v: Seq<(String, Value)>) -> Seq<(Seq<char>, ValueSpec)> {
    v.map_values(|e: (String, Value)| (e.0@, e.1@))
}

/// Replacing the value of a field, when names are distinct, is an insertion.
proof fn lemma_pairs_map_update(s: Seq<(Seq<char>, ValueSpec)>, i: int, v: ValueSpec)
    requires
        0 <= i < s.len(),
        names_distinct(s),
    ensures
        pairs_map(s.update(i, (s[i].0, v))) == pairs_map(s).insert(s[i].0, v),
    decreases s.len(),
{
    let k = s[i].0;
    let t = s.update(i, (k, v));
    assert(t.drop_last() =~= if i == s.len() - 1 {
        s.drop_last()
    } else {
        s.drop_last().update(i, (k, v))
    });
    if i == s.len() - 1 {
        assert(pairs_map(t) =~= pairs_map(s).insert(k, v));
    } else {
        lemma_pairs_map_update(s.drop_last(), i, v);
        assert(s.last().0 != k);
        assert(pairs_map(t) =~= pairs_map(s).insert(k, v));
    }
}

/// Sets the field `k` to `v`, adding it when there is none.
fn put_field(fields: &mut Vec<(Vec<char>, Value)>, k: Vec<char>, v: Value)
    requires
        names_distinct(chars_fields_view(old(fields)@)),
    ensures
        names_distinct(chars_fields_view(final(fields)@)),
        pairs_map(chars_fields_view(final(fields)@)) == pairs_map(
            chars_fields_view(old(fields)@),
        ).insert(k@, v@),
{
    let ghost s = chars_fields_view(fields@);
    let mut i: usize = 0;
    while i < fields.len()
        invariant
            i <= fields.len(),
            s == chars_fields_view(fields@),
            s == chars_fields_view(old(fields)@),
            names_distinct(s),
            forall|j: int| 0 <= j < i ==> s[j].0 != k@,
        decreases fields.len() - i,
    {
        if chars_eq(&fields[i].0, &k) {
            let ghost kv = k@;
            let ghost vv = v@;
            fields.set(i, (k, v));
            proof {
                lemma_pairs_map_update(s, i as int, vv);
                assert(chars_fields_view(fields@) =~= s.update(i as int, (kv, vv)));
            }
            return;
        }
        i = i + 1;
    }
    let ghost kv = k@;
    let ghost vv = v@;
    fields.push((k, v));
    proof {
        assert(chars_fields_view(fields@) =~= s.push((kv, vv)));
        assert(s.push((kv, vv)).drop_last() =~= s);
    }
}

fn group_text_exec<'a>(
    names: &Vec<Option<Vec<char>>>,
    caps: &'a Vec<Option<Vec<char>>>,
    n: &Vec<char>,
) -> (r: Option<&'a Vec<char>>)
    ensures
        match r {
            Some(t) => group_text(texts_view(names@), texts_view(caps@), n@) == Some(t@),
            None => group_text(texts_view(names@), texts_view(caps@), n@) is None,
        },
{
    let ghost nv = texts_view(names@);
    let mut i: usize = 0;
    while i < names.len()
        invariant
            i <= names.len(),
            nv == texts_view(names@),
            name_index_from(nv, n@, 0) == name_index_from(nv, n@, i as int),
        decreases names.len() - i,
    {
        let hit = match &names[i] {
            Some(m) => chars_eq(m, n),
            None => false,
        };
        if hit {
            if i < caps.len() {
                return match &caps[i] {
                    Some(t) => Some(t),
                    None => None,
                };
            }
            return None;
        }
        i = i + 1;
    }
    None
}

fn alias_of_exec(aliases: &Vec<Alias>, n: &Vec<char>) -> (r: Option<usize>)
    ensures
        match r {
            Some(j) => j < aliases.len() && alias_of(aliases_view(aliases@), n@) == Some(
                aliases@[j as int]@,
            ),
            None => alias_of(aliases_view(aliases@), n@) is None,
        },
{
    let ghost av = aliases_view(aliases@);
    let mut j: usize = 0;
    while j < aliases.len()
        invariant
            j <= aliases.len(),
            av == aliases_view(aliases@),
            alias_index_from(av, n@, 0) == alias_index_from(av, n@, j as int),
        decreases aliases.len() - j,
    {
        if chars_eq(&aliases[j].group, n) {
            return Some(j);
        }
        j = j + 1;
    }
    None
}

fn copy_value(v: &Value) -> (r: Value)
    ensures
        r@ == v@,
{
    match v {
        Value::Int(i) => Value::Int(*i),
        Value::Float(t) => Value::Float(t.clone()),
        Value::String(t) => Value::String(t.clone()),
    }
}

fn convert_exec(kind: Option<FieldType>, text: &Vec<char>) -> (r: Result<Value, Vec<char>>)
    ensures
        match r {
            Ok(v) => convert(kind, text@) == Ok::<ValueSpec, Seq<char>>(v@),
            Err(e) => convert(kind, text@) == Err::<ValueSpec, Seq<char>>(e@),
        },
{
    match kind {
        None => Ok(Value::String(string_from_chars(text))),
        Some(FieldType::Int) => match parse_i64_exec(text) {
            Ok(v) => Ok(Value::Int(v)),
            Err(e) => Err(e),
        },
        Some(FieldType::Float) => match float_error_exec(text) {
            None => Ok(Value::Float(string_from_chars(text))),
            Some(e) => Err(e),
        },
    }
}

impl Pattern {
    /// Matches `s` against this pattern and returns the captured fields, by
    /// name, each name once.
    ///
    /// When the pattern does not match, no field is captured. Otherwise every
    /// capture group that took part in the match gives a field: a group made
    /// for a token gives its alias, its value converted to the token's type
    /// (`int` or `float`); any other named group gives its own name and text.
    /// A value that cannot be read as its type fails the parse, with the
    /// reader's error, a colon and the value (`"invalid float literal: grok"`).
    pub fn parse(&self, s: &str) -> (r: Result<Vec<(String, Value)>, String>)
        ensures
            match r {
                Ok(v) => names_distinct(fields_view(v@)) && parse_result(self@, s@) == Ok::<
                    Map<Seq<char>, ValueSpec>,
                    Seq<char>,
                >(pairs_map(fields_view(v@))),
                Err(e) => parse_result(self@, s@) == Err::<Map<Seq<char>, ValueSpec>, Seq<char>>(
                    e@,
                ),
            },
    {
        let names = group_names(&self.regex);
        let caps = match captures(&self.regex, s) {
            Some(c) => c,
            None => {
                let r: Vec<(String, Value)> = Vec::new();
                assert(fields_view(r@) =~= Seq::<(Seq<char>, ValueSpec)>::empty());
                return Ok(r);
            },
        };
        let ghost nv = texts_view(names@);
        let ghost cv = texts_view(caps@);
        let ghost av = aliases_view(self.aliases@);
        let ghost whole = parse_result(self@, s@);
        assert(whole == match named_pass(nv, cv, av, 0, Map::empty()) {
            Err(e) => Err(e),
            Ok(m) => alias_pass(nv, cv, av, 0, m),
        });
        let mut fields: Vec<(Vec<char>, Value)> = Vec::new();
        assert(chars_fields_view(fields@) =~= Seq::<(Seq<char>, ValueSpec)>::empty());
        let ghost first = named_pass(nv, cv, av, 0, Map::empty());
        let mut i: usize = 0;
        while i < names.len()
            invariant
                i <= names.len(),
                nv == texts_view(names@),
                cv == texts_view(caps@),
                av == aliases_view(self.aliases@),
                names_distinct(chars_fields_view(fields@)),
                whole == parse_result(self@, s@),
                first == named_pass(nv, cv, av, i as int, pairs_map(chars_fields_view(fields@))),
                whole == match first {
                    Err(e) => Err(e),
                    Ok(m) => alias_pass(nv, cv, av, 0, m),
                },
            decreases names.len() - i,
        {
            if let Some(n) = &names[i] {
                if let Some(t) = group_text_exec(&names, &caps, n) {
                    match alias_of_exec(&self.aliases, n) {
                        Some(j) => {
                            let a = &self.aliases[j];
                            match convert_exec(a.kind, t) {
                                Ok(v) => {
                                    let key = copy_chars(&a.alias, 0, a.alias.len());
                                    assert(key@ =~= a.alias@);
                                    put_field(&mut fields, key, v);
                                },
                                Err(e) => {
                                    let mut m = e;
                                    let sep = chars_of(": ");
                                    push_all(&mut m, &sep);
                                    push_all(&mut m, t);
                                    return Err(string_from_chars(&m));
                                },
                            }
                        },
                        None => {
                            let key = copy_chars(n, 0, n.len());
                            assert(key@ =~= n@);
                            put_field(&mut fields, key, Value::String(string_from_chars(t)));
                        },
                    }
                }
            }
            i = i + 1;
        }
        let mut j: usize = 0;
        while j < self.aliases.len()
            invariant
                j <= self.aliases.len(),
                nv == texts_view(names@),
                cv == texts_view(caps@),
                av == aliases_view(self.aliases@),
                names_distinct(chars_fields_view(fields@)),
                whole == parse_result(self@, s@),
                whole == alias_pass(nv, cv, av, j as int, pairs_map(chars_fields_view(fields@))),
            decreases self.aliases.len() - j,
        {
            let a = &self.aliases[j];
            if let Some(t) = group_text_exec(&names, &caps, &a.group) {
                match convert_exec(a.kind, t) {
                    Ok(v) => {
                        let key = copy_chars(&a.alias, 0, a.alias.len());
                        assert(key@ =~= a.alias@);
                        put_field(&mut fields, key, v);
                    },
                    Err(e) => {
                        return Err(string_from_chars(&e));
                    },
                }
            }
            j = j + 1;
        }
        let mut out: Vec<(String, Value)> = Vec::new();
        let mut k: usize = 0;
        while k < fields.len()
            invariant
                k <= fields.len(),
                out@.len() == k,
                fields_view(out@) == chars_fields_view(fields@).subrange(0, k as int),
            decreases fields.len() - k,
        {
            let name = string_from_chars(&fields[k].0);
            let value = copy_value(&fields[k].1);
            out.push((name, value));
            k = k + 1;
            assert(fields_view(out@) =~= chars_fields_view(fields@).subrange(0, k as int));
        }
        assert(chars_fields_view(fields@).subrange(0, fields.len() as int) =~= chars_fields_view(
            fields@,
        ));
        Ok(out)
    }
}

} // verus!
