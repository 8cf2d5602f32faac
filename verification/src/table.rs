//! Named pattern definitions: a table from pattern names to regular
//! expressions, and the text format of pattern files.

use vstd::prelude::*;
use crate::text::{chars_of, chars_eq, push_range};

verus! {

/// The map that a sequence of definitions gives when they are inserted in
/// order: a later definition of a name replaces an earlier one.
pub open spec fn definitions_map(s: Seq<(Seq<char>, Seq<char>)>) -> Map<Seq<char>, Seq<char>>
    decreases s.len(),
{
    if s.len() == 0 {
        Map::empty()
    } else {
        definitions_map(s.drop_last()).insert(s.last().0, s.last().1)
    }
}

/// The definitions held by `entries`, as pairs of texts.
pub open spec fn entries_view(entries: Seq<(Vec<char>, Vec<char>)>) -> Seq<(Seq<char>, Seq<char>)> {
    entries.map_values(|e: (Vec<char>, Vec<char>)| (e.0@, e.1@))
}

/// A table of pattern definitions: each name maps to a regular expression.
///
/// Definitions are kept in the order they were added; a name defined more than
/// once means its latest definition.
pub struct PatternTable {
    entries: Vec<(Vec<char>, Vec<char>)>,
}

impl View for PatternTable {
    type V = Map<Seq<char>, Seq<char>>;

    closed spec fn view(&self) -> Map<Seq<char>, Seq<char>> {
        definitions_map(entries_view(self.entries@))
    }
}

/// The latest definition of `k` in `s` is the one at `i`.
proof fn lemma_definition_at(s: Seq<(Seq<char>, Seq<char>)>, i: int, k: Seq<char>)
    requires
        0 <= i < s.len(),
        s[i].0 == k,
        forall|j: int| i < j < s.len() ==> s[j].0 != k,
    ensures
        definitions_map(s).contains_key(k),
        definitions_map(s)[k] == s[i].1,
    decreases s.len(),
{
    if i < s.len() - 1 {
        lemma_definition_at(s.drop_last(), i, k);
    }
}

/// A name defined nowhere in `s` is not in its map.
proof fn lemma_definition_absent(s: Seq<(Seq<char>, Seq<char>)>, k: Seq<char>)
    requires
        forall|j: int| 0 <= j < s.len() ==> s[j].0 != k,
    ensures
        !definitions_map(s).contains_key(k),
    decreases s.len(),
{
    if s.len() > 0 {
        lemma_definition_absent(s.drop_last(), k);
    }
}

impl PatternTable {
    /// An empty table.
    pub fn new() -> (r: PatternTable)
        ensures
            r@ == Map::<Seq<char>, Seq<char>>::empty(),
    {
        let r = PatternTable { entries: Vec::new() };
        assert(entries_view(r.entries@) =~= Seq::<(Seq<char>, Seq<char>)>::empty());
        r
    }

    /// Defines (or redefines) `name` as `regex`.
    pub(crate) fn insert_chars(&mut self, name: Vec<char>, regex: Vec<char>)
        ensures
            final(self)@ == old(self)@.insert(name@, regex@),
    {
        let ghost k = name@;
        let ghost v = regex@;
        self.entries.push((name, regex));
        assert(entries_view(self.entries@).drop_last() =~= entries_view(old(self).entries@));
        assert(entries_view(self.entries@).last() == (k, v));
    }

    /// Defines (or redefines) `name` as `regex`.
    pub fn insert(&mut self, name: &str, regex: &str)
        ensures
            final(self)@ == old(self)@.insert(name@, regex@),
    {
        let n = chars_of(name);
        let r = chars_of(regex);
        self.insert_chars(n, r);
    }

    /// The regular expression that `name` is defined as.
    pub(crate) fn get(&self, name: &Vec<char>) -> (r: Option<&Vec<char>>)
        ensures
            match r {
                Some(v) => self@.contains_key(name@) && self@[name@] == v@,
                None => !self@.contains_key(name@),
            },
    {
        let ghost s = entries_view(self.entries@);
        let mut i = self.entries.len();
        while i > 0
            invariant
                i <= self.entries.len(),
                s == entries_view(self.entries@),
                forall|j: int| i <= j < s.len() ==> s[j].0 != name@,
            decreases i,
        {
            i = i - 1;
            if chars_eq(&self.entries[i].0, name) {
                proof {
                    lemma_definition_at(s, i as int, name@);
                }
                return Some(&self.entries[i].1);
            }
        }
        proof {
            lemma_definition_absent(s, name@);
        }
        None
    }
}

/// A whitespace character: one with the Unicode `White_Space` property, the
/// set that `char::is_whitespace` and `str::trim` go by.
pub open spec fn is_space_char(c: char) -> bool {
    ('\u{9}' <= c && c <= '\u{d}') || c == ' ' || c == '\u{85}' || c == '\u{a0}'
        || c == '\u{1680}' || ('\u{2000}' <= c && c <= '\u{200a}') || c == '\u{2028}'
        || c == '\u{2029}' || c == '\u{202f}' || c == '\u{205f}' || c == '\u{3000}'
}

fn is_space(c: char) -> (b: bool)
    ensures
        b == is_space_char(c),
{
    ('\u{9}' <= c && c <= '\u{d}') || c == ' ' || c == '\u{85}' || c == '\u{a0}'
        || c == '\u{1680}' || ('\u{2000}' <= c && c <= '\u{200a}') || c == '\u{2028}'
        || c == '\u{2029}' || c == '\u{202f}' || c == '\u{205f}' || c == '\u{3000}'
}

/// The end of the run of whitespace that starts at `i`.
pub open spec fn space_run_end(s: Seq<char>, i: int) -> int
    decreases s.len() - i,
{
    if 0 <= i < s.len() && is_space_char(s[i]) {
        space_run_end(s, i + 1)
    } else {
        i
    }
}

/// The start of the run of whitespace that ends at `j`.
pub open spec fn space_run_start(s: Seq<char>, j: int) -> int
    decreases j,
{
    if 0 < j <= s.len() && is_space_char(s[j - 1]) {
        space_run_start(s, j - 1)
    } else {
        j
    }
}

/// `s` without its leading and trailing whitespace.
pub open spec fn trim(s: Seq<char>) -> Seq<char> {
    let a = space_run_end(s, 0);
    let b = space_run_start(s, s.len() as int);
    if a >= b {
        Seq::empty()
    } else {
        s.subrange(a, b)
    }
}

/// A line of a pattern file that defines a pattern: neither empty nor a
/// comment (starting with `#`).
pub open spec fn is_definition(line: Seq<char>) -> bool {
    line.len() > 0 && line[0] != '#'
}

/// The position of the first space in `line`.
pub open spec fn first_space(line: Seq<char>) -> int {
    choose|k: int| 0 <= k < line.len() && line[k] == ' ' && forall|j: int| 0 <= j < k ==> line[j] != ' '
}

/// The name and the regular expression that a definition line holds: the
/// text before its first space, and the rest of the line trimmed.
pub open spec fn definition_of(line: Seq<char>) -> (Seq<char>, Seq<char>) {
    let k = first_space(line);
    (line.subrange(0, k), trim(line.subrange(k, line.len() as int)))
}

/// The definitions that `lines` hold, in order.
pub open spec fn definitions_of(lines: Seq<Seq<char>>) -> Seq<(Seq<char>, Seq<char>)>
    decreases lines.len(),
{
    if lines.len() == 0 {
        Seq::empty()
    } else if is_definition(lines.last()) {
        definitions_of(lines.drop_last()).push(definition_of(lines.last()))
    } else {
        definitions_of(lines.drop_last())
    }
}

/// Every definition line of `lines` holds a space, between the name and the
/// regular expression.
pub open spec fn lines_well_formed(lines: Seq<Seq<char>>) -> bool {
    forall|i: int| 0 <= i < lines.len() && is_definition(#[trigger] lines[i]) ==> lines[i].contains(' ')
}

/// `s` without its leading and trailing whitespace.
fn trim_chars(s: &Vec<char>, from: usize) -> (r: Vec<char>)
    requires
        from <= s.len(),
    ensures
        r@ == trim(s@.subrange(from as int, s.len() as int)),
{
    let ghost t = s@.subrange(from as int, s.len() as int);
    let mut a = from;
    while a < s.len() && is_space(s[a])
        invariant
            from <= a <= s.len(),
            t == s@.subrange(from as int, s.len() as int),
            space_run_end(t, 0) == space_run_end(t, a - from),
        decreases s.len() - a,
    {
        assert(t[a - from] == s@[a as int]);
        a = a + 1;
    }
    assert(a < s.len() ==> t[a - from] == s@[a as int]);
    let mut b = s.len();
    while b > from && is_space(s[b - 1])
        invariant
            from <= b <= s.len(),
            t == s@.subrange(from as int, s.len() as int),
            space_run_start(t, t.len() as int) == space_run_start(t, b - from),
        decreases b,
    {
        assert(t[b - 1 - from] == s@[b - 1]);
        b = b - 1;
    }
    assert(b > from ==> t[b - 1 - from] == s@[b - 1]);
    let mut r: Vec<char> = Vec::new();
    if a < b {
        push_range(&mut r, s, a, b);
        assert(r@ =~= t.subrange(a - from, b - from));
    } else {
        assert(r@ =~= Seq::<char>::empty());
    }
    r
}

/// The name and regular expression defined by `line`.
fn definition_chars(line: &Vec<char>) -> (r: (Vec<char>, Vec<char>))
    requires
        line@.contains(' '),
    ensures
        (r.0@, r.1@) == definition_of(line@),
{
    let mut k: usize = 0;
    while line[k] != ' '
        invariant
            k < line.len(),
            line@.contains(' '),
            forall|j: int| 0 <= j < k ==> line@[j] != ' ',
        decreases line.len() - k,
    {
        k = k + 1;
        proof {
            if k == line.len() {
                let w = choose|w: int| 0 <= w < line.len() && line@[w] == ' ';
                assert(line@[w] != ' ');
            }
        }
    }
    let ghost m = first_space(line@);
    assert(m == k) by {
        assert(0 <= k < line.len() && line@[k as int] == ' ' && forall|j: int|
            0 <= j < k ==> line@[j] != ' ');
        if m < k {
            assert(line@[m] != ' ');
        } else if m > k {
            assert(line@[k as int] != ' ');
        }
    }
    let mut name: Vec<char> = Vec::new();
    push_range(&mut name, line, 0, k);
    assert(name@ =~= line@.subrange(0, k as int));
    let regex = trim_chars(line, k);
    (name, regex)
}

impl PatternTable {
    /// The table that the lines of pattern files define.
    ///
    /// Empty lines and lines that start with `#` are skipped. Every other line
    /// holds a name, a space, and a regular expression; the expression is
    /// trimmed of surrounding whitespace. A name defined again replaces the
    /// earlier definition.
    pub fn from_lines(lines: &Vec<String>) -> (r: PatternTable)
        requires
            lines_well_formed(lines@.map_values(|l: String| l@)),
        ensures
            r@ == definitions_map(definitions_of(lines@.map_values(|l: String| l@))),
    {
        let ghost ls = lines@.map_values(|l: String| l@);
        let mut table = PatternTable::new();
        let mut i: usize = 0;
        while i < lines.len()
            invariant
                i <= lines.len(),
                ls == lines@.map_values(|l: String| l@),
                lines_well_formed(ls),
                table@ == definitions_map(definitions_of(ls.subrange(0, i as int))),
            decreases lines.len() - i,
        {
            let line = chars_of(lines[i].as_str());
            assert(ls.subrange(0, i + 1).drop_last() =~= ls.subrange(0, i as int));
            assert(ls.subrange(0, i + 1).last() == ls[i as int]);
            assert(ls[i as int] == line@);
            if line.len() > 0 && line[0] != '#' {
                assert(is_definition(ls[i as int]));
                let (name, regex) = definition_chars(&line);
                let ghost d = definitions_of(ls.subrange(0, i as int));
                assert(d.push(definition_of(line@)).drop_last() =~= d);
                table.insert_chars(name, regex);
            }
            i = i + 1;
        }
        assert(ls.subrange(0, lines.len() as int) =~= ls);
        table
    }
}

} // verus!
