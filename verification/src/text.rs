//! Texts as sequences of characters, and the few operations on them that the
//! pattern compiler needs.

use vstd::prelude::*;

verus! {

broadcast use vstd::string::group_string_axioms;

/// The characters of `s`.
pub(crate) fn chars_of(s: &str) -> (r: Vec<char>)
    ensures
        r@ == s@,
{
    let mut v: Vec<char> = Vec::new();
    for c in it: s.chars()
        invariant
            v@ == it.history(),
    {
        v.push(c);
    }
    v
}

/// A copy of `h[from..to]`.
pub(crate) fn copy_chars(h: &Vec<char>, from: usize, to: usize) -> (r: Vec<char>)
    requires
        from <= to <= h.len(),
    ensures
        r@ == h@.subrange(from as int, to as int),
{
    let mut r: Vec<char> = Vec::new();
    let mut k = from;
    while k < to
        invariant
            from <= k <= to <= h.len(),
            r@ == h@.subrange(from as int, k as int),
        decreases to - k,
    {
        r.push(h[k]);
        k = k + 1;
        assert(r@ =~= h@.subrange(from as int, k as int));
    }
    r
}

/// A `String` holding the characters of `v`, built by `FromIterator<char>`
/// (`collect`). The contract claims that its characters are those of `v`.
#[verifier::external_body]
pub(crate) fn string_from_chars(v: &Vec<char>) -> (r: String)
    ensures
        r@ == v@,
{
    v.iter().collect()
}

/// Whether `a` and `b` hold the same characters.
pub(crate) fn chars_eq(a: &Vec<char>, b: &Vec<char>) -> (r: bool)
    ensures
        r == (a@ == b@),
{
    if a.len() != b.len() {
        return false;
    }
    let mut i: usize = 0;
    while i < a.len()
        invariant
            a.len() == b.len(),
            i <= a.len(),
            forall|j: int| 0 <= j < i ==> a@[j] == b@[j],
        decreases a.len() - i,
    {
        if a[i] != b[i] {
            return false;
        }
        i = i + 1;
    }
    assert(a@ =~= b@);
    true
}

/// `t` occurs in `h` at position `i`.
pub open spec fn occurs_at(h: Seq<char>, t: Seq<char>, i: int) -> bool {
    0 <= i && i + t.len() <= h.len() && h.subrange(i, i + t.len()) == t
}

/// The first position at or after `i` where `t` occurs in `h`.
pub open spec fn find_from(h: Seq<char>, t: Seq<char>, i: int) -> Option<int>
    decreases h.len() + 1 - i,
{
    if i < 0 || i + t.len() > h.len() {
        None
    } else if occurs_at(h, t, i) {
        Some(i)
    } else {
        find_from(h, t, i + 1)
    }
}

/// What `find_from` returns is an occurrence at or after `i`, and the first one.
pub proof fn lemma_find_from(h: Seq<char>, t: Seq<char>, i: int)
    requires
        0 <= i,
    ensures
        match find_from(h, t, i) {
            Some(p) => i <= p && occurs_at(h, t, p) && forall|q: int|
                i <= q < p ==> !occurs_at(h, t, q),
            None => forall|q: int| i <= q ==> !occurs_at(h, t, q),
        },
    decreases h.len() + 1 - i,
{
    if i + t.len() > h.len() {
    } else if !occurs_at(h, t, i) {
        lemma_find_from(h, t, i + 1);
    }
}

fn occurs_at_exec(h: &Vec<char>, t: &Vec<char>, i: usize) -> (r: bool)
    requires
        i + t.len() <= h.len(),
    ensures
        r == occurs_at(h@, t@, i as int),
{
    let mut k: usize = 0;
    while k < t.len()
        invariant
            i + t.len() <= h.len(),
            k <= t.len(),
            forall|j: int| 0 <= j < k ==> h@[i + j] == t@[j],
        decreases t.len() - k,
    {
        if h[i + k] != t[k] {
            assert(h@.subrange(i as int, i + t.len())[k as int] == h@[i + k]);
            return false;
        }
        k = k + 1;
    }
    assert(h@.subrange(i as int, i + t.len()) =~= t@);
    true
}

/// The first position at or after `from` where `t` occurs in `h`.
pub(crate) fn find_occurrence(h: &Vec<char>, t: &Vec<char>, from: usize) -> (r: Option<usize>)
    ensures
        match r {
            Some(p) => find_from(h@, t@, from as int) == Some(p as int),
            None => find_from(h@, t@, from as int) is None,
        },
{
    if t.len() > h.len() {
        return None;
    }
    let last = h.len() - t.len();
    let mut i = from;
    while i <= last
        invariant
            last == h.len() - t.len(),
            from <= i,
            find_from(h@, t@, from as int) == find_from(h@, t@, i as int),
        decreases last + 1 - i,
    {
        if occurs_at_exec(h, t, i) {
            return Some(i);
        }
        if i == last {
            return None;
        }
        i = i + 1;
    }
    None
}

/// The decimal digit for `d`.
pub open spec fn digit_char(d: nat) -> char {
    if d == 0 {
        '0'
    } else if d == 1 {
        '1'
    } else if d == 2 {
        '2'
    } else if d == 3 {
        '3'
    } else if d == 4 {
        '4'
    } else if d == 5 {
        '5'
    } else if d == 6 {
        '6'
    } else if d == 7 {
        '7'
    } else if d == 8 {
        '8'
    } else {
        '9'
    }
}

/// The decimal representation of `n`, without leading zeros.
pub open spec fn decimal(n: nat) -> Seq<char>
    decreases n,
{
    if n < 10 {
        seq![digit_char(n)]
    } else {
        decimal(n / 10).push(digit_char(n % 10))
    }
}

fn digit_of(d: u128) -> (c: char)
    requires
        d < 10,
    ensures
        c == digit_char(d as nat),
{
    if d == 0 { '0' }
    else if d == 1 { '1' }
    else if d == 2 { '2' }
    else if d == 3 { '3' }
    else if d == 4 { '4' }
    else if d == 5 { '5' }
    else if d == 6 { '6' }
    else if d == 7 { '7' }
    else if d == 8 { '8' }
    else { '9' }
}

/// Appends the decimal representation of `n` to `out`.
pub(crate) fn push_decimal(out: &mut Vec<char>, n: u128)
    ensures
        final(out)@ == old(out)@ + decimal(n as nat),
    decreases n,
{
    if n < 10 {
        out.push(digit_of(n));
        assert(decimal(n as nat) =~= seq![digit_char(n as nat)]);
    } else {
        push_decimal(out, n / 10);
        out.push(digit_of(n % 10));
        assert(decimal(n as nat) =~= decimal((n / 10) as nat).push(digit_char((n % 10) as nat)));
    }
}

/// Appends all of `src` to `out`.
pub(crate) fn push_all(out: &mut Vec<char>, src: &Vec<char>)
    ensures
        final(out)@ == old(out)@ + src@,
{
    let mut i: usize = 0;
    while i < src.len()
        invariant
            i <= src.len(),
            out@ == old(out)@ + src@.subrange(0, i as int),
        decreases src.len() - i,
    {
        out.push(src[i]);
        i = i + 1;
        assert(out@ =~= old(out)@ + src@.subrange(0, i as int));
    }
    assert(src@.subrange(0, src.len() as int) =~= src@);
}

/// Appends `src[from..to]` to `out`.
pub(crate) fn push_range(out: &mut Vec<char>, src: &Vec<char>, from: usize, to: usize)
    requires
        from <= to <= src.len(),
    ensures
        final(out)@ == old(out)@ + src@.subrange(from as int, to as int),
{
    let mut i: usize = from;
    while i < to
        invariant
            from <= i <= to <= src.len(),
            out@ == old(out)@ + src@.subrange(from as int, i as int),
        decreases to - i,
    {
        out.push(src[i]);
        i = i + 1;
        assert(out@ =~= old(out)@ + src@.subrange(from as int, i as int));
    }
}

} // verus!
