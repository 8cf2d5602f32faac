//! Reading numbers from text as Rust's `str::parse` does: `i64` integers, and
//! the grammar of `f64` literals.

use vstd::prelude::*;

verus! {

/// An ASCII decimal digit.
pub open spec fn is_digit(c: char) -> bool {
    '0' <= c && c <= '9'
}

/// The end of the run of digits that starts at `i`.
pub open spec fn digit_run_end(s: Seq<char>, i: int) -> int
    decreases s.len() - i,
{
    if 0 <= i < s.len() && is_digit(s[i]) {
        digit_run_end(s, i + 1)
    } else {
        i
    }
}

/// The value of a sequence of decimal digits.
pub open spec fn digits_value(d: Seq<char>) -> nat
    decreases d.len(),
{
    if d.len() == 0 {
        0
    } else {
        digits_value(d.drop_last()) * 10 + ((d.last() as int) - ('0' as int)) as nat
    }
}

/// The error texts of `ParseIntError`.
pub open spec fn int_empty_message() -> Seq<char> {
    "cannot parse integer from empty string"@
}

pub open spec fn int_invalid_message() -> Seq<char> {
    "invalid digit found in string"@
}

pub open spec fn int_too_large_message() -> Seq<char> {
    "number too large to fit in target type"@
}

pub open spec fn int_too_small_message() -> Seq<char> {
    "number too small to fit in target type"@
}

/// What `s.parse::<i64>()` gives: the value, or the text of the error.
///
/// An optional sign is followed by decimal digits. The digits are read from
/// the left; the first failure wins, whether it is a character that is not a
/// digit or a value that no longer fits.
pub open spec fn parse_i64(s: Seq<char>) -> Result<i64, Seq<char>> {
    if s.len() == 0 {
        Err(int_empty_message())
    } else if s.len() == 1 && (s[0] == '+' || s[0] == '-') {
        Err(int_invalid_message())
    } else {
        let negative = s[0] == '-';
        let d = if s[0] == '+' || s[0] == '-' {
            s.drop_first()
        } else {
            s
        };
        let k = digit_run_end(d, 0);
        let v = digits_value(d.subrange(0, k));
        if !negative && v > i64::MAX {
            Err(int_too_large_message())
        } else if negative && v > 0x8000_0000_0000_0000 {
            Err(int_too_small_message())
        } else if k < d.len() {
            Err(int_invalid_message())
        } else if negative {
            Ok((-v) as i64)
        } else {
            Ok(v as i64)
        }
    }
}

/// A run of digits stays within the text.
pub proof fn lemma_digit_run_end(s: Seq<char>, i: int)
    requires
        0 <= i <= s.len(),
    ensures
        i <= digit_run_end(s, i) <= s.len(),
        forall|j: int| i <= j < digit_run_end(s, i) ==> is_digit(s[j]),
        digit_run_end(s, i) < s.len() ==> !is_digit(s[digit_run_end(s, i)]),
    decreases s.len() - i,
{
    if i < s.len() && is_digit(s[i]) {
        lemma_digit_run_end(s, i + 1);
    }
}

/// The value of a prefix of digits never exceeds that of a longer prefix.
pub proof fn lemma_digits_value_grows(d: Seq<char>, j: int, k: int)
    requires
        0 <= j <= k <= d.len(),
        forall|i: int| 0 <= i < k ==> is_digit(d[i]),
    ensures
        digits_value(d.subrange(0, j)) <= digits_value(d.subrange(0, k)),
    decreases k - j,
{
    if j < k {
        lemma_digits_value_grows(d, j, k - 1);
        assert(d.subrange(0, k).drop_last() =~= d.subrange(0, k - 1));
    }
}

fn digit_value(c: char) -> (r: u128)
    requires
        is_digit(c),
    ensures
        r == (c as int) - ('0' as int),
        r < 10,
{
    (c as u32 - '0' as u32) as u128
}

/// Reads `s` as an `i64`, as `str::parse::<i64>` does; on failure, the text
/// of the error.
pub fn parse_i64_exec(s: &Vec<char>) -> (r: Result<i64, Vec<char>>)
    ensures
        match r {
            Ok(v) => parse_i64(s@) == Ok::<i64, Seq<char>>(v),
            Err(e) => parse_i64(s@) == Err::<i64, Seq<char>>(e@),
        },
{
    if s.len() == 0 {
        return Err(crate::text::chars_of("cannot parse integer from empty string"));
    }
    if s.len() == 1 && (s[0] == '+' || s[0] == '-') {
        return Err(crate::text::chars_of("invalid digit found in string"));
    }
    let negative = s[0] == '-';
    let start: usize = if s[0] == '+' || s[0] == '-' { 1 } else { 0 };
    let ghost d = s@.subrange(start as int, s.len() as int);
    assert(d =~= if s@[0] == '+' || s@[0] == '-' { s@.drop_first() } else { s@ });
    let limit: u128 = if negative { 0x8000_0000_0000_0000 } else { 0x7fff_ffff_ffff_ffff };
    let mut acc: u128 = 0;
    let mut i: usize = start;
    proof {
        lemma_digit_run_end(d, 0);
        assert(d.subrange(0, 0) =~= Seq::<char>::empty());
    }
    while i < s.len() && '0' <= s[i] && s[i] <= '9'
        invariant
            start <= i <= s.len(),
            s.len() > 0,
            !(s.len() == 1 && (s@[0] == '+' || s@[0] == '-')),
            negative == (s@[0] == '-'),
            start == (if s@[0] == '+' || s@[0] == '-' { 1int } else { 0int }),
            limit == (if negative { 0x8000_0000_0000_0000u128 } else { 0x7fff_ffff_ffff_ffffu128 }),
            d == s@.subrange(start as int, s.len() as int),
            d == (if s@[0] == '+' || s@[0] == '-' { s@.drop_first() } else { s@ }),
            acc <= limit,
            limit <= 0x8000_0000_0000_0000,
            acc == digits_value(d.subrange(0, i - start)),
            forall|j: int| 0 <= j < i - start ==> is_digit(d[j]),
            digit_run_end(d, 0) == digit_run_end(d, i - start),
        decreases s.len() - i,
    {
        assert(d[i - start] == s@[i as int]);
        let dv = digit_value(s[i]);
        assert(d.subrange(0, i + 1 - start).drop_last() =~= d.subrange(0, i - start));
        acc = acc * 10 + dv;
        i = i + 1;
        if acc > limit {
            proof {
                lemma_digit_run_end(d, 0);
                lemma_digits_value_grows(d, i - start, digit_run_end(d, 0));
            }
            if negative {
                return Err(crate::text::chars_of("number too small to fit in target type"));
            } else {
                return Err(crate::text::chars_of("number too large to fit in target type"));
            }
        }
    }
    proof {
        lemma_digit_run_end(d, 0);
        if i < s.len() {
            assert(d[i - start] == s@[i as int]);
        }
    }
    if i < s.len() {
        return Err(crate::text::chars_of("invalid digit found in string"));
    }
    if negative {
        Ok((0 - (acc as i128)) as i64)
    } else {
        Ok(acc as i64)
    }
}

/// The error texts of `ParseFloatError`.
pub open spec fn float_empty_message() -> Seq<char> {
    "cannot parse float from empty string"@
}

pub open spec fn float_invalid_message() -> Seq<char> {
    "invalid float literal"@
}

/// `c` in lower case, for ASCII letters.
pub open spec fn ascii_lower(c: char) -> char {
    if 'A' <= c && c <= 'Z' {
        ((c as int) + 32) as char
    } else {
        c
    }
}

/// An exponent `e`, an optional sign and at least one digit, reaching the end
/// of `u` from `i`.
pub open spec fn is_exponent_tail(u: Seq<char>, i: int) -> bool {
    if i == u.len() {
        true
    } else if u[i] != 'e' {
        false
    } else {
        let f = if i + 1 < u.len() && (u[i + 1] == '+' || u[i + 1] == '-') {
            i + 2
        } else {
            i + 1
        };
        let g = digit_run_end(u, f);
        g > f && g == u.len()
    }
}

/// A decimal number: digits with an optional fraction, at least one digit in
/// all, then an optional exponent.
pub open spec fn is_decimal_number(u: Seq<char>) -> bool {
    let a = digit_run_end(u, 0);
    if a < u.len() && u[a] == '.' {
        let b = digit_run_end(u, a + 1);
        (a > 0 || b > a + 1) && is_exponent_tail(u, b)
    } else {
        a > 0 && is_exponent_tail(u, a)
    }
}

/// The grammar of float literals that `str::parse::<f64>` accepts, for a text
/// already in lower case: an optional sign, then `inf`, `infinity`, `nan` or a
/// decimal number.
pub open spec fn is_float_literal(t: Seq<char>) -> bool {
    let u = if t.len() > 0 && (t[0] == '+' || t[0] == '-') {
        t.drop_first()
    } else {
        t
    };
    u == seq!['i', 'n', 'f'] || u == seq!['i', 'n', 'f', 'i', 'n', 'i', 't', 'y'] || u == seq![
        'n',
        'a',
        'n',
    ] || is_decimal_number(u)
}

/// What `s.parse::<f64>()` reports as an error, if anything.
pub open spec fn float_error(s: Seq<char>) -> Option<Seq<char>> {
    if s.len() == 0 {
        Some(float_empty_message())
    } else if is_float_literal(s.map_values(|c: char| ascii_lower(c))) {
        None
    } else {
        Some(float_invalid_message())
    }
}

fn lower(c: char) -> (r: char)
    ensures
        r == ascii_lower(c),
{
    if 'A' <= c && c <= 'Z' {
        ((c as u32) + 32) as u8 as char
    } else {
        c
    }
}

fn scan_digits(u: &Vec<char>, i: usize) -> (r: usize)
    requires
        i <= u.len(),
    ensures
        r == digit_run_end(u@, i as int),
        i <= r <= u.len(),
{
    let mut k = i;
    while k < u.len() && '0' <= u[k] && u[k] <= '9'
        invariant
            i <= k <= u.len(),
            digit_run_end(u@, i as int) == digit_run_end(u@, k as int),
        decreases u.len() - k,
    {
        k = k + 1;
    }
    k
}

fn exponent_tail(u: &Vec<char>, i: usize) -> (r: bool)
    requires
        i <= u.len(),
    ensures
        r == is_exponent_tail(u@, i as int),
{
    if i == u.len() {
        return true;
    }
    if u[i] != 'e' {
        return false;
    }
    let f = if i + 1 < u.len() && (u[i + 1] == '+' || u[i + 1] == '-') { i + 2 } else { i + 1 };
    let g = scan_digits(u, f);
    g > f && g == u.len()
}

fn is_word_literal(u: &Vec<char>, from: usize, w: &Vec<char>) -> (r: bool)
    requires
        from <= u.len(),
    ensures
        r == (u@.subrange(from as int, u.len() as int) == w@),
{
    if u.len() - from != w.len() {
        return false;
    }
    let mut k: usize = 0;
    while k < w.len()
        invariant
            from + w.len() == u.len(),
            k <= w.len(),
            forall|j: int| 0 <= j < k ==> u@[from + j] == w@[j],
        decreases w.len() - k,
    {
        if u[from + k] != w[k] {
            assert(u@.subrange(from as int, u.len() as int)[k as int] == u@[from + k]);
            return false;
        }
        k = k + 1;
    }
    assert(u@.subrange(from as int, u.len() as int) =~= w@);
    true
}

/// What `s.parse::<f64>()` reports as an error, if anything.
pub fn float_error_exec(s: &Vec<char>) -> (r: Option<Vec<char>>)
    ensures
        match r {
            Some(e) => float_error(s@) == Some(e@),
            None => float_error(s@) is None,
        },
{
    if s.len() == 0 {
        return Some(crate::text::chars_of("cannot parse float from empty string"));
    }
    let mut t: Vec<char> = Vec::new();
    let mut k: usize = 0;
    while k < s.len()
        invariant
            k <= s.len(),
            t@ == s@.subrange(0, k as int).map_values(|c: char| ascii_lower(c)),
        decreases s.len() - k,
    {
        t.push(lower(s[k]));
        k = k + 1;
        assert(t@ =~= s@.subrange(0, k as int).map_values(|c: char| ascii_lower(c)));
    }
    assert(s@.subrange(0, s.len() as int) =~= s@);
    let from: usize = if t.len() > 0 && (t[0] == '+' || t[0] == '-') { 1 } else { 0 };
    let ghost u = t@.subrange(from as int, t.len() as int);
    assert(u =~= if t@.len() > 0 && (t@[0] == '+' || t@[0] == '-') { t@.drop_first() } else { t@ });
    let mut ok = is_word_literal(&t, from, &crate::text::chars_of("inf"))
        || is_word_literal(&t, from, &crate::text::chars_of("infinity"))
        || is_word_literal(&t, from, &crate::text::chars_of("nan"));
    proof {
        reveal_strlit("inf");
        reveal_strlit("infinity");
        reveal_strlit("nan");
        assert("inf"@ =~= seq!['i', 'n', 'f']);
        assert("infinity"@ =~= seq!['i', 'n', 'f', 'i', 'n', 'i', 't', 'y']);
        assert("nan"@ =~= seq!['n', 'a', 'n']);
    }
    if !ok {
        let mut rest: Vec<char> = Vec::new();
        crate::text::push_range(&mut rest, &t, from, t.len());
        assert(rest@ =~= u);
        let a = scan_digits(&rest, 0);
        if a < rest.len() && rest[a] == '.' {
            let b = scan_digits(&rest, a + 1);
            ok = (a > 0 || b > a + 1) && exponent_tail(&rest, b);
        } else {
            ok = a > 0 && exponent_tail(&rest, a);
        }
    }
    if ok {
        None
    } else {
        Some(crate::text::chars_of("invalid float literal"))
    }
}

} // verus!
