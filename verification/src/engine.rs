//! The regular-expression engine behind compiled patterns.
//!
//! Matching is done by the `regex` crate. Its results are named here by spec
//! functions of the pattern text and the haystack, so that the logic that
//! reads them can be verified.

use vstd::prelude::*;

verus! {

#[verifier::external_type_specification]
#[verifier::external_body]
pub struct ExRegex(regex::Regex);

/// What `regex::Regex::new(pattern)` reports: `None` when the pattern compiles,
/// otherwise the text of its error (`regex::Error` as displayed).
pub uninterp spec fn regex_build_error(pattern: Seq<char>) -> Option<Seq<char>>;

/// What `regex::Regex::capture_names` yields for the regex compiled from
/// `pattern`: one entry per capture group, by the order of its opening
/// parenthesis, with the name of the group when it has one.
pub uninterp spec fn regex_group_names(pattern: Seq<char>) -> Seq<Option<Seq<char>>>;

/// What `regex::Regex::captures(haystack)` gives for the regex compiled from
/// `pattern`: `None` when there is no match, otherwise the text that each
/// capture group matched in the leftmost-first match, by group index.
pub uninterp spec fn regex_captures(pattern: Seq<char>, haystack: Seq<char>) -> Option<
    Seq<Option<Seq<char>>>,
>;

/// Optional texts, each by its characters.
pub open spec fn texts_view(v: Seq<Option<Vec<char>>>) -> Seq<Option<Seq<char>>> {
    v.map_values(
        |o: Option<Vec<char>>|
            match o {
                Some(t) => Some(t@),
                None => None,
            },
    )
}

/// A compiled regular expression together with the text it was compiled from.
///
/// Its fields are private: the only way to make one is `compile_regex`, which
/// compiles `source` into `re`.
pub struct CompiledRegex {
    re: regex::Regex,
    source: String,
}

impl CompiledRegex {
    /// The text this regular expression was compiled from.
    pub closed spec fn source(&self) -> Seq<char> {
        self.source@
    }

    /// The text this regular expression was compiled from.
    pub fn as_str(&self) -> (r: &str)
        ensures
            r@ == self.source(),
    {
        self.source.as_str()
    }
}

/// Compiles `pattern` with `regex::Regex::new`. On failure the error is
/// rendered with its `Display` impl. The contract claims that success and the
/// error text are those that `regex_build_error` names for `pattern`, and that
/// the result remembers `pattern` as its source.
#[verifier::external_body]
pub(crate) fn compile_regex(pattern: &str) -> (r: Result<CompiledRegex, String>)
    ensures
        r is Ok <==> regex_build_error(pattern@) is None,
        r matches Ok(c) ==> c.source() == pattern@,
        r matches Err(e) ==> regex_build_error(pattern@) == Some(e@),
{
    match regex::Regex::new(pattern) {
        Ok(re) => Ok(CompiledRegex { re, source: pattern.to_string() }),
        Err(e) => Err(e.to_string()),
    }
}

/// Calls `regex::Regex::capture_names`, turning each name into its
/// characters. The contract claims the result is what `regex_group_names`
/// names for the source of the regex.
#[verifier::external_body]
pub(crate) fn group_names(c: &CompiledRegex) -> (r: Vec<Option<Vec<char>>>)
    ensures
        texts_view(r@) == regex_group_names(c.source()),
{
    let mut r: Vec<Option<Vec<char>>> = Vec::new();
    for name in c.re.capture_names() {
        r.push(match name {
            Some(n) => Some(n.chars().collect()),
            None => None,
        });
    }
    r
}

/// Calls `regex::Regex::captures` on `haystack` and copies out the text of
/// every group (`regex::Captures::iter`) as characters. The contract claims
/// the result is what `regex_captures` names for the source of the regex and
/// `haystack`.
#[verifier::external_body]
pub(crate) fn captures(c: &CompiledRegex, haystack: &str) -> (r: Option<Vec<Option<Vec<char>>>>)
    ensures
        match r {
            Some(v) => regex_captures(c.source(), haystack@) == Some(texts_view(v@)),
            None => regex_captures(c.source(), haystack@) is None,
        },
{
    let caps = match c.re.captures(haystack) {
        Some(caps) => caps,
        None => return None,
    };
    let mut r: Vec<Option<Vec<char>>> = Vec::new();
    for m in caps.iter() {
        r.push(match m {
            Some(m) => Some(m.as_str().chars().collect()),
            None => None,
        });
    }
    Some(r)
}

} // verus!
