//! Regular expressions, matched by the `regex` crate.
use vstd::prelude::*;

verus! {

#[verifier::external_type_specification]
#[verifier::external_body]
pub struct ExRegex(regex::Regex);

#[verifier::external_type_specification]
#[verifier::external_body]
pub struct ExRegexError(regex::Error);

/// Whether `regex::Regex::new` accepts a pattern.
pub uninterp spec fn regex_compiles(pattern: Seq<char>) -> bool;

/// What the `regex` crate finds as capture group 1 of the leftmost-first match
/// of `pattern` in `haystack`: nothing when there is no match or the group did
/// not take part in it.
pub uninterp spec fn regex_first_group(pattern: Seq<char>, haystack: Seq<char>) -> Option<Seq<char>>;

/// What the `regex` crate finds as capture group 1 of each successive
/// non-overlapping match of `pattern` in `haystack`, in order.
pub uninterp spec fn regex_all_groups(pattern: Seq<char>, haystack: Seq<char>) -> Seq<Option<Seq<char>>>;

/// A compiled regular expression together with the pattern it came from.
pub struct Pattern {
    re: regex::Regex,
    source: Ghost<Seq<char>>,
}

impl Pattern {
    /// The pattern the expression was compiled from.
    pub closed spec fn source(&self) -> Seq<char> {
        self.source@
    }
}

/// Calls `regex::Regex::new`: it succeeds exactly when the pattern is accepted,
/// which is named `regex_compiles`; the compiled expression keeps its pattern.
#[verifier::external_body]
pub(crate) fn compile(source: &str) -> (r: Result<Pattern, regex::Error>)
    ensures
        r is Ok <==> regex_compiles(source@),
        r matches Ok(p) ==> p.source() == source@,
{
    regex::Regex::new(source).map(|re| Pattern { re, source: Ghost(source@) })
}

/// Calls `Regex::captures` and reads group 1 (`Captures::get`, `Match::as_str`);
/// the result is named `regex_first_group` of the pattern and the haystack.
#[verifier::external_body]
pub(crate) fn first_group(p: &Pattern, haystack: &str) -> (r: Option<String>)
    ensures
        match regex_first_group(p.source(), haystack@) {
            Some(g) => r matches Some(s) && s@ == g,
            None => r is None,
        },
{
    p.re.captures(haystack).and_then(|c| c.get(1)).map(|m| m.as_str().to_string())
}

/// Calls `Regex::captures_iter` and reads group 1 of each match; the result is
/// named `regex_all_groups` of the pattern and the haystack.
#[verifier::external_body]
pub(crate) fn all_groups(p: &Pattern, haystack: &str) -> (r: Vec<Option<String>>)
    ensures
        r@.len() == regex_all_groups(p.source(), haystack@).len(),
        forall|i: int|
            0 <= i < r@.len() ==> match #[trigger] regex_all_groups(p.source(), haystack@)[i] {
                Some(g) => r@[i] matches Some(s) && s@ == g,
                None => r@[i] is None,
            },
{
    p.re.captures_iter(haystack).map(|c| c.get(1).map(|m| m.as_str().to_string())).collect()
}

} // verus!
