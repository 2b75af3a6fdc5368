use vstd::prelude::*;

verus! {

/// The regular expression type of the `regex` crate, carried opaquely.
#[verifier::external_type_specification]
#[verifier::external_body]
pub struct ExRegex(regex::Regex);

/// Whether the `regex` crate accepts `pattern` (a valid expression, within
/// the default size limit).
pub uninterp spec fn regex_compiles(pattern: Seq<char>) -> bool;

/// The capture groups of the leftmost-first match of `pattern` in
/// `haystack`, as the `regex` crate finds it: `None` when there is no
/// match; otherwise the text of each group in the order of its opening
/// parenthesis, group 0 being the whole match, `None` for a group that did
/// not take part in the match.
pub uninterp spec fn regex_first_captures(pattern: Seq<char>, haystack: Seq<char>) -> Option<Seq<Option<Seq<char>>>>;

/// The capture groups of each successive non-overlapping match of `pattern`
/// in `haystack`, as the `regex` crate's `captures_iter` yields them.
pub uninterp spec fn regex_all_captures(pattern: Seq<char>, haystack: Seq<char>) -> Seq<Seq<Option<Seq<char>>>>;

/// A regular expression compiled from its source text.
pub struct Pattern {
    source: String,
    regex: regex::Regex,
}

impl View for Pattern {
    type V = Seq<char>;

    /// The source text the expression was compiled from.
    closed spec fn view(&self) -> Seq<char> {
        self.source@
    }
}

/// Compiles `source` with `regex::Regex::new`. Trusted: `Regex::new` returns
/// `Ok` exactly when the pattern is accepted (named `regex_compiles`); the
/// compiled expression is kept with its source text, and nothing else is
/// claimed of it.
#[verifier::external_body]
pub(crate) fn compile_regex(source: &str) -> (res: Option<Pattern>)
    ensures
        res is Some <==> regex_compiles(source@),
        res matches Some(p) ==> p@ == source@,
{
    match regex::Regex::new(source) {
        Ok(regex) => Some(Pattern { source: source.to_string(), regex }),
        Err(_) => None,
    }
}

/// Searches `haystack` with `regex::Regex::captures` and hands back the text
/// of each capture group (read with `Captures::iter` and `Match::as_str`).
/// Trusted: the result is the crate's leftmost-first match of the pattern
/// the expression was compiled from (named `regex_first_captures`).
#[verifier::external_body]
pub(crate) fn regex_captures(p: &Pattern, haystack: &str) -> (res: Option<Vec<Option<String>>>)
    ensures
        res.deep_view() == regex_first_captures(p@, haystack@),
{
    p.regex.captures(haystack).map(|caps| caps.iter().map(|m| m.map(|m| m.as_str().to_string())).collect())
}

/// Iterates over `haystack` with `regex::Regex::captures_iter` and hands
/// back the text of the capture groups of each match. Trusted: the result
/// is the crate's sequence of successive non-overlapping matches of the
/// pattern the expression was compiled from (named `regex_all_captures`).
#[verifier::external_body]
pub(crate) fn regex_captures_iter(p: &Pattern, haystack: &str) -> (res: Vec<Vec<Option<String>>>)
    ensures
        res.deep_view() == regex_all_captures(p@, haystack@),
{
    p.regex.captures_iter(haystack).map(|caps| caps.iter().map(|m| m.map(|m| m.as_str().to_string())).collect()).collect()
}

} // verus!
