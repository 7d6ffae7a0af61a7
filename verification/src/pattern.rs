//! Regular expressions, through the `regex` crate, and the checks built on
//! them.

use vstd::prelude::*;
use crate::text::{trim, trim_ws, cat3};

verus! {

#[verifier::external_type_specification]
#[verifier::external_body]
pub struct ExRegex(regex::Regex);

/// Whether `regex::Regex::new` accepts the pattern (default limits).
pub uninterp spec fn regex_compiles(pattern: Seq<char>) -> bool;

/// Whether the regex of `pattern` matches somewhere in `text`.
pub uninterp spec fn regex_matches(pattern: Seq<char>, text: Seq<char>) -> bool;

/// The texts of the named groups `first` and `second` in the first match of
/// the regex of `pattern` in `text`; `None` when there is no match or one of
/// the groups took no part in it.
pub uninterp spec fn regex_group_pair(pattern: Seq<char>, text: Seq<char>, first: Seq<char>, second: Seq<char>) -> Option<(Seq<char>, Seq<char>)>;

/// A compiled regular expression and the pattern it was compiled from.
pub struct Pattern {
    source: String,
    re: regex::Regex,
}

impl View for Pattern {
    type V = Seq<char>;

    closed spec fn view(&self) -> Seq<char> {
        self.source@
    }
}

/// `regex::Regex::new`. Trusted: it succeeds exactly when the pattern
/// compiles, a property of the pattern alone; the compiled regex is kept with
/// its pattern.
#[verifier::external_body]
pub(crate) fn compile_pattern(pattern: &str) -> (r: Option<Pattern>)
    ensures
        r is Some == regex_compiles(pattern@),
        r matches Some(p) ==> p@ == pattern@,
{
    match regex::Regex::new(pattern) {
        Ok(re) => Some(Pattern { source: pattern.to_owned(), re }),
        Err(_) => None,
    }
}

/// `regex::Regex::is_match`. Trusted: the answer depends on the pattern and
/// the text alone.
#[verifier::external_body]
pub(crate) fn pattern_matches(p: &Pattern, text: &str) -> (r: bool)
    ensures
        r == regex_matches(p@, text@),
{
    p.re.is_match(text)
}

/// `regex::Regex::captures`, read at two named groups. Trusted: the result
/// depends on the pattern, the text and the group names alone.
#[verifier::external_body]
pub(crate) fn pattern_group_pair(p: &Pattern, text: &str, first: &str, second: &str) -> (r: Option<(String, String)>)
    ensures
        match r {
            Some((a, b)) => regex_group_pair(p@, text@, first@, second@) == Some((a@, b@)),
            None => regex_group_pair(p@, text@, first@, second@) is None,
        },
{
    match p.re.captures(text) {
        Some(c) => match (c.name(first), c.name(second)) {
            (Some(a), Some(b)) => Some((a.as_str().to_owned(), b.as_str().to_owned())),
            _ => None,
        },
        None => None,
    }
}

/// The pattern of a Bungie name: a name, `#`, then four digits.
pub open spec fn bungie_pattern() -> Seq<char> {
    "^(?P<name>.+)#(?P<digits>\\d{4})"@
}

/// A Bungie name as the bot stores it, from the captured name and digits:
/// the name trimmed, then `#` and the digits.
pub open spec fn bungie_from_captures(c: Option<(Seq<char>, Seq<char>)>) -> Option<Seq<char>> {
    match c {
        Some((n, d)) => Some(trim_ws(n) + "#"@ + d),
        None => None,
    }
}

/// Builds the stored form of a Bungie name from the captured groups.
pub fn format_bungie_captures(c: Option<(String, String)>) -> (r: Option<String>)
    ensures
        match c {
            Some((n, d)) => r matches Some(x) && x@ == trim_ws(n@) + "#"@ + d@,
            None => r is None,
        },
{
    match c {
        Some((n, d)) => {
            let t = trim(n.as_str());
            Some(cat3(t.as_str(), "#", d.as_str()))
        },
        None => None,
    }
}

/// The stored form of `name` when it is a Bungie name (`Name#1234` at its
/// start, see `bungie_pattern`), else `None`. Should the pattern not
/// compile, the answer is `None`.
pub fn is_valid_bungie_name(name: &str) -> (r: Option<String>)
    ensures
        regex_compiles(bungie_pattern()) ==> match bungie_from_captures(
            regex_group_pair(bungie_pattern(), name@, "name"@, "digits"@),
        ) {
            Some(x) => r matches Some(y) && y@ == x,
            None => r is None,
        },
        !regex_compiles(bungie_pattern()) ==> r is None,
{
    match compile_pattern("^(?P<name>.+)#(?P<digits>\\d{4})") {
        Some(p) => {
            let caps = pattern_group_pair(&p, name, "name", "digits");
            format_bungie_captures(caps)
        },
        None => None,
    }
}

} // verus!
