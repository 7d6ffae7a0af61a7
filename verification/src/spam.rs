//! The spam filter: chat messages that sell viewers or followers.

use vstd::prelude::*;
use unicode_normalization::UnicodeNormalization;
use crate::pattern::{compile_pattern, pattern_matches, regex_compiles, regex_matches};
use crate::text::{push_char, to_ascii_lowercase, ascii_lower_seq};
use crate::kick::{text_contains, contains_text};

verus! {

/// The canonical decomposition (Unicode NFD) of a text.
pub uninterp spec fn nfd(s: Seq<char>) -> Seq<char>;

/// `UnicodeNormalization::nfd`, its characters collected. Trusted: the
/// decomposition depends on the text alone.
#[verifier::external_body]
fn nfd_chars(s: &str) -> (r: Vec<char>)
    ensures
        r@ == nfd(s@),
{
    s.nfd().collect()
}

/// Whether the general category of a character is "nonspacing mark" (Mn).
pub uninterp spec fn is_nonspacing_mark(c: char) -> bool;

/// `unicode_general_category::get_general_category`, read for the
/// `NonspacingMark` category. Trusted: the category depends on the character
/// alone.
#[verifier::external_body]
fn nonspacing_mark(c: char) -> (r: bool)
    ensures
        r == is_nonspacing_mark(c),
{
    matches!(unicode_general_category::get_general_category(c), unicode_general_category::GeneralCategory::NonspacingMark)
}

/// The characters of `s` other than nonspacing marks, in order.
pub open spec fn drop_marks(s: Seq<char>) -> Seq<char>
    decreases s.len(),
{
    if s.len() == 0 {
        seq![]
    } else {
        let rest = drop_marks(s.drop_last());
        if is_nonspacing_mark(s.last()) {
            rest
        } else {
            rest.push(s.last())
        }
    }
}

/// A text as the filter reads it: decomposed, combining marks (accents)
/// dropped, ASCII letters lowercased.
pub open spec fn normalized_text(s: Seq<char>) -> Seq<char> {
    ascii_lower_seq(drop_marks(nfd(s)))
}

/// Removes diacritics and lowercases ASCII letters (see `normalized_text`).
pub fn normalize_text(text: &str) -> (r: String)
    ensures
        r@ == normalized_text(text@),
{
    let cs = nfd_chars(text);
    let mut out = String::new();
    let mut i: usize = 0;
    while i < cs.len()
        invariant
            cs@ == nfd(text@),
            i <= cs@.len(),
            out@ == drop_marks(cs@.take(i as int)),
        decreases cs@.len() - i,
    {
        assert(cs@.take(i + 1).drop_last() =~= cs@.take(i as int));
        assert(cs@.take(i + 1).last() == cs@[i as int]);
        if !nonspacing_mark(cs[i]) {
            push_char(&mut out, cs[i]);
        }
        i = i + 1;
    }
    assert(cs@.take(cs@.len() as int) =~= cs@);
    to_ascii_lowercase(out.as_str())
}

pub open spec fn cheap_viewers_pattern() -> Seq<char> {
    "cheap\\s*viewers\\s*on\\s*\\w*\\.?\\w*"@
}

pub open spec fn best_viewers_pattern() -> Seq<char> {
    "best\\s*viewers\\s*on\\s*\\w*\\.?\\w*"@
}

pub open spec fn promo_pattern() -> Seq<char> {
    "hello\\s*sorry\\s*for\\s*bothering\\s*you\\s*i\\s*want\\s*to\\s*offer\\s*promotion\\s*of\\s*your\\s*channel\\s*viewers\\s*followers\\s*views\\s*chat\\s*bots\\s*etc\\s*the\\s*price\\s*is\\s*lower\\s*than\\s*any\\s*competitor\\s*the\\s*quality\\s*is\\s*guaranteed\\s*to\\s*be\\s*the\\s*best\\s*flexible\\s*and\\s*convenient\\s*order\\s*management\\s*panel\\s*chat\\s*panel\\s*everything\\s*is\\s*in\\s*your\\s*hands\\s*a\\s*huge\\s*number\\s*of\\s*custom\\s*settings"@
}

pub open spec fn discord_pattern() -> Seq<char> {
    "hey\\s*friend,\\s*you\\s*stream"@
}

/// Whether the pattern compiles and matches somewhere in the text.
pub open spec fn found(pattern: Seq<char>, text: Seq<char>) -> bool {
    regex_compiles(pattern) && regex_matches(pattern, text)
}

/// Whether a message is spam: on its normalized text, "cheap viewers on
/// ..."; "best viewers on ..." when the message holds a `.`; the known
/// promotion text; or the known Discord invitation.
pub open spec fn bannable(text: Seq<char>) -> bool {
    let t = normalized_text(text);
    ||| found(cheap_viewers_pattern(), t)
    ||| (found(best_viewers_pattern(), t) && contains_text(text, "."@))
    ||| found(promo_pattern(), t)
    ||| found(discord_pattern(), t)
}

fn pattern_found(pattern: &str, text: &str) -> (r: bool)
    ensures
        r == found(pattern@, text@),
{
    match compile_pattern(pattern) {
        Some(p) => pattern_matches(&p, text),
        None => false,
    }
}

/// Whether a chat message is spam to ban for (see `bannable`).
pub fn is_bannable_link(text: &str) -> (r: bool)
    ensures
        r == bannable(text@),
{
    let cleaned = normalize_text(text);
    let contains_dot = text_contains(text, ".");
    let t = cleaned.as_str();
    pattern_found("cheap\\s*viewers\\s*on\\s*\\w*\\.?\\w*", t)
        || (pattern_found("best\\s*viewers\\s*on\\s*\\w*\\.?\\w*", t) && contains_dot)
        || pattern_found("hello\\s*sorry\\s*for\\s*bothering\\s*you\\s*i\\s*want\\s*to\\s*offer\\s*promotion\\s*of\\s*your\\s*channel\\s*viewers\\s*followers\\s*views\\s*chat\\s*bots\\s*etc\\s*the\\s*price\\s*is\\s*lower\\s*than\\s*any\\s*competitor\\s*the\\s*quality\\s*is\\s*guaranteed\\s*to\\s*be\\s*the\\s*best\\s*flexible\\s*and\\s*convenient\\s*order\\s*management\\s*panel\\s*chat\\s*panel\\s*everything\\s*is\\s*in\\s*your\\s*hands\\s*a\\s*huge\\s*number\\s*of\\s*custom\\s*settings", t)
        || pattern_found("hey\\s*friend,\\s*you\\s*stream", t)
}

} // verus!
