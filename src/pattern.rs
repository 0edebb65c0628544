//! Regular-expression matching, done by the `regex` crate.
use vstd::prelude::*;

verus! {

/// Characters that have a meaning of their own in a pattern.
pub open spec fn is_meta(c: char) -> bool {
    c == '\\' || c == '.' || c == '+' || c == '*' || c == '?' || c == '(' || c == ')' || c == '|'
        || c == '[' || c == ']' || c == '{' || c == '}' || c == '^' || c == '$' || c == '#'
        || c == '&' || c == '-' || c == '~'
}

/// `s` with a backslash put before each meta character, so that a pattern
/// made of it matches `s` literally.
pub open spec fn escaped(s: Seq<char>) -> Seq<char>
    decreases s.len(),
{
    if s.len() == 0 {
        Seq::empty()
    } else {
        let c = s.last();
        escaped(s.drop_last()) + if is_meta(c) {
            seq!['\\', c]
        } else {
            seq![c]
        }
    }
}

/// Whether `pattern` is accepted by the regex compiler.
pub uninterp spec fn regex_compiles(pattern: Seq<char>) -> bool;

/// The text of the group called `name` in the first match of `pattern` in
/// `text`, if there is a match and the group took part in it.
pub uninterp spec fn named_capture(pattern: Seq<char>, text: Seq<char>) -> Option<Seq<char>>;

/// Relies on `regex::escape`: each meta character of `s` is preceded by a backslash.
#[verifier::external_body]
pub(crate) fn escape_literal(s: &str) -> (r: String)
    ensures
        r@ == escaped(s@),
{
    regex::escape(s)
}

/// Relies on `regex::Regex::new`: whether the pattern compiles depends on the pattern alone.
#[verifier::external_body]
pub(crate) fn compiles(pattern: &str) -> (r: bool)
    ensures
        r == regex_compiles(pattern@),
{
    regex::Regex::new(pattern).is_ok()
}

/// Relies on `regex::Regex::captures` on the compiled pattern: the text of the
/// group called `name` in the leftmost-first match.
#[verifier::external_body]
pub(crate) fn capture_name(pattern: &str, text: &str) -> (r: Option<String>)
    requires
        regex_compiles(pattern@),
    ensures
        r matches Some(c) ==> named_capture(pattern@, text@) == Some(c@),
        r is None ==> named_capture(pattern@, text@) is None,
{
    let re = regex::Regex::new(pattern).unwrap();
    re.captures(text).and_then(|c| c.name("name")).map(|m| m.as_str().to_string())
}

} // verus!
