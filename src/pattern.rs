//! Regular expressions, as provided by the `regex` crate, and the few
//! conversions between strings and character sequences that the rest of
//! the library needs.
use vstd::prelude::*;

verus! {

#[verifier::external_type_specification]
#[verifier::external_body]
pub struct ExRegex(regex::Regex);

/// Whether `regex::Regex::new` accepts the pattern text.
pub uninterp spec fn pattern_compiles(p: Seq<char>) -> bool;

/// The message of the error that `regex::Regex::new` returns for a
/// pattern text it refuses.
pub uninterp spec fn pattern_error_of(p: Seq<char>) -> Seq<char>;

/// The named groups of the leftmost-first match of pattern `p` in `line`,
/// each with the text it captured; `None` when the pattern does not match.
pub uninterp spec fn captures_of(p: Seq<char>, line: Seq<char>) -> Option<Map<Seq<char>, Seq<char>>>;

/// The names of the named capture groups of pattern `p`, in the order of
/// their opening parentheses.
pub uninterp spec fn group_names_of(p: Seq<char>) -> Seq<Seq<char>>;

pub open spec fn texts(v: Seq<String>) -> Seq<Seq<char>> {
    v.map_values(|s: String| s@)
}

pub open spec fn opt_text(o: Option<String>) -> Option<Seq<char>> {
    match o {
        Some(s) => Some(s@),
        None => None,
    }
}

/// The text that group `name` captured, if it took part in the match.
pub open spec fn group_of(caps: Map<Seq<char>, Seq<char>>, name: Seq<char>) -> Option<Seq<char>> {
    if caps.contains_key(name) {
        Some(caps[name])
    } else {
        None
    }
}

/// A compiled regular expression together with the text it was compiled
/// from. Values are only built by `compile_pattern`, so the two always agree.
pub struct Pattern {
    text: String,
    re: regex::Regex,
}

impl Pattern {
    /// The pattern text this expression was compiled from.
    pub closed spec fn source(&self) -> Seq<char> {
        self.text@
    }

    pub fn as_str(&self) -> (r: &str)
        ensures
            r@ == self.source(),
    {
        self.text.as_str()
    }
}

/// Relies on regex::Regex::new: it succeeds exactly for the accepted
/// pattern texts; the error is rendered by regex::Error's Display, which
/// depends on the pattern text alone.
#[verifier::external_body]
pub(crate) fn compile_pattern(text: String) -> (r: Result<Pattern, String>)
    ensures
        r.is_ok() == pattern_compiles(text@),
        r matches Ok(p) ==> p.source() == text@,
        r matches Err(m) ==> m@ == pattern_error_of(text@),
{
    match regex::Regex::new(&text) {
        Ok(re) => Ok(Pattern { text, re }),
        Err(e) => Err(e.to_string()),
    }
}

/// Relies on regex::Regex::captures and regex::Captures::name: the result
/// holds, for each of `names`, the text its group captured in the first
/// match of the pattern in `line`.
#[verifier::external_body]
pub(crate) fn find_captures(p: &Pattern, line: &str, names: &Vec<String>) -> (r: Option<
    Vec<Option<String>>,
>)
    ensures
        r.is_some() == captures_of(p.source(), line@).is_some(),
        r matches Some(v) ==> v@.len() == names@.len() && forall|i: int|
            0 <= i < names@.len() ==> opt_text(#[trigger] v@[i]) == group_of(
                captures_of(p.source(), line@).unwrap(),
                names@[i]@,
            ),
{
    p.re.captures(line).map(
        |c| names.iter().map(|n| c.name(n).map(|m| m.as_str().to_string())).collect(),
    )
}

/// Relies on regex::Regex::capture_names: the names of the named groups,
/// unnamed groups left out.
#[verifier::external_body]
pub(crate) fn group_names(p: &Pattern) -> (r: Vec<String>)
    ensures
        texts(r@) == group_names_of(p.source()),
{
    p.re.capture_names().flatten().map(|n| n.to_string()).collect()
}

/// Relies on str::chars: the characters of `s`, in order.
#[verifier::external_body]
pub(crate) fn chars_of(s: &str) -> (r: Vec<char>)
    ensures
        r@ == s@,
{
    s.chars().collect()
}

/// Relies on String's FromIterator<&char>: the string made of `cs`, in order.
#[verifier::external_body]
pub(crate) fn string_of(cs: &Vec<char>) -> (r: String)
    ensures
        r@ == cs@,
{
    cs.iter().collect()
}

} // verus!
