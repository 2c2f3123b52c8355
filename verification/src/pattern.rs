//! Regular expressions, through the `regex` crate.
use vstd::prelude::*;

verus! {

/// `regex::Regex`, which Verus sees nothing inside of.
#[verifier::external_type_specification]
#[verifier::external_body]
pub struct ExRegex(regex::Regex);

/// A compiled regular expression together with the pattern it was compiled from.
pub struct TextPattern {
    source: String,
    compiled: regex::Regex,
}

impl TextPattern {
    /// The pattern that this expression was compiled from.
    pub closed spec fn source(&self) -> Seq<char> {
        self.source@
    }
}

/// Whether `regex::Regex::new` accepts the pattern.
pub uninterp spec fn regex_compiles(pattern: Seq<char>) -> bool;

/// What `regex::Regex::replace_all` gives for the pattern, the text and the
/// replacement.
pub uninterp spec fn regex_replace_all(pattern: Seq<char>, text: Seq<char>, replacement: Seq<char>) -> Seq<char>;

/// The text of the match that `regex::Regex::find` gives for the pattern and
/// the text, if there is one.
pub uninterp spec fn regex_find(pattern: Seq<char>, text: Seq<char>) -> Option<Seq<char>>;

/// Compiles a pattern with `regex::Regex::new`; there is a result exactly when
/// the crate accepts the pattern, and it remembers the pattern.
#[verifier::external_body]
pub(crate) fn compile_pattern(pattern: &str) -> (r: Option<TextPattern>)
    ensures
        r is Some <==> regex_compiles(pattern@),
        r matches Some(p) ==> p.source() == pattern@,
{
    regex::Regex::new(pattern).ok().map(|compiled| TextPattern { source: pattern.to_string(), compiled })
}

/// `regex::Regex::replace_all`: every non-overlapping match replaced; the text
/// is the one that the call gives.
#[verifier::external_body]
pub(crate) fn replace_all(p: &TextPattern, text: &str, replacement: &str) -> (r: String)
    ensures
        r@ == regex_replace_all(p.source(), text@, replacement@),
{
    p.compiled.replace_all(text, replacement).into_owned()
}

/// `regex::Regex::find`: the text of the leftmost-first match, which is a
/// stretch of the searched text.
#[verifier::external_body]
pub(crate) fn find_first(p: &TextPattern, text: &str) -> (r: Option<String>)
    ensures
        match r {
            Some(m) => regex_find(p.source(), text@) == Some(m@) && exists|i: int|
                0 <= i && i + m@.len() <= text@.len() && #[trigger] text@.subrange(i, i + m@.len())
                    == m@,
            None => regex_find(p.source(), text@) is None,
        },
{
    p.compiled.find(text).map(|m| m.as_str().to_string())
}

} // verus!
