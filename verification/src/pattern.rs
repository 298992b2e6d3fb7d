//! Regular expressions, as the `regex` crate provides them. Nothing here is
//! proved: this module states what the rest of the library takes from that
//! crate.

use regex::Regex;
use vstd::prelude::*;

verus! {

/// A compiled regular expression of the `regex` crate. Nothing of its inside
/// is known here: what it does is named by the functions below.
#[verifier::external_type_specification]
#[verifier::external_body]
pub struct ExRegex(regex::Regex);

/// The reason why the `regex` crate refused a pattern.
#[verifier::external_type_specification]
#[verifier::external_body]
pub struct ExRegexError(regex::Error);

/// What `Regex::new` returns for `pattern`.
pub uninterp spec fn regex_new(pattern: Seq<char>) -> Result<Regex, regex::Error>;

/// Whether `re` matches somewhere in `text`: what `Regex::is_match` returns.
pub uninterp spec fn regex_is_match(re: Regex, text: Seq<char>) -> bool;

/// `text` with its leftmost match of `re` replaced by the expansion of
/// `template`: what `Regex::replace` returns.
pub uninterp spec fn regex_replace(re: Regex, text: Seq<char>, template: Seq<char>) -> Seq<char>;

/// `text` with each of its non-overlapping matches of `re` replaced by the
/// expansion of `template`: what `Regex::replace_all` returns.
pub uninterp spec fn regex_replace_all(re: Regex, text: Seq<char>, template: Seq<char>) -> Seq<
    char,
>;

/// The message of a syntax error, and `None` for an error of another kind:
/// the field of `regex::Error::Syntax`.
pub uninterp spec fn regex_syntax_message(err: regex::Error) -> Option<Seq<char>>;

/// `Regex::new` compiles a pattern, or says why it cannot. The same pattern
/// always gives the same outcome.
pub assume_specification[ regex::Regex::new ](re: &str) -> (r: Result<Regex, regex::Error>)
    ensures
        r == regex_new(re@),
;

/// `Regex::is_match` tells whether the haystack holds a match. The answer
/// depends on the expression and the haystack alone.
pub assume_specification[ regex::Regex::is_match ](re: &Regex, haystack: &str) -> (b: bool)
    ensures
        b == regex_is_match(*re, haystack@),
;

/// `Regex::replace` with a template string. A text without a match comes back
/// as it went in.
#[verifier::external_body]
pub(crate) fn replace_first(re: &Regex, text: &str, template: &str) -> (r: String)
    ensures
        r@ == regex_replace(*re, text@, template@),
        !regex_is_match(*re, text@) ==> r@ == text@,
{
    re.replace(text, template).into_owned()
}

/// `Regex::replace_all` with a template string. A text without a match comes
/// back as it went in.
#[verifier::external_body]
pub(crate) fn replace_every(re: &Regex, text: &str, template: &str) -> (r: String)
    ensures
        r@ == regex_replace_all(*re, text@, template@),
        !regex_is_match(*re, text@) ==> r@ == text@,
{
    re.replace_all(text, template).into_owned()
}

/// Takes the message out of a `regex::Error::Syntax`; the other variants carry none.
#[verifier::external_body]
pub(crate) fn syntax_message(err: regex::Error) -> (m: Option<String>)
    ensures
        m.deep_view() == regex_syntax_message(err),
{
    match err {
        regex::Error::Syntax(m) => Some(m),
        _ => None,
    }
}

} // verus!
