//! Calls into other crates and into parts of the standard library that are
//! taken on trust: each function here states what the code it calls is
//! documented to do, and nothing in this crate proves it.

use base64::Engine;
use vstd::prelude::*;

verus! {

/// The text that `String::from_utf8_lossy` makes of bytes.
pub uninterp spec fn utf8_lossy(bytes: Seq<u8>) -> Seq<char>;

/// `String::from_utf8_lossy`: the text that the bytes encode, every
/// invalid sequence replaced by the replacement character.
#[verifier::external_body]
pub(crate) fn lossy_text(bytes: &[u8]) -> (text: String)
    ensures
        text@ == utf8_lossy(bytes@),
{
    String::from_utf8_lossy(bytes).into_owned()
}

/// The text that `str::to_lowercase` makes of a text.
pub uninterp spec fn lowercased(text: Seq<char>) -> Seq<char>;

/// `str::to_lowercase`: the text with every character replaced by its
/// lower-case form as Unicode defines it.
#[verifier::external_body]
pub(crate) fn lowercase(text: &str) -> (lower: String)
    ensures
        lower@ == lowercased(text@),
{
    text.to_lowercase()
}

/// The text that the `Debug` format makes of a character.
pub uninterp spec fn char_debug(c: char) -> Seq<char>;

/// The `Debug` format of `char`: the character in single quotes, escaped
/// where it is not printable.
#[verifier::external_body]
pub(crate) fn quoted_char(c: char) -> (text: String)
    ensures
        text@ == char_debug(c),
{
    format!("{:?}", c)
}

/// Whether a text has a match of a pattern, as the crate `regex` decides
/// it; none where the pattern is no regular expression to that crate.
pub uninterp spec fn regex_verdict(pattern: Seq<char>, text: Seq<char>) -> Option<bool>;

/// `regex::Regex::new` and `regex::Regex::is_match`: whether the pattern
/// matches anywhere in the text; none where the pattern does not compile.
#[verifier::external_body]
pub(crate) fn regex_is_match(pattern: &str, text: &str) -> (verdict: Option<bool>)
    ensures
        verdict == regex_verdict(pattern@, text@),
{
    match regex::Regex::new(pattern) {
        Ok(re) => Some(re.is_match(text)),
        Err(_) => None,
    }
}

/// What the first match of a pattern in a text captures.
#[derive(Debug)]
pub enum Captured {
    /// The pattern is no regular expression; the text says why.
    Invalid(String),
    /// The pattern matches nowhere in the text.
    NoMatch,
    /// The pattern matches: the whole match, and what its first group
    /// captured, if it has one that took part.
    Match { whole: String, first: Option<String> },
}

/// What the first match of a pattern in a text captures, as plain values.
pub enum CapturedView {
    Invalid(Seq<char>),
    NoMatch,
    Match { whole: Seq<char>, first: Option<Seq<char>> },
}

impl View for Captured {
    type V = CapturedView;

    open spec fn view(&self) -> CapturedView {
        match *self {
            Captured::Invalid(why) => CapturedView::Invalid(why@),
            Captured::NoMatch => CapturedView::NoMatch,
            Captured::Match { whole, first } => CapturedView::Match {
                whole: whole@,
                first: match first {
                    Some(group) => Some(group@),
                    None => None,
                },
            },
        }
    }
}

/// What the first match of a pattern in a text captures, as the crate
/// `regex` finds it.
pub uninterp spec fn regex_captured(pattern: Seq<char>, text: Seq<char>) -> CapturedView;

/// `regex::Regex::new`, `regex::Regex::captures` and `Captures::get`: the
/// leftmost match of the pattern in the text, with its first group.
#[verifier::external_body]
pub(crate) fn regex_captures(pattern: &str, text: &str) -> (captured: Captured)
    ensures
        captured@ == regex_captured(pattern@, text@),
{
    match regex::Regex::new(pattern) {
        Err(e) => Captured::Invalid(e.to_string()),
        Ok(re) => match re.captures(text) {
            None => Captured::NoMatch,
            Some(caps) => Captured::Match {
                whole: caps[0].to_string(),
                first: caps.get(1).map(|m| m.as_str().to_string()),
            },
        },
    }
}

/// `base64::DecodeError`, the error of a failed decoding. Nothing is said
/// of what it holds.
#[verifier::external_type_specification]
#[verifier::external_body]
pub struct ExDecodeError(base64::DecodeError);

/// The bytes that a text stands for in standard base64 with padding, as
/// the crate `base64` decodes it; none where the text is no such encoding.
pub uninterp spec fn base64_standard(text: Seq<char>) -> Option<Seq<u8>>;

/// `base64::Engine::decode` on `base64::engine::general_purpose::STANDARD`.
#[verifier::external_body]
pub(crate) fn base64_decode(text: &str) -> (r: Result<Vec<u8>, base64::DecodeError>)
    ensures
        match r {
            Ok(bytes) => base64_standard(text@) == Some(bytes@),
            Err(_) => base64_standard(text@).is_none(),
        },
{
    base64::engine::general_purpose::STANDARD.decode(text)
}

/// The lower-case hexadecimal digits of a list of bytes, two for each.
pub open spec fn hex_text(bytes: Seq<u8>) -> Seq<char>
    decreases bytes.len(),
{
    if bytes.len() == 0 {
        Seq::empty()
    } else {
        hex_text(bytes.drop_last()) + crate::text::hex2(bytes.last())
    }
}

/// `hex::encode`: every byte as two lower-case hexadecimal digits.
#[verifier::external_body]
pub(crate) fn hex_encode(bytes: &[u8]) -> (text: String)
    ensures
        text@ == hex_text(bytes@),
{
    hex::encode(bytes)
}

} // verus!
