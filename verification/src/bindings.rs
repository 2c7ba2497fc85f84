//! Calls into std and into outside crates whose behaviour Verus takes on
//! trust. Each item states what the called function's documentation or
//! source promises, and nothing more. Where the result takes pages to
//! state, it is given a name: the name says that equal arguments give equal
//! results, and nothing about which result that is.

use vstd::prelude::*;

verus! {

// ---------------------------------------------------------------------------
// std
// ---------------------------------------------------------------------------

/// `String::push`: appends one character at the end of the string.
#[verifier::external_body]
pub(crate) fn push_char(s: &mut String, c: char)
    ensures
        final(s)@ == old(s)@.push(c),
{
    s.push(c);
}

/// The result of `str::to_lowercase` (Unicode lower case, which may map one
/// character to several).
pub uninterp spec fn lowercase(s: Seq<char>) -> Seq<char>;

/// `str::to_lowercase`. Its result is named by `lowercase`; Unicode case
/// mapping is not written out here.
#[verifier::external_body]
pub(crate) fn to_lower(s: &str) -> (r: String)
    ensures
        r@ == lowercase(s@),
{
    s.to_lowercase()
}

/// The result of `String::from_utf8_lossy`.
pub uninterp spec fn utf8_lossy(bytes: Seq<u8>) -> Seq<char>;

/// What `String::from_utf8_lossy` gives: valid UTF-8 decoded as it is,
/// other bytes with U+FFFD in place of each invalid sequence (named).
pub open spec fn lossy_text(bytes: Seq<u8>) -> Seq<char> {
    if vstd::utf8::valid_utf8(bytes) {
        vstd::utf8::decode_utf8(bytes)
    } else {
        utf8_lossy(bytes)
    }
}

/// `String::from_utf8_lossy`: decodes the bytes, with U+FFFD in place of
/// each invalid sequence. Stated: valid UTF-8 is decoded as it is; the
/// replacement of invalid sequences is only named.
#[verifier::external_body]
pub(crate) fn decode_lossy(bytes: &[u8]) -> (r: String)
    ensures
        vstd::utf8::valid_utf8(bytes@) ==> r@ == vstd::utf8::decode_utf8(bytes@),
        !vstd::utf8::valid_utf8(bytes@) ==> r@ == utf8_lossy(bytes@),
{
    String::from_utf8_lossy(bytes).into_owned()
}

// ---------------------------------------------------------------------------
// rand
// ---------------------------------------------------------------------------

/// `rand::Rng::random_range` on the thread generator of `rand::rng()`:
/// a number in `lo..hi`. Which number is up to chance; the range must not
/// be empty (the crate panics on an empty range).
#[verifier::external_body]
pub(crate) fn random_in(lo: u128, hi: u128) -> (r: u128)
    requires
        lo < hi,
    ensures
        lo <= r < hi,
{
    rand::Rng::random_range(&mut rand::rng(), lo..hi)
}

// ---------------------------------------------------------------------------
// regex
// ---------------------------------------------------------------------------

/// Whether `regex::Regex::new` accepts a pattern.
pub uninterp spec fn regex_compiles(pattern: Seq<char>) -> bool;

/// The result of `regex::Regex::replace_all` for the regex compiled from
/// `pattern`, a haystack and a replacement string.
pub uninterp spec fn regex_replaced(pattern: Seq<char>, text: Seq<char>, rep: Seq<char>) -> Seq<char>;

/// The text of capture group `group` in the first match (`Regex::captures`
/// then `Captures::get`), if the regex matches and the group takes part.
pub uninterp spec fn regex_group(pattern: Seq<char>, text: Seq<char>, group: nat) -> Option<Seq<char>>;

/// `regex::Regex::new(pattern)` and then `Regex::replace_all(text, rep)`:
/// `None` when the pattern is refused; otherwise the named replacement.
#[verifier::external_body]
pub(crate) fn regex_replace_all(pattern: &str, text: &str, rep: &str) -> (r: Option<String>)
    ensures
        (r is Some) == regex_compiles(pattern@),
        r matches Some(s) ==> s@ == regex_replaced(pattern@, text@, rep@),
{
    match regex::Regex::new(pattern) {
        Ok(re) => Some(re.replace_all(text, rep).into_owned()),
        Err(_) => None,
    }
}

/// `regex::Regex::new(pattern)`, then `Regex::captures(text)` and
/// `Captures::get(group)`: `None` when the pattern is refused; otherwise the
/// named capture.
#[verifier::external_body]
pub(crate) fn regex_capture(pattern: &str, text: &str, group: usize) -> (r: Option<Option<String>>)
    ensures
        (r is Some) == regex_compiles(pattern@),
        r matches Some(c) ==> (match c {
            Some(s) => regex_group(pattern@, text@, group as nat) == Some(s@),
            None => regex_group(pattern@, text@, group as nat) is None,
        }),
{
    match regex::Regex::new(pattern) {
        Ok(re) => match re.captures(text) {
            Some(caps) => match caps.get(group) {
                Some(m) => Some(Some(m.as_str().to_string())),
                None => Some(None),
            },
            None => Some(None),
        },
        Err(_) => None,
    }
}

// ---------------------------------------------------------------------------
// html_escape
// ---------------------------------------------------------------------------

/// The result of `html_escape::decode_html_entities`.
pub uninterp spec fn html_decoded(s: Seq<char>) -> Seq<char>;

/// `html_escape::decode_html_entities`: replaces HTML character references
/// by the characters they stand for. Stated: a text without `&` holds no
/// reference and comes back unchanged (the crate returns it as it is when
/// it finds no `&`).
#[verifier::external_body]
pub(crate) fn decode_entities(s: &str) -> (r: String)
    ensures
        r@ == html_decoded(s@),
        !s@.contains('&') ==> r@ == s@,
{
    html_escape::decode_html_entities(s).into_owned()
}

// ---------------------------------------------------------------------------
// serde_json
// ---------------------------------------------------------------------------

/// Whether `serde_json::from_str::<serde_json::Value>` accepts a text.
pub uninterp spec fn json_parses(text: Seq<char>) -> bool;

/// The string found in the parsed JSON text at `v[k1][i][k2][k3]`
/// (`serde_json::Value` indexing, then `Value::as_str`).
pub uninterp spec fn json_str_at(text: Seq<char>, k1: Seq<char>, i: nat, k2: Seq<char>, k3: Seq<char>) -> Option<Seq<char>>;

/// `serde_json::from_str::<serde_json::Value>(text)`, then indexing
/// `[k1][i][k2][k3]` (a missing member gives `Null`) and `Value::as_str`:
/// `None` when the text is not JSON; otherwise the named string, if the
/// value there is a string.
#[verifier::external_body]
pub(crate) fn json_lookup_str(text: &str, k1: &str, i: usize, k2: &str, k3: &str) -> (r: Option<Option<String>>)
    ensures
        (r is Some) == json_parses(text@),
        r matches Some(c) ==> (match c {
            Some(s) => json_str_at(text@, k1@, i as nat, k2@, k3@) == Some(s@),
            None => json_str_at(text@, k1@, i as nat, k2@, k3@) is None,
        }),
{
    match serde_json::from_str::<serde_json::Value>(text) {
        Ok(v) => match v[k1][i][k2][k3].as_str() {
            Some(s) => Some(Some(s.to_string())),
            None => Some(None),
        },
        Err(_) => None,
    }
}

} // verus!
