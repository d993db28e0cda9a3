//! Calls into the encoding crates (base64, url, serde_urlencoded, serde_json) and std's
//! text conversions, each with what its documentation promises.

use vstd::prelude::*;
use base64::Engine;

verus! {

/// Standard base64 (RFC 4648 alphabet, `=` padding) of some bytes.
pub uninterp spec fn base64_standard(bytes: Seq<u8>) -> Seq<char>;

/// Decoding of a text as standard base64; `None` when it is not valid.
pub uninterp spec fn base64_standard_decode(text: Seq<char>) -> Option<Seq<u8>>;

/// `application/x-www-form-urlencoded` serialization of name/value pairs.
pub uninterp spec fn form_urlencoded(pairs: Seq<(Seq<char>, Seq<char>)>) -> Seq<char>;

/// Parsing a URL and appending query pairs to it: the serialized URL, or the
/// parse error's message.
pub uninterp spec fn url_with_pairs(url: Seq<char>, pairs: Seq<(Seq<char>, Seq<char>)>) -> Result<
    Seq<char>,
    Seq<char>,
>;

/// Parsing a URL: its (lower-case) scheme, or the parse error's message.
pub uninterp spec fn url_scheme(url: Seq<char>) -> Result<Seq<char>, Seq<char>>;

/// Unicode lower-casing (`str::to_lowercase`).
pub uninterp spec fn unicode_lower(s: Seq<char>) -> Seq<char>;

/// UTF-8 decoding that replaces invalid sequences by U+FFFD (`String::from_utf8_lossy`).
pub uninterp spec fn utf8_lossy(bytes: Seq<u8>) -> Seq<char>;

/// Unicode `Alphabetic` property (`char::is_alphabetic`).
pub uninterp spec fn unicode_alphabetic(c: char) -> bool;

/// A JSON text parsed as a `serde_json::Value` and printed back with
/// two-space indentation; `None` when the text is not JSON.
pub uninterp spec fn json_pretty(text: Seq<char>) -> Option<Seq<char>>;

/// The views of a list of string pairs.
pub open spec fn pair_views(s: Seq<(String, String)>) -> Seq<(Seq<char>, Seq<char>)> {
    s.map_values(|p: (String, String)| (p.0@, p.1@))
}

/// `base64::engine::general_purpose::STANDARD.encode`: the padded standard
/// encoding, which `STANDARD.decode` turns back into the same bytes.
#[verifier::external_body]
pub(crate) fn base64_encode(data: &[u8]) -> (r: String)
    ensures
        r@ == base64_standard(data@),
        base64_standard_decode(r@) == Some(data@),
{
    base64::engine::general_purpose::STANDARD.encode(data)
}

/// `base64::engine::general_purpose::STANDARD.decode`: the decoded bytes, or
/// `None` on a decode error.
#[verifier::external_body]
pub(crate) fn base64_decode(text: &str) -> (r: Option<Vec<u8>>)
    ensures
        match r {
            Some(v) => base64_standard_decode(text@) == Some(v@),
            None => base64_standard_decode(text@) is None,
        },
{
    base64::engine::general_purpose::STANDARD.decode(text).ok()
}

/// `serde_urlencoded::to_string` on a list of string pairs (which cannot
/// fail for such input); no pairs give the empty string.
#[verifier::external_body]
pub(crate) fn urlencode_pairs(pairs: &Vec<(String, String)>) -> (r: String)
    ensures
        r@ == form_urlencoded(pair_views(pairs@)),
        pairs@.len() == 0 ==> r@.len() == 0,
{
    serde_urlencoded::to_string(pairs).unwrap_or_default()
}

/// `url::Url::parse`, then `query_pairs_mut().append_pair` for each pair in
/// order, then the serialization; on a parse error its `Display` text.
#[verifier::external_body]
pub(crate) fn parse_url_with_pairs(url: &str, pairs: &Vec<(String, String)>) -> (r: Result<
    String,
    String,
>)
    ensures
        match r {
            Ok(u) => url_with_pairs(url@, pair_views(pairs@)) == Ok::<Seq<char>, Seq<char>>(u@),
            Err(e) => url_with_pairs(url@, pair_views(pairs@)) == Err::<Seq<char>, Seq<char>>(e@),
        },
{
    match url::Url::parse(url) {
        Ok(mut parsed) => {
            for (k, v) in pairs {
                parsed.query_pairs_mut().append_pair(k, v);
            }
            Ok(parsed.to_string())
        },
        Err(e) => Err(e.to_string()),
    }
}

/// `url::Url::parse`, then `scheme()`; on a parse error its `Display` text.
#[verifier::external_body]
pub(crate) fn parse_url_scheme(url: &str) -> (r: Result<String, String>)
    ensures
        match r {
            Ok(s) => url_scheme(url@) == Ok::<Seq<char>, Seq<char>>(s@),
            Err(e) => url_scheme(url@) == Err::<Seq<char>, Seq<char>>(e@),
        },
{
    match url::Url::parse(url) {
        Ok(parsed) => Ok(parsed.scheme().to_string()),
        Err(e) => Err(e.to_string()),
    }
}

/// `serde_json::from_str::<serde_json::Value>`, then
/// `serde_json::to_string_pretty`; `None` when either fails.
#[verifier::external_body]
pub(crate) fn pretty_json(text: &str) -> (r: Option<String>)
    ensures
        match r {
            Some(p) => json_pretty(text@) == Some(p@),
            None => json_pretty(text@) is None,
        },
{
    match serde_json::from_str::<serde_json::Value>(text) {
        Ok(v) => serde_json::to_string_pretty(&v).ok(),
        Err(_) => None,
    }
}

/// `char::is_alphabetic`: whether the character has Unicode's `Alphabetic`
/// property.
#[verifier::external_body]
pub(crate) fn is_alphabetic(c: char) -> (r: bool)
    ensures
        r == unicode_alphabetic(c),
{
    c.is_alphabetic()
}

/// `str::to_lowercase`.
#[verifier::external_body]
pub(crate) fn to_lower(s: &str) -> (r: String)
    ensures
        r@ == unicode_lower(s@),
{
    s.to_lowercase()
}

/// `String::from_utf8_lossy`: valid UTF-8 is decoded as it is.
#[verifier::external_body]
pub(crate) fn lossy_text(bytes: &[u8]) -> (r: String)
    ensures
        r@ == utf8_lossy(bytes@),
        vstd::utf8::valid_utf8(bytes@) ==> r@ == vstd::utf8::decode_utf8(bytes@),
{
    String::from_utf8_lossy(bytes).to_string()
}

} // verus!
