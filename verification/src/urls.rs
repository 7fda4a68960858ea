//! URL parsing and percent-encoding, done by the `url` and `urlencoding`
//! crates.
use vstd::prelude::*;
use vstd::utf8::encode_utf8;

verus! {

/// What the library reads of a parsed URL: its scheme and its host.
pub struct UrlParts {
    pub scheme: String,
    pub host: Option<String>,
}

/// Outcome of parsing `input` as an absolute URL with `url::Url::parse`:
/// on success the scheme and the host (if the URL has one), on failure the
/// text of the parse error.
pub uninterp spec fn url_parse_outcome(input: Seq<char>) -> Result<(Seq<char>, Option<Seq<char>>), Seq<char>>;

/// Model of a parse result held as [`UrlParts`].
pub open spec fn url_parts_view(r: Result<UrlParts, String>) -> Result<(Seq<char>, Option<Seq<char>>), Seq<char>> {
    match r {
        Ok(p) => Ok((p.scheme@, p.host.deep_view())),
        Err(e) => Err(e@),
    }
}

/// Parses `input` with `url::Url::parse` and keeps the scheme
/// (`Url::scheme`), the host (`Url::host_str`) or the error's text
/// (`ParseError`'s `Display`).
/// Trusted: the result is `url_parse_outcome` of the input; nothing more of
/// the WHATWG parsing algorithm is stated.
#[verifier::external_body]
pub(crate) fn parse_url_parts(input: &str) -> (r: Result<UrlParts, String>)
    ensures
        url_parts_view(r) == url_parse_outcome(input@),
{
    match url::Url::parse(input) {
        Ok(u) => Ok(UrlParts { scheme: u.scheme().to_string(), host: u.host_str().map(|h| h.to_string()) }),
        Err(e) => Err(e.to_string()),
    }
}

/// Bytes that percent-encoding leaves as they are: ASCII letters, digits and
/// `-`, `.`, `_`, `~`.
pub open spec fn is_unreserved_byte(b: u8) -> bool {
    ||| (0x30 <= b <= 0x39)
    ||| (0x41 <= b <= 0x5a)
    ||| (0x61 <= b <= 0x7a)
    ||| b == 0x2d
    ||| b == 0x2e
    ||| b == 0x5f
    ||| b == 0x7e
}

/// Upper-case hexadecimal digit for `d` < 16.
pub open spec fn hex_upper(d: u8) -> char {
    if d < 10 {
        (0x30 + d) as char
    } else {
        (0x41 - 10 + d) as char
    }
}

/// Percent-encoding of a byte string: unreserved bytes stay, every other byte
/// becomes `%` and two upper-case hex digits.
pub open spec fn percent_encode(bytes: Seq<u8>) -> Seq<char>
    decreases bytes.len(),
{
    if bytes.len() == 0 {
        Seq::empty()
    } else {
        let b = bytes[0];
        let head = if is_unreserved_byte(b) {
            seq![b as char]
        } else {
            seq!['%', hex_upper(b / 16), hex_upper(b % 16)]
        };
        head + percent_encode(bytes.drop_first())
    }
}

/// `urlencoding::encode`: percent-encodes every byte of the UTF-8 encoding of
/// `s` except ASCII alphanumerics and `-`, `_`, `.`, `~`, with upper-case hex.
/// Trusted: the result is exactly `percent_encode` of those bytes, as the
/// crate's documentation and source state.
#[verifier::external_body]
pub(crate) fn url_encode(s: &str) -> (r: String)
    ensures
        r@ == percent_encode(encode_utf8(s@)),
{
    urlencoding::encode(s).into_owned()
}

} // verus!
