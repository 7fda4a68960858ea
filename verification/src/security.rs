//! What each tier of the scheme system hands to the system opener: web URLs
//! only with `http`/`https`, validated email addresses with a cleaned
//! subject, validated phone numbers reduced to dialable characters, and
//! calendar events through the `.ics` sanitiser. No generic pass-through.
use vstd::prelude::*;
use vstd::utf8::encode_utf8;
use crate::text::{
    chars_of, string_of, find_char, sub_chars, contains_char, count_char, count_digits, pos_from, has_char,
    count_from, digits_from, outcome_view,
};
use crate::urls::{UrlParts, parse_url_parts, url_parse_outcome, url_parts_view, url_encode, percent_encode};
use crate::ics_sanitizer::{parse_vevent, to_ics, vevent_view, ics_text};
use crate::content_type::{spec_is_email, spec_is_phone, parse_view};
use crate::text::{has_prefix, occurs_at};
use crate::urls::{is_unreserved_byte, hex_upper};

verus! {

/// Longest email subject kept, in characters.
pub const MAX_SUBJECT_CHARS: usize = 256;
/// Longest SMS body kept, in characters.
pub const MAX_SMS_BODY_CHARS: usize = 160;

/// An email address: exactly one `@`, something before it, a `.` after it,
/// and no space.
pub open spec fn spec_is_valid_email(s: Seq<char>) -> bool {
    let k = pos_from(s, '@', 0);
    &&& count_from(s, '@', 0) == 1
    &&& k > 0
    &&& has_char(s.skip(k + 1), '.')
    &&& !has_char(s, ' ')
}

/// A phone number: 7 to 15 ASCII digits.
pub open spec fn spec_is_valid_phone(s: Seq<char>) -> bool {
    7 <= digits_from(s, 0) <= 15
}

pub fn is_valid_email(s: &str) -> (r: bool)
    ensures
        r == spec_is_valid_email(s@),
{
    let v = chars_of(s);
    if count_char(&v, '@') != 1 {
        return false;
    }
    let k = find_char(&v, '@', 0);
    if k == 0 || k >= v.len() {
        proof {
            if k >= v.len() {
                crate::text::lemma_count_zero(v@, '@', 0);
            }
        }
        return false;
    }
    let domain = sub_chars(&v, k + 1, v.len());
    assert(domain@ =~= v@.skip(k + 1));
    contains_char(&domain, '.') && !contains_char(&v, ' ')
}

pub fn is_valid_phone(s: &str) -> (r: bool)
    ensures
        r == spec_is_valid_phone(s@),
{
    let v = chars_of(s);
    let n = count_digits(&v);
    7 <= n && n <= 15
}

/// What opening `url_str` leads to, given how it parsed: the URL itself when
/// its scheme is `https` or `http`, else an error.
pub open spec fn url_target_view(parsed: Result<(Seq<char>, Option<Seq<char>>), Seq<char>>, url_str: Seq<char>) -> Result<Seq<char>, Seq<char>> {
    match parsed {
        Err(e) => Err("Invalid URL: "@ + e),
        Ok((scheme, _)) => if scheme == "https"@ || scheme == "http"@ {
            Ok(url_str)
        } else {
            Err("Blocked scheme: "@ + scheme)
        },
    }
}

/// Decides on a parsed URL: only web schemes may be opened.
pub fn checked_url(url_str: &str, parsed: Result<UrlParts, String>) -> (r: Result<String, String>)
    ensures
        outcome_view(r) == url_target_view(url_parts_view(parsed), url_str@),
{
    match parsed {
        Err(e) => Err(String::from_str("Invalid URL: ").concat(e.as_str())),
        Ok(p) => {
            if p.scheme == String::from_str("https") || p.scheme == String::from_str("http") {
                Ok(String::from_str(url_str))
            } else {
                Err(String::from_str("Blocked scheme: ").concat(p.scheme.as_str()))
            }
        },
    }
}

/// Tier 1: the web URL to open, or why it is refused.
pub fn url_target(url_str: &str) -> (r: Result<String, String>)
    ensures
        outcome_view(r) == url_target_view(url_parse_outcome(url_str@), url_str@),
{
    checked_url(url_str, parse_url_parts(url_str))
}

/// `s` with every character for which `keep` fails left out.
pub open spec fn keep_where(s: Seq<char>, keep: spec_fn(char) -> bool) -> Seq<char>
    decreases s.len(),
{
    if s.len() == 0 {
        Seq::empty()
    } else if keep(s.last()) {
        keep_where(s.drop_last(), keep).push(s.last())
    } else {
        keep_where(s.drop_last(), keep)
    }
}

/// The first `n` characters of `s` (all of `s` if it is shorter).
pub open spec fn take_upto(s: Seq<char>, n: nat) -> Seq<char> {
    if s.len() <= n {
        s
    } else {
        s.take(n as int)
    }
}

/// Characters that are neither CR nor LF.
pub open spec fn not_line_break(c: char) -> bool {
    c != '\r' && c != '\n'
}

/// Characters that stay in a dialled number: ASCII digits and `+`.
pub open spec fn is_dial_char(c: char) -> bool {
    ('0' <= c <= '9') || c == '+'
}

/// An email subject without CR and LF, cut to its first 256 characters.
pub open spec fn clean_subject_view(s: Seq<char>) -> Seq<char> {
    take_upto(keep_where(s, |c: char| not_line_break(c)), MAX_SUBJECT_CHARS as nat)
}

/// A phone number reduced to digits and `+`.
pub open spec fn dial_number(s: Seq<char>) -> Seq<char> {
    keep_where(s, |c: char| is_dial_char(c))
}

fn chars_up_to(v: &Vec<char>, n: usize) -> (r: Vec<char>)
    ensures
        r@ == take_upto(v@, n as nat),
{
    if v.len() <= n {
        sub_chars(v, 0, v.len())
    } else {
        sub_chars(v, 0, n)
    }
}

/// Drops CR and LF from an email subject and keeps its first 256 characters.
pub fn clean_subject(s: &str) -> (r: String)
    ensures
        r@ == clean_subject_view(s@),
{
    let v = chars_of(s);
    let mut out: Vec<char> = Vec::new();
    let mut i: usize = 0;
    while i < v.len()
        invariant
            i <= v.len(),
            out@ == keep_where(v@.take(i as int), |c: char| not_line_break(c)),
        decreases v.len() - i,
    {
        let ghost pre = v@.take(i as int + 1);
        assert(pre.drop_last() =~= v@.take(i as int));
        let c = v[i];
        assert(pre.last() == c);
        if c != '\r' && c != '\n' {
            out.push(c);
        }
        i = i + 1;
    }
    assert(v@.take(i as int) =~= v@);
    let cut = chars_up_to(&out, MAX_SUBJECT_CHARS);
    string_of(cut.as_slice())
}

/// The number with everything but digits and `+` removed.
pub fn dial_chars(s: &str) -> (r: String)
    ensures
        r@ == dial_number(s@),
{
    let v = chars_of(s);
    let mut out: Vec<char> = Vec::new();
    let mut i: usize = 0;
    while i < v.len()
        invariant
            i <= v.len(),
            out@ == keep_where(v@.take(i as int), |c: char| is_dial_char(c)),
        decreases v.len() - i,
    {
        let ghost pre = v@.take(i as int + 1);
        assert(pre.drop_last() =~= v@.take(i as int));
        let c = v[i];
        assert(pre.last() == c);
        if ('0' <= c && c <= '9') || c == '+' {
            out.push(c);
        }
        i = i + 1;
    }
    assert(v@.take(i as int) =~= v@);
    string_of(out.as_slice())
}

/// The `mailto:` URI for an address and an optional subject.
pub open spec fn mailto_view(address: Seq<char>, subject: Option<Seq<char>>) -> Result<Seq<char>, Seq<char>> {
    if !spec_is_valid_email(address) {
        Err("Invalid email address"@)
    } else {
        match subject {
            Some(s) => Ok("mailto:"@ + address + "?subject="@ + percent_encode(encode_utf8(clean_subject_view(s)))),
            None => Ok("mailto:"@ + address),
        }
    }
}

/// Tier 2: the `mailto:` URI to open, or why it is refused.
pub fn mailto_target(address: &str, subject: Option<String>) -> (r: Result<String, String>)
    ensures
        outcome_view(r) == mailto_view(address@, subject.deep_view()),
{
    if !is_valid_email(address) {
        return Err(String::from_str("Invalid email address"));
    }
    match subject {
        Some(s) => {
            let clean = clean_subject(s.as_str());
            let enc = url_encode(clean.as_str());
            Ok(String::from_str("mailto:").concat(address).concat("?subject=").concat(enc.as_str()))
        },
        None => Ok(String::from_str("mailto:").concat(address)),
    }
}

/// The `tel:` URI for a number.
pub open spec fn tel_view(number: Seq<char>) -> Result<Seq<char>, Seq<char>> {
    if !spec_is_valid_phone(number) {
        Err("Invalid phone number"@)
    } else {
        Ok("tel:"@ + dial_number(number))
    }
}

/// Tier 2: the `tel:` URI to open, or why it is refused.
pub fn tel_target(number: &str) -> (r: Result<String, String>)
    ensures
        outcome_view(r) == tel_view(number@),
{
    if !is_valid_phone(number) {
        return Err(String::from_str("Invalid phone number"));
    }
    let clean = dial_chars(number);
    Ok(String::from_str("tel:").concat(clean.as_str()))
}

/// The `sms:` URI for a number and an optional body.
pub open spec fn sms_view(number: Seq<char>, body: Option<Seq<char>>) -> Result<Seq<char>, Seq<char>> {
    if !spec_is_valid_phone(number) {
        Err("Invalid phone number"@)
    } else {
        match body {
            Some(b) => Ok(
                "sms:"@ + dial_number(number) + "?body="@ + percent_encode(
                    encode_utf8(take_upto(b, MAX_SMS_BODY_CHARS as nat)),
                ),
            ),
            None => Ok("sms:"@ + dial_number(number)),
        }
    }
}

/// Tier 2: the `sms:` URI to open, or why it is refused.
pub fn sms_target(number: &str, body: Option<String>) -> (r: Result<String, String>)
    ensures
        outcome_view(r) == sms_view(number@, body.deep_view()),
{
    if !is_valid_phone(number) {
        return Err(String::from_str("Invalid phone number"));
    }
    let clean = dial_chars(number);
    match body {
        Some(b) => {
            let bv = chars_of(b.as_str());
            let cut = string_of(chars_up_to(&bv, MAX_SMS_BODY_CHARS).as_slice());
            let enc = url_encode(cut.as_str());
            Ok(String::from_str("sms:").concat(clean.as_str()).concat("?body=").concat(enc.as_str()))
        },
        None => Ok(String::from_str("sms:").concat(clean.as_str())),
    }
}

/// The `.ics` text for a calendar payload.
pub open spec fn calendar_view(raw: Seq<char>) -> Result<Seq<char>, Seq<char>> {
    match vevent_view(raw) {
        Some(e) => Ok(ics_text(e)),
        None => Err("Failed to parse calendar event"@),
    }
}

/// Tier 4: the sanitised `.ics` file to open for a calendar payload.
pub fn calendar_ics(event_raw: &str) -> (r: Result<String, String>)
    ensures
        outcome_view(r) == calendar_view(event_raw@),
{
    match parse_vevent(event_raw) {
        Some(e) => Ok(to_ics(&e)),
        None => Err(String::from_str("Failed to parse calendar event")),
    }
}

} // verus!

verus! {

/// What the parser takes for a bare email address passes the address check
/// of the `mailto:` opener.
pub proof fn law_bare_email_is_valid(s: Seq<char>)
    ensures
        spec_is_email(s) ==> spec_is_valid_email(s),
{
}

/// What the parser takes for a bare phone number passes the number check of
/// the `tel:` and `sms:` openers.
pub proof fn law_bare_phone_is_valid(s: Seq<char>)
    ensures
        spec_is_phone(s) ==> spec_is_valid_phone(s),
{
}

/// Only web URLs are ever opened, unchanged: any URL handed to the opener
/// parsed with the scheme `https` or `http` and is the input itself.
pub proof fn law_url_target_web_only(parsed: Result<(Seq<char>, Option<Seq<char>>), Seq<char>>, url_str: Seq<char>)
    ensures
        url_target_view(parsed, url_str) matches Ok(t) ==> {
            &&& t == url_str
            &&& parsed matches Ok((scheme, _))
            &&& (scheme == "https"@ || scheme == "http"@)
        },
{
}

proof fn lemma_keep_where(s: Seq<char>, keep: spec_fn(char) -> bool)
    ensures
        keep_where(s, keep).len() <= s.len(),
        forall|k: int| 0 <= k < keep_where(s, keep).len() ==> keep(#[trigger] keep_where(s, keep)[k]),
    decreases s.len(),
{
    if s.len() > 0 {
        lemma_keep_where(s.drop_last(), keep);
        let p = keep_where(s.drop_last(), keep);
        if keep(s.last()) {
            assert forall|k: int| 0 <= k < p.push(s.last()).len() implies keep(#[trigger] p.push(s.last())[k]) by {
                if k < p.len() {
                    assert(p.push(s.last())[k] == p[k]);
                }
            }
        }
    }
}

/// A dialled number holds nothing but ASCII digits and `+`.
pub proof fn law_dial_number_chars(s: Seq<char>)
    ensures
        forall|k: int| 0 <= k < dial_number(s).len() ==> is_dial_char(#[trigger] dial_number(s)[k]),
{
    lemma_keep_where(s, |c: char| is_dial_char(c));
}

/// The ASCII digits of `s`, in order.
pub open spec fn ascii_digits(s: Seq<char>) -> Seq<char> {
    s.filter(|c: char| '0' <= c && c <= '9')
}

/// `s` with everything but ASCII digits and `+` left out.
pub open spec fn digits_and_plus(s: Seq<char>) -> Seq<char> {
    s.filter(|c: char| ('0' <= c && c <= '9') || c == '+')
}

proof fn lemma_digits_from_last(s: Seq<char>, i: int)
    requires
        0 <= i < s.len(),
    ensures
        digits_from(s, i) == digits_from(s.drop_last(), i) + (if '0' <= s.last() && s.last() <= '9' { 1nat } else { 0nat }),
    decreases s.len() - i,
{
    if i < s.len() - 1 {
        lemma_digits_from_last(s, i + 1);
        assert(s.drop_last()[i] == s[i]);
    } else {
        assert(digits_from(s, i + 1) == 0);
        assert(digits_from(s.drop_last(), i) == 0);
        assert(s[i] == s.last());
    }
}

proof fn lemma_digit_count(s: Seq<char>)
    ensures
        digits_from(s, 0) == ascii_digits(s).len(),
    decreases s.len(),
{
    reveal(Seq::filter);
    if s.len() > 0 {
        lemma_digits_from_last(s, 0);
        lemma_digit_count(s.drop_last());
    }
}

proof fn lemma_dial_kept(s: Seq<char>)
    ensures
        dial_number(s) == digits_and_plus(s),
    decreases s.len(),
{
    reveal(Seq::filter);
    if s.len() > 0 {
        lemma_dial_kept(s.drop_last());
    }
}

/// Whether a number can be dialled or texted depends on how many ASCII digits
/// it holds and on nothing else: with 7 to 15 of them the `tel:` URI is the
/// number with everything but digits and `+` left out, and the `sms:` URI
/// starts the same way; with fewer or more, both are refused.
pub proof fn law_phone_by_digit_count(s: Seq<char>, body: Option<Seq<char>>)
    ensures
        7 <= ascii_digits(s).len() <= 15 ==> tel_view(s) == Ok::<Seq<char>, Seq<char>>("tel:"@ + digits_and_plus(s)),
        7 <= ascii_digits(s).len() <= 15 ==> sms_view(s, None) == Ok::<Seq<char>, Seq<char>>("sms:"@ + digits_and_plus(s)),
        7 <= ascii_digits(s).len() <= 15 <==> sms_view(s, body) is Ok,
        !(7 <= ascii_digits(s).len() <= 15) ==> tel_view(s) == Err::<Seq<char>, Seq<char>>("Invalid phone number"@),
        !(7 <= ascii_digits(s).len() <= 15) ==> sms_view(s, body) == Err::<Seq<char>, Seq<char>>("Invalid phone number"@),
{
    lemma_digit_count(s);
    lemma_dial_kept(s);
}

/// A cleaned email subject holds no CR or LF and at most 256 characters.
pub proof fn law_clean_subject(s: Seq<char>)
    ensures
        clean_subject_view(s).len() <= MAX_SUBJECT_CHARS,
        forall|k: int| 0 <= k < clean_subject_view(s).len() ==> not_line_break(#[trigger] clean_subject_view(s)[k]),
{
    let f = keep_where(s, |c: char| not_line_break(c));
    lemma_keep_where(s, |c: char| not_line_break(c));
    let t = clean_subject_view(s);
    assert forall|k: int| 0 <= k < t.len() implies not_line_break(#[trigger] t[k]) by {
        assert(t[k] == f[k]);
    }
}

/// Characters a percent-encoded text may hold: ASCII letters and digits,
/// `-`, `.`, `_`, `~` and `%`.
pub open spec fn is_encoded_char(c: char) -> bool {
    ||| ('0' <= c <= '9')
    ||| ('A' <= c <= 'Z')
    ||| ('a' <= c <= 'z')
    ||| c == '-'
    ||| c == '.'
    ||| c == '_'
    ||| c == '~'
    ||| c == '%'
}

proof fn lemma_hex_upper(d: u8)
    requires
        d < 16,
    ensures
        is_encoded_char(hex_upper(d)),
{
    if d < 10 {
        assert(('0' as u32) <= ((0x30 + d) as char) as u32 <= ('9' as u32));
    } else {
        assert(('A' as u32) <= ((0x41 - 10 + d) as char) as u32 <= ('F' as u32));
    }
}

/// Percent-encoding leaves nothing that could end or extend a URI component:
/// only letters, digits, `-`, `.`, `_`, `~` and `%` remain, so an encoded
/// subject or body cannot add `&`, `?`, `#` or a line break.
pub proof fn law_percent_encoded_chars(b: Seq<u8>)
    ensures
        forall|k: int| 0 <= k < percent_encode(b).len() ==> is_encoded_char(#[trigger] percent_encode(b)[k]),
    decreases b.len(),
{
    if b.len() > 0 {
        law_percent_encoded_chars(b.drop_first());
        let x = b[0];
        let head = if is_unreserved_byte(x) {
            seq![x as char]
        } else {
            seq!['%', hex_upper(x / 16), hex_upper(x % 16)]
        };
        if is_unreserved_byte(x) {
            assert(((x as char) as u32) == x as u32);
            assert(is_encoded_char(x as char));
        } else {
            lemma_hex_upper(x / 16);
            lemma_hex_upper(x % 16);
        }
        let rest = percent_encode(b.drop_first());
        assert(percent_encode(b) == head + rest);
        assert forall|k: int| 0 <= k < percent_encode(b).len() implies is_encoded_char(#[trigger] percent_encode(b)[k]) by {
            if k < head.len() {
                assert(percent_encode(b)[k] == head[k]);
            } else {
                assert(percent_encode(b)[k] == rest[k - head.len()]);
            }
        }
    }
}

} // verus!

verus! {

/// Every payload that the parser classifies as a calendar event can be
/// opened as a calendar file.
pub proof fn law_event_payload_opens(raw: Seq<char>)
    ensures
        parse_view(raw).content_type == "event"@ ==> calendar_view(raw) is Ok,
{
    reveal_strlit("event");
    reveal_strlit("error");
    reveal_strlit("wifi");
    reveal_strlit("vcard");
    reveal_strlit("email");
    reveal_strlit("phone");
    reveal_strlit("sms");
    reveal_strlit("geo");
    reveal_strlit("url");
    reveal_strlit("text");
    let v = parse_view(raw);
    if v.content_type == "event"@ {
        assert("event"@[1] != "error"@[1] && "event"@[1] != "email"@[1]);
        assert("event"@[0] != "phone"@[0] && "event"@[0] != "text"@[0] && "event"@[0] != "wifi"@[0]);
        assert("event"@[0] != "vcard"@[0] && "event"@[0] != "sms"@[0] && "event"@[0] != "geo"@[0]);
        assert("event"@[0] != "url"@[0]);
        assert(occurs_at(raw, "BEGIN:VEVENT"@, 0));
    }
}

} // verus!
