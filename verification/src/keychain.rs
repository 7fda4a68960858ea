//! Rules for WiFi passwords kept in the system keychain: what may be stored,
//! and what a lookup's output means. The keychain tool itself is run by the
//! caller, with every value passed as a separate argument.
use vstd::prelude::*;
use vstd::utf8::{valid_utf8, decode_utf8};
use crate::text::{chars_of, string_of, utf8_len, utf8_len_exceeds, trim, trim_chars, has_prefix};
use crate::content_type::{parse_view, wifi_payload_fields, lookup_or, MAX_LEN};

verus! {

/// Longest SSID accepted, in bytes.
pub const MAX_SSID_BYTES: usize = 32;
/// Longest password accepted, in bytes.
pub const MAX_PASSWORD_BYTES: usize = 63;

/// Whether an SSID and a password may be stored, and why not.
pub open spec fn store_check_view(ssid: Seq<char>, password: Seq<char>) -> Result<(), Seq<char>> {
    if utf8_len(ssid) > MAX_SSID_BYTES {
        Err("SSID too long (max 32 bytes)"@)
    } else if utf8_len(password) > MAX_PASSWORD_BYTES {
        Err("Password too long (max 63 chars)"@)
    } else {
        Ok(())
    }
}

/// Checks an entry before it is written to the keychain.
pub fn check_store(ssid: &str, password: &str) -> (r: Result<(), String>)
    ensures
        match r {
            Ok(()) => store_check_view(ssid@, password@) == Ok::<(), Seq<char>>(()),
            Err(e) => store_check_view(ssid@, password@) == Err::<(), Seq<char>>(e@),
        },
{
    if utf8_len_exceeds(&chars_of(ssid), MAX_SSID_BYTES) {
        return Err(String::from_str("SSID too long (max 32 bytes)"));
    }
    if utf8_len_exceeds(&chars_of(password), MAX_PASSWORD_BYTES) {
        return Err(String::from_str("Password too long (max 63 chars)"));
    }
    Ok(())
}

/// `String::from_utf8`: the bytes as text when they are valid UTF-8.
/// Trusted: `Ok` exactly for valid UTF-8, holding the decoded characters.
#[verifier::external_body]
fn utf8_text(bytes: Vec<u8>) -> (r: Option<String>)
    ensures
        r.is_some() == valid_utf8(bytes@),
        r matches Some(s) ==> s@ == decode_utf8(bytes@),
{
    String::from_utf8(bytes).ok()
}

/// What a keychain lookup found: nothing when the tool failed (the entry is
/// missing), an error for output that is not UTF-8, else the trimmed output.
pub open spec fn lookup_view(status_ok: bool, stdout: Seq<u8>) -> Result<Option<Seq<char>>, Seq<char>> {
    if !status_ok {
        Ok(None)
    } else if !valid_utf8(stdout) {
        Err("Keychain: invalid UTF-8"@)
    } else {
        Ok(Some(trim(decode_utf8(stdout))))
    }
}

pub fn lookup_result(status_ok: bool, stdout: Vec<u8>) -> (r: Result<Option<String>, String>)
    ensures
        match r {
            Ok(v) => lookup_view(status_ok, stdout@) == Ok::<Option<Seq<char>>, Seq<char>>(v.deep_view()),
            Err(e) => lookup_view(status_ok, stdout@) == Err::<Option<Seq<char>>, Seq<char>>(e@),
        },
{
    if !status_ok {
        return Ok(None);
    }
    match utf8_text(stdout) {
        Some(s) => {
            let t = trim_chars(&chars_of(s.as_str()));
            Ok(Some(string_of(t.as_slice())))
        },
        None => Err(String::from_str("Keychain: invalid UTF-8")),
    }
}

} // verus!

verus! {

/// A network that the parser accepts as a WiFi payload can always be stored
/// in the keychain: its SSID and password are within the keychain's limits.
pub proof fn law_accepted_wifi_storable(raw: Seq<char>)
    ensures
        has_prefix(raw, "WIFI:"@) && utf8_len(raw) <= MAX_LEN && parse_view(raw).content_type == "wifi"@ ==> {
            let f = wifi_payload_fields(raw);
            store_check_view(lookup_or(f, "S"@, Seq::empty()), lookup_or(f, "P"@, Seq::empty())) == Ok::<(), Seq<char>>(())
        },
{
    reveal_strlit("text");
    reveal_strlit("wifi");
    assert("text"@[0] != "wifi"@[0]);
    if has_prefix(raw, "WIFI:"@) && utf8_len(raw) <= MAX_LEN {
        assert(parse_view(raw) == crate::content_type::wifi_view(raw));
    }
}

} // verus!
