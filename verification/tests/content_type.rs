use qrsnap::content_type::{
    confirm_action, copy_action, is_email, is_phone, parse, parse_geo, parse_wifi_fields, text_result,
};

#[test]
fn test_url_https() {
    let r = parse("https://example.com/path");
    assert_eq!(r.content_type, "url");
    assert_eq!(r.actions.len(), 2);
    assert!(r.warnings.is_none());
}

#[test]
fn test_url_http_warns() {
    let r = parse("http://example.com");
    assert_eq!(r.content_type, "url");
    assert!(r.warnings.is_some());
}

#[test]
fn test_www_becomes_url() {
    let r = parse("www.example.com");
    assert_eq!(r.content_type, "url");
}

#[test]
fn test_mailto() {
    let r = parse("mailto:test@example.com");
    assert_eq!(r.content_type, "email");
}

#[test]
fn test_bare_email() {
    let r = parse("user@domain.com");
    assert_eq!(r.content_type, "email");
}

#[test]
fn test_tel() {
    let r = parse("tel:+15551234567");
    assert_eq!(r.content_type, "phone");
}

#[test]
fn test_bare_phone() {
    let r = parse("+1 (555) 123-4567");
    assert_eq!(r.content_type, "phone");
}

#[test]
fn test_sms() {
    let r = parse("sms:+15551234567?body=hello");
    assert_eq!(r.content_type, "sms");
}

#[test]
fn test_geo() {
    let r = parse("geo:40.7128,-74.0060");
    assert_eq!(r.content_type, "geo");
    let fields = r.fields.unwrap();
    assert_eq!(fields.get("lat").unwrap(), "40.7128");
}

#[test]
fn test_plain_text() {
    let r = parse("just some text");
    assert_eq!(r.content_type, "text");
}

#[test]
fn test_too_long() {
    let long = "x".repeat(5000);
    let r = parse(&long);
    assert_eq!(r.content_type, "error");
}

#[test]
fn test_wifi_basic() {
    let r = parse("WIFI:T:WPA;S:MyNetwork;P:secret123;;");
    assert_eq!(r.content_type, "wifi");
    let f = r.fields.unwrap();
    assert_eq!(f.get("ssid").unwrap(), "MyNetwork");
    assert_eq!(f.get("auth").unwrap(), "WPA");
}

#[test]
fn test_wifi_escaped_semicolon() {
    let r = parse("WIFI:T:WPA;S:My\\;Net;P:pa\\;ss;;");
    assert_eq!(r.content_type, "wifi");
    let f = r.fields.unwrap();
    assert_eq!(f.get("ssid").unwrap(), "My;Net");
    // Password in action payload, not fields
    assert_eq!(r.actions[1].payload, "pa;ss");
}

#[test]
fn test_wifi_invalid_auth_falls_back() {
    let r = parse("WIFI:T:INVALID;S:Net;P:pass;;");
    assert_eq!(r.content_type, "text");
}

#[test]
fn test_wifi_ssid_too_long() {
    let long_ssid = "A".repeat(33);
    let r = parse(&format!("WIFI:T:WPA;S:{long_ssid};P:pass;;"));
    assert_eq!(r.content_type, "text");
}

#[test]
fn copy_and_confirm_actions() {
    let c = copy_action("abc");
    assert_eq!(c.id, "copy_to_clipboard");
    assert_eq!(c.label, "Copy");
    assert_eq!(c.payload, "abc");
    assert!(!c.requires_confirmation);
    assert!(c.confirmation_message.is_none());
    let k = confirm_action("open_tel", "Call", "123", "Call 123?");
    assert!(k.requires_confirmation);
    assert_eq!(k.confirmation_message.as_deref(), Some("Call 123?"));
}

#[test]
fn text_result_shows_raw() {
    let r = text_result("hello");
    assert_eq!(r.display_text, "hello");
    assert_eq!(r.raw, "hello");
    assert_eq!(r.actions.len(), 1);
}

#[test]
fn too_long_keeps_first_chars() {
    let long = "x".repeat(5000);
    let r = parse(&long);
    assert_eq!(r.raw.chars().count(), 4096);
    assert_eq!(r.display_text, "QR content too large to process");
    assert_eq!(r.actions[0].payload.len(), 4096);
}

#[test]
fn exactly_max_bytes_is_classified() {
    let s = "y".repeat(4096);
    assert_eq!(parse(&s).content_type, "text");
    // 2049 two-byte characters are 4098 bytes: too large, 2049 characters kept.
    let t = "é".repeat(2049);
    let r = parse(&t);
    assert_eq!(r.content_type, "error");
    assert_eq!(r.raw.chars().count(), 2049);
}

#[test]
fn url_domain_and_message() {
    let r = parse("https://sub.example.com/x?y=1");
    let f = r.fields.unwrap();
    assert_eq!(f.get("domain").unwrap(), "sub.example.com");
    assert_eq!(r.actions[1].id, "open_url");
    assert_eq!(r.actions[1].confirmation_message.as_deref(), Some("Open sub.example.com?"));
    let w = parse("http://example.com").warnings.unwrap();
    assert_eq!(w, vec!["This link is not encrypted (HTTP).".to_string()]);
}

#[test]
fn www_gets_https_prefix() {
    let r = parse("www.example.com");
    assert_eq!(r.raw, "https://www.example.com");
    assert_eq!(r.fields.unwrap().get("domain").unwrap(), "www.example.com");
}

#[test]
fn bare_email_becomes_mailto() {
    let r = parse("user@domain.com");
    assert_eq!(r.raw, "mailto:user@domain.com");
    assert_eq!(r.display_text, "user@domain.com");
    assert_eq!(r.actions[1].confirmation_message.as_deref(), Some("Email user@domain.com?"));
}

#[test]
fn mailto_query_is_dropped() {
    let r = parse("mailto:a@b.com?subject=hi");
    assert_eq!(r.display_text, "a@b.com");
    assert_eq!(r.fields.unwrap().get("address").unwrap(), "a@b.com");
}

#[test]
fn smsto_and_query() {
    let r = parse("smsto:+1555?body=x");
    assert_eq!(r.content_type, "sms");
    assert_eq!(r.display_text, "+1555");
    assert_eq!(r.actions[1].confirmation_message.as_deref(), Some("Message +1555?"));
}

#[test]
fn tel_strips_prefix() {
    let r = parse("tel:+15551234567");
    assert_eq!(r.display_text, "+15551234567");
    assert_eq!(r.raw, "tel:+15551234567");
}

#[test]
fn geo_formats() {
    let r = parse_geo("geo:40.7128,-74.0060?q=x");
    assert_eq!(r.display_text, "40.7128, -74.0060");
    assert_eq!(r.actions[1].payload, "40.7128,-74.0060");
    assert_eq!(r.actions[1].confirmation_message.as_deref(), Some("Open 40.7128, -74.0060 in Maps?"));
    let f = r.fields.unwrap();
    assert_eq!(f.get("lon").unwrap(), "-74.0060");
    let one = parse("geo:12.5");
    let g = one.fields.unwrap();
    assert_eq!(g.get("lat").unwrap(), "12.5");
    assert_eq!(g.get("lon").unwrap(), "");
}

#[test]
fn structured_payloads() {
    let c = parse("BEGIN:VCARD\nFN:Ann\nEND:VCARD");
    assert_eq!(c.content_type, "vcard");
    assert_eq!(c.display_text, "Contact Card");
    let e = parse("BEGIN:VEVENT\nSUMMARY:x\nEND:VEVENT");
    assert_eq!(e.content_type, "event");
    assert_eq!(e.display_text, "Calendar Event");
}

#[test]
fn wifi_fields_with_escapes() {
    let f = parse_wifi_fields("T:WPA;S:a\\:b\\\\c;P:x;;");
    assert_eq!(f.get("T").unwrap(), "WPA");
    assert_eq!(f.get("S").unwrap(), "a:b\\c");
    assert_eq!(f.get("P").unwrap(), "x");
    assert_eq!(f.get(";").unwrap(), "");
    assert_eq!(f.entries.len(), 4);
    // an empty key ends the list
    let g = parse_wifi_fields(":x;S:y");
    assert_eq!(g.entries.len(), 0);
    // the last value of a key wins
    let h = parse_wifi_fields("S:a;P:x;S:b;");
    assert_eq!(h.get("S").unwrap(), "b");
    // one entry per key
    assert_eq!(h.entries.len(), 2);
    assert_eq!(h.entries[0], ("P".to_string(), "x".to_string()));
    assert_eq!(h.entries[1], ("S".to_string(), "b".to_string()));
}

#[test]
fn wifi_defaults_and_no_password() {
    let r = parse("WIFI:S:Home;;");
    assert_eq!(r.content_type, "wifi");
    assert_eq!(r.display_text, "Home (WiFi)");
    assert_eq!(r.actions.len(), 1);
    assert_eq!(r.actions[0].label, "Copy SSID");
    let f = r.fields.unwrap();
    assert_eq!(f.get("auth").unwrap(), "nopass");
    assert_eq!(f.get("hidden").unwrap(), "false");
    assert!(f.get("password").is_none());
    assert!(f.get("P").is_none());
}

#[test]
fn wifi_password_too_long() {
    let pw = "p".repeat(64);
    let r = parse(&format!("WIFI:T:WPA;S:n;P:{pw};;"));
    assert_eq!(r.content_type, "text");
    let ok = "p".repeat(63);
    assert_eq!(parse(&format!("WIFI:T:WPA;S:n;P:{ok};;")).content_type, "wifi");
}

#[test]
fn email_and_phone_predicates() {
    assert!(is_email("user@domain.com"));
    assert!(!is_email("user@.domain.com"));
    assert!(!is_email("@domain.com"));
    assert!(!is_email("a@b@c.com"));
    assert!(!is_email("a b@c.com"));
    assert!(!is_email("a@bcom"));
    assert!(is_phone("+1 (555) 123-4567"));
    assert!(!is_phone("123456"));
    assert!(!is_phone("1234567890123456"));
    assert!(!is_phone("555-123-4567x"));
}

#[test]
fn every_action_is_copy_or_confirmed() {
    for raw in [
        "https://a.b",
        "WIFI:T:WPA;S:n;P:p;;",
        "geo:1,2",
        "tel:1234567",
        "sms:1234567",
        "mailto:a@b.c",
        "hello",
        "BEGIN:VCARD",
    ] {
        let r = parse(raw);
        assert!(!r.actions[0].requires_confirmation);
        for a in &r.actions {
            if a.requires_confirmation {
                assert!(a.confirmation_message.is_some());
            } else {
                assert_eq!(a.id, "copy_to_clipboard");
            }
        }
    }
}
