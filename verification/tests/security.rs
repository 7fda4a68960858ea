use qrsnap::security::{
    calendar_ics, clean_subject, dial_chars, is_valid_email, is_valid_phone, mailto_target, sms_target, tel_target,
    url_target,
};

#[test]
fn test_valid_emails() {
    assert!(is_valid_email("a@b.com"));
    assert!(!is_valid_email("no-at-sign"));
    assert!(!is_valid_email("has space@b.com"));
}

#[test]
fn test_valid_phones() {
    assert!(is_valid_phone("+15551234567"));
    assert!(is_valid_phone("1234567"));
    assert!(!is_valid_phone("123"));
}

#[test]
fn test_blocked_scheme() {
    let r = url_target("javascript:alert(1)");
    assert!(r.is_err());
    assert!(r.unwrap_err().contains("Blocked scheme"));
}

#[test]
fn test_blocked_data_scheme() {
    let r = url_target("data:text/html,<h1>hi</h1>");
    assert!(r.is_err());
}

#[test]
fn test_invalid_email_rejected() {
    let r = mailto_target("not-an-email", None);
    assert!(r.is_err());
}

#[test]
fn test_invalid_phone_rejected() {
    let r = tel_target("123");
    assert!(r.is_err());
}

#[test]
fn url_targets() {
    assert_eq!(url_target("https://example.com/a").unwrap(), "https://example.com/a");
    assert_eq!(url_target("HTTP://example.com").unwrap(), "HTTP://example.com");
    assert_eq!(url_target("javascript:alert(1)").unwrap_err(), "Blocked scheme: javascript");
    assert_eq!(url_target("not a url").unwrap_err(), "Invalid URL: relative URL without a base");
}

#[test]
fn mailto_targets() {
    assert_eq!(mailto_target("a@b.com", None).unwrap(), "mailto:a@b.com");
    assert_eq!(
        mailto_target("a@b.com", Some("Hi there\r\n&more".to_string())).unwrap(),
        "mailto:a@b.com?subject=Hi%20there%26more"
    );
    assert_eq!(mailto_target("a@bcom", None).unwrap_err(), "Invalid email address");
    assert_eq!(
        mailto_target("a@b.com", Some("é".to_string())).unwrap(),
        "mailto:a@b.com?subject=%C3%A9"
    );
}

#[test]
fn subject_cleaning() {
    let long = "s".repeat(300);
    assert_eq!(clean_subject(&long).chars().count(), 256);
    assert_eq!(clean_subject("a\rb\nc"), "abc");
}

#[test]
fn tel_and_sms_targets() {
    assert_eq!(tel_target("+1 (555) 123-4567").unwrap(), "tel:+15551234567");
    assert_eq!(dial_chars("1-2 3+x"), "123+");
    assert_eq!(sms_target("123", None).unwrap_err(), "Invalid phone number");
    assert_eq!(sms_target("555 123 4567", None).unwrap(), "sms:5551234567");
    let body = "b".repeat(200);
    let uri = sms_target("5551234567", Some(body)).unwrap();
    assert_eq!(uri, format!("sms:5551234567?body={}", "b".repeat(160)));
    assert_eq!(sms_target("5551234567", Some("a b".to_string())).unwrap(), "sms:5551234567?body=a%20b");
}

#[test]
fn calendar_targets() {
    assert_eq!(calendar_ics("nothing here").unwrap_err(), "Failed to parse calendar event");
    let ics = calendar_ics("BEGIN:VEVENT\nSUMMARY:<b>Hi</b>\nEND:VEVENT").unwrap();
    assert!(ics.contains("SUMMARY:Hi\r\n"));
}
