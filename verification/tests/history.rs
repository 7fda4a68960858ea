use qrsnap::history::{add_entry, clear_all, delete_entry, thumbnail_files, ScanEntry, MAX_ENTRIES};

fn entry(id: &str, thumb: Option<&str>) -> ScanEntry {
    ScanEntry {
        id: id.to_string(),
        scanned_at: "2026-01-01T00:00:00Z".to_string(),
        result: "x".to_string(),
        result_type: "text".to_string(),
        parsed_data: None,
        source_type: "region".to_string(),
        source_name: None,
        thumbnail_file: thumb.map(|t| t.to_string()),
    }
}

fn ids(v: &[ScanEntry]) -> Vec<String> {
    v.iter().map(|e| e.id.clone()).collect()
}

#[test]
fn add_puts_newest_first() {
    let u = add_entry(vec![entry("a", None)], entry("b", None));
    assert_eq!(ids(&u.entries), vec!["b", "a"]);
    assert!(u.removed.is_empty());
}

#[test]
fn add_purges_oldest_beyond_limit() {
    let old: Vec<ScanEntry> = (0..101).map(|i| entry(&i.to_string(), None)).collect();
    let u = add_entry(old, entry("new", None));
    assert_eq!(u.entries.len(), MAX_ENTRIES);
    assert_eq!(u.entries[0].id, "new");
    assert_eq!(u.entries[99].id, "98");
    assert_eq!(ids(&u.removed), vec!["100", "99"]);
}

#[test]
fn delete_first_match() {
    let list = vec![entry("a", Some("a.png")), entry("b", None), entry("a", None)];
    let (rest, removed) = delete_entry(list, "a");
    assert_eq!(ids(&rest), vec!["b", "a"]);
    assert_eq!(removed.unwrap().thumbnail_file.as_deref(), Some("a.png"));
    let (same, none) = delete_entry(rest, "zzz");
    assert_eq!(ids(&same), vec!["b", "a"]);
    assert!(none.is_none());
}

#[test]
fn delete_undoes_add() {
    let old = vec![entry("a", None), entry("b", None)];
    let u = add_entry(old, entry("n", None));
    let (back, removed) = delete_entry(u.entries, "n");
    assert_eq!(ids(&back), vec!["a", "b"]);
    assert_eq!(removed.unwrap().id, "n");
}

#[test]
fn clear_takes_everything() {
    let u = clear_all(vec![entry("a", Some("a.png")), entry("b", Some("b.png"))]);
    assert!(u.entries.is_empty());
    assert_eq!(thumbnail_files(&u.removed), vec!["a.png", "b.png"]);
}

#[test]
fn thumbnails_skip_missing() {
    let v = vec![entry("a", None), entry("b", Some("b.png")), entry("c", Some("c.png"))];
    assert_eq!(thumbnail_files(&v), vec!["b.png", "c.png"]);
}
