# qrsnap

The logic of QRSnap, a menu-bar QR scanner, as a library with machine-checked
contracts:

- `content_type` — classifies a scanned payload (WiFi, contact, event, email,
  phone, SMS, geo, URL, text) and the actions offered for it;
- `ics_sanitizer` — turns a VEVENT payload into a `.ics` file holding only
  allow-listed, sanitised properties;
- `security` — what each opener may open (web URLs, `mailto:`, `tel:`,
  `sms:`, calendar files) after validation;
- `history` — the scan history list (newest first, at most 100 entries);
- `capture`, `commands`, `keychain`, `tray`, `shortcuts` — the decisions
  behind screen capture, the app's commands, keychain storage, the tray menu
  and the global shortcuts;
- `urls` — URL parsing and percent-encoding through the `url` and
  `urlencoding` crates;
- `text` — character-sequence helpers.

`app/` holds the desktop side: processes, files, the system opener, the
Tauri glue and the serialisable copies of the library's types.
