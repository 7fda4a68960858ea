//! Classification of raw QR payloads into typed content with the actions the
//! user may take on them.
use vstd::prelude::*;
use crate::text::{chars_of, string_of, starts_with, find_char, sub_chars, has_prefix, has_char, before_char, pos_from, utf8_len, utf8_len_exceeds, after_prefix_or, prefix_rest, chars_before, count_from, digits_from, count_char, count_digits, is_digit, contains_char};
use crate::urls::{UrlParts, parse_url_parts, url_parse_outcome, url_parts_view};

verus! {

/// Largest payload, in UTF-8 bytes, that is classified at all.
pub const MAX_LEN: usize = 4096;

/// One action offered to the user for a scanned payload.
#[derive(Debug, Clone)]
pub struct ActionDefinition {
    pub id: String,
    pub label: String,
    pub payload: String,
    pub requires_confirmation: bool,
    pub confirmation_message: Option<String>,
}

/// Mathematical model of an [`ActionDefinition`].
pub struct ActionView {
    pub id: Seq<char>,
    pub label: Seq<char>,
    pub payload: Seq<char>,
    pub requires_confirmation: bool,
    pub confirmation_message: Option<Seq<char>>,
}

impl View for ActionDefinition {
    type V = ActionView;

    open spec fn view(&self) -> ActionView {
        ActionView {
            id: self.id@,
            label: self.label@,
            payload: self.payload@,
            requires_confirmation: self.requires_confirmation,
            confirmation_message: self.confirmation_message.deep_view(),
        }
    }
}

/// A small string-keyed table. A lookup reads the latest entry for its key;
/// the tables the library builds hold each key once (`keys_unique`).
#[derive(Debug, Clone)]
pub struct FieldMap {
    pub entries: Vec<(String, String)>,
}

impl View for FieldMap {
    type V = Seq<(Seq<char>, Seq<char>)>;

    open spec fn view(&self) -> Seq<(Seq<char>, Seq<char>)> {
        self.entries.deep_view()
    }
}

/// Value of the last entry of `list` whose key is `key`.
pub open spec fn lookup(list: Seq<(Seq<char>, Seq<char>)>, key: Seq<char>) -> Option<Seq<char>>
    decreases list.len(),
{
    if list.len() == 0 {
        None
    } else if list.last().0 == key {
        Some(list.last().1)
    } else {
        lookup(list.drop_last(), key)
    }
}

impl FieldMap {
    /// The value stored under `key` (the latest one, if several were stored).
    pub fn get(&self, key: &str) -> (r: Option<String>)
        ensures
            r.deep_view() == lookup(self@, key@),
    {
        let k = String::from_str(key);
        let mut i = self.entries.len();
        assert(self@.take(i as int) =~= self@);
        while i > 0
            invariant
                i <= self.entries.len(),
                k@ == key@,
                lookup(self@, key@) == lookup(self@.take(i as int), key@),
            decreases i,
        {
            let ghost pre = self@.take(i as int);
            assert(pre.drop_last() =~= self@.take(i as int - 1));
            assert(pre.last() == self@[i as int - 1]);
            assert(self@[i as int - 1] == (self.entries@[i as int - 1].0@, self.entries@[i as int - 1].1@));
            if self.entries[i - 1].0 == k {
                return Some(self.entries[i - 1].1.clone());
            }
            i = i - 1;
        }
        assert(self@.take(0) =~= Seq::<(Seq<char>, Seq<char>)>::empty());
        None
    }
}

/// Result of classifying a scanned payload.
#[derive(Debug, Clone)]
pub struct ParsedQRContent {
    pub content_type: String,
    pub raw: String,
    pub display_text: String,
    pub actions: Vec<ActionDefinition>,
    pub fields: Option<FieldMap>,
    pub warnings: Option<Vec<String>>,
}

/// Mathematical model of a [`ParsedQRContent`].
pub struct ContentView {
    pub content_type: Seq<char>,
    pub raw: Seq<char>,
    pub display_text: Seq<char>,
    pub actions: Seq<ActionView>,
    pub fields: Option<Seq<(Seq<char>, Seq<char>)>>,
    pub warnings: Option<Seq<Seq<char>>>,
}

pub open spec fn actions_view(actions: Seq<ActionDefinition>) -> Seq<ActionView> {
    actions.map_values(|a: ActionDefinition| a@)
}

impl View for ParsedQRContent {
    type V = ContentView;

    open spec fn view(&self) -> ContentView {
        ContentView {
            content_type: self.content_type@,
            raw: self.raw@,
            display_text: self.display_text@,
            actions: actions_view(self.actions@),
            fields: match self.fields {
                Some(f) => Some(f@),
                None => None,
            },
            warnings: self.warnings.deep_view(),
        }
    }
}

/// The action that copies `text` to the clipboard, without confirmation.
pub open spec fn copy_view(text: Seq<char>) -> ActionView {
    ActionView {
        id: "copy_to_clipboard"@,
        label: "Copy"@,
        payload: text,
        requires_confirmation: false,
        confirmation_message: None,
    }
}

/// An action that must be confirmed with `msg` before it runs.
pub open spec fn confirm_view(id: Seq<char>, label: Seq<char>, payload: Seq<char>, msg: Seq<char>) -> ActionView {
    ActionView {
        id: id,
        label: label,
        payload: payload,
        requires_confirmation: true,
        confirmation_message: Some(msg),
    }
}

/// Plain text: shown as is, with a copy action.
pub open spec fn text_view(raw: Seq<char>) -> ContentView {
    ContentView {
        content_type: "text"@,
        raw: raw,
        display_text: raw,
        actions: seq![copy_view(raw)],
        fields: None,
        warnings: None,
    }
}

/// A structured payload (contact card, event) shown under a fixed label.
pub open spec fn structured_view(raw: Seq<char>, ctype: Seq<char>, label: Seq<char>) -> ContentView {
    ContentView {
        content_type: ctype,
        raw: raw,
        display_text: label,
        actions: seq![copy_view(raw)],
        fields: None,
        warnings: None,
    }
}

pub fn copy_action(text: &str) -> (a: ActionDefinition)
    ensures
        a@ == copy_view(text@),
{
    ActionDefinition {
        id: String::from_str("copy_to_clipboard"),
        label: String::from_str("Copy"),
        payload: String::from_str(text),
        requires_confirmation: false,
        confirmation_message: None,
    }
}

pub fn confirm_action(id: &str, label: &str, payload: &str, msg: &str) -> (a: ActionDefinition)
    ensures
        a@ == confirm_view(id@, label@, payload@, msg@),
{
    ActionDefinition {
        id: String::from_str(id),
        label: String::from_str(label),
        payload: String::from_str(payload),
        requires_confirmation: true,
        confirmation_message: Some(String::from_str(msg)),
    }
}

fn one_action(a: ActionDefinition) -> (v: Vec<ActionDefinition>)
    ensures
        actions_view(v@) == seq![a@],
{
    let mut v = Vec::new();
    v.push(a);
    assert(actions_view(v@) =~= seq![a@]);
    v
}

fn two_actions(a: ActionDefinition, b: ActionDefinition) -> (v: Vec<ActionDefinition>)
    ensures
        actions_view(v@) == seq![a@, b@],
{
    let mut v = Vec::new();
    v.push(a);
    v.push(b);
    assert(actions_view(v@) =~= seq![a@, b@]);
    v
}

pub fn text_result(raw: &str) -> (r: ParsedQRContent)
    ensures
        r@ == text_view(raw@),
{
    ParsedQRContent {
        content_type: String::from_str("text"),
        raw: String::from_str(raw),
        display_text: String::from_str(raw),
        actions: one_action(copy_action(raw)),
        fields: None,
        warnings: None,
    }
}

pub fn parse_structured(raw: &str, ctype: &str, label: &str) -> (r: ParsedQRContent)
    ensures
        r@ == structured_view(raw@, ctype@, label@),
{
    ParsedQRContent {
        content_type: String::from_str(ctype),
        raw: String::from_str(raw),
        display_text: String::from_str(label),
        actions: one_action(copy_action(raw)),
        fields: None,
        warnings: None,
    }
}

} // verus!

verus! {

/// `list` without its entries whose key is `key`.
pub open spec fn without_key(list: Seq<(Seq<char>, Seq<char>)>, key: Seq<char>) -> Seq<(Seq<char>, Seq<char>)>
    decreases list.len(),
{
    if list.len() == 0 {
        Seq::empty()
    } else if list.last().0 == key {
        without_key(list.drop_last(), key)
    } else {
        without_key(list.drop_last(), key).push(list.last())
    }
}

/// `list` with `key` set to `v`: an earlier entry for `key` is replaced, and
/// the new one comes last.
pub open spec fn put(list: Seq<(Seq<char>, Seq<char>)>, key: Seq<char>, v: Seq<char>) -> Seq<(Seq<char>, Seq<char>)> {
    without_key(list, key).push((key, v))
}

/// No key occurs twice in `list`.
pub open spec fn keys_unique(list: Seq<(Seq<char>, Seq<char>)>) -> bool {
    forall|i: int, j: int| 0 <= i < j < list.len() ==> list[i].0 != list[j].0
}

/// `key` is the key of no entry of `list`.
pub open spec fn key_absent(list: Seq<(Seq<char>, Seq<char>)>, key: Seq<char>) -> bool {
    forall|i: int| 0 <= i < list.len() ==> list[i].0 != key
}

pub proof fn lemma_without_key(list: Seq<(Seq<char>, Seq<char>)>, key: Seq<char>)
    ensures
        key_absent(without_key(list, key), key),
        keys_unique(list) ==> keys_unique(without_key(list, key)),
        forall|i: int| 0 <= i < without_key(list, key).len() ==> list.contains(#[trigger] without_key(list, key)[i]),
        key_absent(list, key) ==> without_key(list, key) == list,
    decreases list.len(),
{
    if list.len() > 0 {
        let p = list.drop_last();
        lemma_without_key(p, key);
        let w = without_key(p, key);
        assert forall|i: int| 0 <= i < w.len() implies list.contains(#[trigger] w[i]) by {
            let j = choose|j: int| 0 <= j < p.len() && p[j] == w[i];
            assert(list[j] == p[j]);
        }
        if list.last().0 != key {
            let w2 = w.push(list.last());
            assert forall|i: int| 0 <= i < w2.len() implies list.contains(#[trigger] w2[i]) by {
                if i < w.len() {
                    assert(w2[i] == w[i]);
                } else {
                    assert(list[list.len() - 1] == w2[i]);
                }
            }
            if keys_unique(list) {
                assert forall|i: int, j: int| 0 <= i < j < w2.len() implies w2[i].0 != w2[j].0 by {
                    if j == w.len() {
                        let m = choose|m: int| 0 <= m < p.len() && p[m] == w[i];
                        assert(list[m] == w[i]);
                        assert(list[list.len() - 1] == w2[j]);
                    } else {
                        assert(keys_unique(p));
                    }
                }
            }
            if key_absent(list, key) {
                assert(key_absent(p, key)) by {
                    assert forall|i: int| 0 <= i < p.len() implies p[i].0 != key by {
                        assert(p[i] == list[i]);
                    }
                }
                assert(list =~= p.push(list.last()));
            }
        } else {
            if keys_unique(list) {
                assert(keys_unique(p));
            }
            if key_absent(list, key) {
                assert(list[list.len() - 1].0 != key);
            }
        }
    }
}

/// Setting a key keeps the keys unique.
pub proof fn lemma_put_unique(list: Seq<(Seq<char>, Seq<char>)>, key: Seq<char>, v: Seq<char>)
    requires
        keys_unique(list),
    ensures
        keys_unique(put(list, key, v)),
{
    lemma_without_key(list, key);
    let w = without_key(list, key);
    let r = w.push((key, v));
    assert forall|i: int, j: int| 0 <= i < j < r.len() implies r[i].0 != r[j].0 by {
        if j == w.len() {
            assert(r[i] == w[i]);
        } else {
            assert(r[i] == w[i] && r[j] == w[j]);
        }
    }
}

/// Reads a WiFi field value starting at `i`: `\x` stands for `x`, an unescaped
/// `;` ends the value. Gives the value and the index after it.
pub open spec fn wifi_value_from(s: Seq<char>, i: int, esc: bool, acc: Seq<char>) -> (Seq<char>, int)
    decreases s.len() - i,
{
    if i < 0 || i >= s.len() {
        (acc, s.len() as int)
    } else if esc {
        wifi_value_from(s, i + 1, false, acc.push(s[i]))
    } else if s[i] == '\\' {
        wifi_value_from(s, i + 1, true, acc)
    } else if s[i] == ';' {
        (acc, i + 1)
    } else {
        wifi_value_from(s, i + 1, false, acc.push(s[i]))
    }
}

pub proof fn lemma_wifi_value_from_bounds(s: Seq<char>, i: int, esc: bool, acc: Seq<char>)
    requires
        0 <= i <= s.len(),
    ensures
        i <= wifi_value_from(s, i, esc, acc).1 <= s.len(),
    decreases s.len() - i,
{
    if i < s.len() {
        if esc || s[i] != ';' {
            lemma_wifi_value_from_bounds(s, i + 1, false, acc.push(s[i]));
            lemma_wifi_value_from_bounds(s, i + 1, true, acc);
        }
    }
}

/// The `key:value;` pairs of a WiFi payload body from index `i` on, set in
/// `acc` one after the other (a later value of a key replaces the earlier
/// one). A key runs up to the next `:`; an empty key ends the list.
pub open spec fn wifi_fields_from(s: Seq<char>, i: int, acc: Seq<(Seq<char>, Seq<char>)>) -> Seq<(Seq<char>, Seq<char>)>
    decreases s.len() - i,
{
    if i < 0 || i >= s.len() {
        acc
    } else {
        let k_end = pos_from(s, ':', i);
        if k_end <= i {
            acc
        } else {
            let vstart = if k_end < s.len() { k_end + 1 } else { s.len() as int };
            let (v, n) = wifi_value_from(s, vstart, false, Seq::empty());
            proof {
                crate::text::lemma_pos_from(s, ':', i);
                lemma_wifi_value_from_bounds(s, vstart, false, Seq::empty());
            }
            wifi_fields_from(s, n, put(acc, s.subrange(i, k_end), v))
        }
    }
}

/// The fields of a WiFi payload body: one entry per key, with the key's last
/// value.
pub open spec fn wifi_fields(body: Seq<char>) -> Seq<(Seq<char>, Seq<char>)> {
    wifi_fields_from(body, 0, Seq::empty())
}

fn read_wifi_value(s: &Vec<char>, start: usize) -> (r: (Vec<char>, usize))
    requires
        start <= s.len(),
    ensures
        (r.0@, r.1 as int) == wifi_value_from(s@, start as int, false, Seq::empty()),
        start <= r.1 <= s.len(),
{
    let mut val: Vec<char> = Vec::new();
    let mut esc = false;
    let mut j = start;
    while j < s.len()
        invariant
            start <= j <= s.len(),
            wifi_value_from(s@, start as int, false, Seq::empty()) == wifi_value_from(s@, j as int, esc, val@),
        decreases s.len() - j,
    {
        let c = s[j];
        if esc {
            val.push(c);
            esc = false;
        } else if c == '\\' {
            esc = true;
        } else if c == ';' {
            return (val, j + 1);
        } else {
            val.push(c);
        }
        j = j + 1;
    }
    (val, j)
}

/// `entries` with `key` set to `value`.
fn put_field(entries: Vec<(String, String)>, key: String, value: String) -> (r: Vec<(String, String)>)
    ensures
        r.deep_view() == put(entries.deep_view(), key@, value@),
{
    let mut out: Vec<(String, String)> = Vec::new();
    let mut i: usize = 0;
    assert(entries.deep_view().take(0) =~= Seq::<(Seq<char>, Seq<char>)>::empty());
    assert(out.deep_view() =~= Seq::<(Seq<char>, Seq<char>)>::empty());
    while i < entries.len()
        invariant
            i <= entries.len(),
            out.deep_view() == without_key(entries.deep_view().take(i as int), key@),
        decreases entries.len() - i,
    {
        let ghost pre = entries.deep_view().take(i as int + 1);
        assert(pre.drop_last() =~= entries.deep_view().take(i as int));
        assert(pre.last() == (entries@[i as int].0@, entries@[i as int].1@));
        if entries[i].0 != key {
            let ghost before = out.deep_view();
            out.push((entries[i].0.clone(), entries[i].1.clone()));
            assert(out.deep_view() =~= before.push(pre.last()));
        }
        i = i + 1;
    }
    assert(entries.deep_view().take(i as int) =~= entries.deep_view());
    let ghost before = out.deep_view();
    out.push((key, value));
    assert(out.deep_view() =~= before.push((key@, value@)));
    out
}

/// Splits a WiFi payload body into its `key:value` pairs, one entry per key
/// (the last value wins); `\;`, `\,`, `\\` and `\:` in a value stand for
/// the escaped character.
pub fn parse_wifi_fields(body: &str) -> (r: FieldMap)
    ensures
        r@ == wifi_fields(body@),
        keys_unique(r@),
{
    let s = chars_of(body);
    let mut acc: Vec<(String, String)> = Vec::new();
    let mut i: usize = 0;
    assert(acc.deep_view() =~= Seq::<(Seq<char>, Seq<char>)>::empty());
    while i < s.len()
        invariant
            i <= s.len(),
            s@ == body@,
            wifi_fields(body@) == wifi_fields_from(s@, i as int, acc.deep_view()),
            keys_unique(acc.deep_view()),
        decreases s.len() - i,
    {
        let k_end = find_char(&s, ':', i);
        if k_end == i {
            return FieldMap { entries: acc };
        }
        let key_chars = sub_chars(&s, i, k_end);
        let key = string_of(key_chars.as_slice());
        let vstart = if k_end < s.len() { k_end + 1 } else { s.len() };
        let (val_chars, next) = read_wifi_value(&s, vstart);
        let val = string_of(val_chars.as_slice());
        let ghost old_acc = acc.deep_view();
        proof {
            lemma_put_unique(old_acc, key@, val@);
        }
        acc = put_field(acc, key, val);
        i = next;
    }
    FieldMap { entries: acc }
}

} // verus!

verus! {

fn one_field(k: &str, v: String) -> (f: FieldMap)
    ensures
        f@ == seq![(k@, v@)],
{
    let mut e: Vec<(String, String)> = Vec::new();
    e.push((String::from_str(k), v));
    assert(e.deep_view() =~= seq![(k@, v@)]);
    FieldMap { entries: e }
}

fn two_fields(k1: &str, v1: String, k2: &str, v2: String) -> (f: FieldMap)
    ensures
        f@ == seq![(k1@, v1@), (k2@, v2@)],
{
    let mut e: Vec<(String, String)> = Vec::new();
    e.push((String::from_str(k1), v1));
    e.push((String::from_str(k2), v2));
    assert(e.deep_view() =~= seq![(k1@, v1@), (k2@, v2@)]);
    FieldMap { entries: e }
}

/// Email address: the part of a `mailto:` URI before its query.
pub open spec fn email_addr(m: Seq<char>) -> Seq<char> {
    before_char(after_prefix_or(m, "mailto:"@, m), '?')
}

pub open spec fn email_view(m: Seq<char>) -> ContentView {
    let addr = email_addr(m);
    ContentView {
        content_type: "email"@,
        raw: m,
        display_text: addr,
        actions: seq![
            copy_view(addr),
            confirm_view("open_mailto"@, "Compose Email"@, addr, "Email "@ + addr + "?"@),
        ],
        fields: Some(seq![("address"@, addr)]),
        warnings: None,
    }
}

pub open spec fn phone_view(raw: Seq<char>, number: Seq<char>) -> ContentView {
    ContentView {
        content_type: "phone"@,
        raw: raw,
        display_text: number,
        actions: seq![
            copy_view(number),
            confirm_view("open_tel"@, "Call"@, number, "Call "@ + number + "?"@),
        ],
        fields: Some(seq![("number"@, number)]),
        warnings: None,
    }
}

/// Number of an `sms:` / `smsto:` URI: the part before its query.
pub open spec fn sms_number(raw: Seq<char>) -> Seq<char> {
    let rest = if has_prefix(raw, "sms:"@) {
        raw.skip("sms:"@.len() as int)
    } else {
        after_prefix_or(raw, "smsto:"@, raw)
    };
    before_char(rest, '?')
}

pub open spec fn sms_view(raw: Seq<char>) -> ContentView {
    let number = sms_number(raw);
    ContentView {
        content_type: "sms"@,
        raw: raw,
        display_text: number,
        actions: seq![
            copy_view(number),
            confirm_view("open_sms"@, "Send Message"@, number, "Message "@ + number + "?"@),
        ],
        fields: Some(seq![("number"@, number)]),
        warnings: None,
    }
}

/// Coordinates of a `geo:` URI: the part before its query.
pub open spec fn geo_coords(raw: Seq<char>) -> Seq<char> {
    before_char(after_prefix_or(raw, "geo:"@, Seq::empty()), '?')
}

/// Latitude: the coordinates up to the first comma (all of them if none).
pub open spec fn geo_lat(coords: Seq<char>) -> Seq<char> {
    before_char(coords, ',')
}

/// Longitude: the text between the first and the second comma (empty if none).
pub open spec fn geo_lon(coords: Seq<char>) -> Seq<char> {
    if has_char(coords, ',') {
        before_char(coords.skip(pos_from(coords, ',', 0) + 1), ',')
    } else {
        Seq::empty()
    }
}

pub open spec fn geo_view(raw: Seq<char>) -> ContentView {
    let coords = geo_coords(raw);
    let lat = geo_lat(coords);
    let lon = geo_lon(coords);
    ContentView {
        content_type: "geo"@,
        raw: raw,
        display_text: lat + ", "@ + lon,
        actions: seq![
            copy_view(lat + ", "@ + lon),
            confirm_view("open_geo"@, "Open in Maps"@, lat + ","@ + lon, "Open "@ + lat + ", "@ + lon + " in Maps?"@),
        ],
        fields: Some(seq![("lat"@, lat), ("lon"@, lon)]),
        warnings: None,
    }
}

/// Host of a URL parse outcome, or the empty text when there is none.
pub open spec fn host_or_empty(o: Result<(Seq<char>, Option<Seq<char>>), Seq<char>>) -> Seq<char> {
    match o {
        Ok((_, Some(h))) => h,
        _ => Seq::empty(),
    }
}

pub open spec fn url_view(raw: Seq<char>, domain: Seq<char>) -> ContentView {
    ContentView {
        content_type: "url"@,
        raw: raw,
        display_text: raw,
        actions: seq![
            copy_view(raw),
            confirm_view("open_url"@, "Open URL"@, raw, "Open "@ + domain + "?"@),
        ],
        fields: Some(seq![("domain"@, domain)]),
        warnings: if has_prefix(raw, "http://"@) {
            Some(seq!["This link is not encrypted (HTTP)."@])
        } else {
            None
        },
    }
}

pub fn parse_email_uri(raw: &str) -> (r: ParsedQRContent)
    ensures
        r@ == email_view(raw@),
{
    let s = chars_of(raw);
    let rest = match prefix_rest(&s, "mailto:") {
        Some(v) => v,
        None => s,
    };
    let addr_chars = chars_before(&rest, '?');
    let addr = string_of(addr_chars.as_slice());
    let msg = String::from_str("Email ").concat(addr.as_str()).concat("?");
    let actions = two_actions(
        copy_action(addr.as_str()),
        confirm_action("open_mailto", "Compose Email", addr.as_str(), msg.as_str()),
    );
    let display = addr.clone();
    ParsedQRContent {
        content_type: String::from_str("email"),
        raw: String::from_str(raw),
        display_text: display,
        actions: actions,
        fields: Some(one_field("address", addr)),
        warnings: None,
    }
}

pub fn parse_phone(raw: &str, number: &str) -> (r: ParsedQRContent)
    ensures
        r@ == phone_view(raw@, number@),
{
    let msg = String::from_str("Call ").concat(number).concat("?");
    ParsedQRContent {
        content_type: String::from_str("phone"),
        raw: String::from_str(raw),
        display_text: String::from_str(number),
        actions: two_actions(copy_action(number), confirm_action("open_tel", "Call", number, msg.as_str())),
        fields: Some(one_field("number", String::from_str(number))),
        warnings: None,
    }
}

pub fn parse_sms(raw: &str) -> (r: ParsedQRContent)
    ensures
        r@ == sms_view(raw@),
{
    let s = chars_of(raw);
    let rest = match prefix_rest(&s, "sms:") {
        Some(v) => v,
        None => match prefix_rest(&s, "smsto:") {
            Some(v) => v,
            None => s,
        },
    };
    let number_chars = chars_before(&rest, '?');
    let number = string_of(number_chars.as_slice());
    let msg = String::from_str("Message ").concat(number.as_str()).concat("?");
    let actions = two_actions(
        copy_action(number.as_str()),
        confirm_action("open_sms", "Send Message", number.as_str(), msg.as_str()),
    );
    let display = number.clone();
    ParsedQRContent {
        content_type: String::from_str("sms"),
        raw: String::from_str(raw),
        display_text: display,
        actions: actions,
        fields: Some(one_field("number", number)),
        warnings: None,
    }
}

pub fn parse_geo(raw: &str) -> (r: ParsedQRContent)
    ensures
        r@ == geo_view(raw@),
{
    let s = chars_of(raw);
    let rest = match prefix_rest(&s, "geo:") {
        Some(v) => v,
        None => Vec::new(),
    };
    proof {
        assert(rest@ == after_prefix_or(raw@, "geo:"@, Seq::empty()));
    }
    let coords = chars_before(&rest, '?');
    let lat_chars = chars_before(&coords, ',');
    let k = find_char(&coords, ',', 0);
    let lon_chars = if k < coords.len() {
        let after = sub_chars(&coords, k + 1, coords.len());
        proof {
            assert(has_char(coords@, ','));
        }
        chars_before(&after, ',')
    } else {
        proof {
            if has_char(coords@, ',') {
                let j = choose|j: int| 0 <= j < coords@.len() && coords@[j] == ',';
                assert(coords@[j] != ',');
            }
        }
        Vec::new()
    };
    let lat = string_of(lat_chars.as_slice());
    let lon = string_of(lon_chars.as_slice());
    let pair = lat.clone().concat(", ").concat(lon.as_str());
    let tight = lat.clone().concat(",").concat(lon.as_str());
    let msg = String::from_str("Open ").concat(lat.as_str()).concat(", ").concat(lon.as_str()).concat(" in Maps?");
    let actions = two_actions(
        copy_action(pair.as_str()),
        confirm_action("open_geo", "Open in Maps", tight.as_str(), msg.as_str()),
    );
    ParsedQRContent {
        content_type: String::from_str("geo"),
        raw: String::from_str(raw),
        display_text: pair,
        actions: actions,
        fields: Some(two_fields("lat", lat, "lon", lon)),
        warnings: None,
    }
}

/// Builds the URL result once the host of `raw` is known (`domain`, empty
/// when the URL did not parse or has no host).
pub fn url_content(raw: &str, domain: String) -> (r: ParsedQRContent)
    ensures
        r@ == url_view(raw@, domain@),
{
    let s = chars_of(raw);
    let insecure = starts_with(&s, &chars_of("http://"));
    let warnings = if insecure {
        let mut w: Vec<String> = Vec::new();
        w.push(String::from_str("This link is not encrypted (HTTP)."));
        assert(w.deep_view() =~= seq!["This link is not encrypted (HTTP)."@]);
        Some(w)
    } else {
        None
    };
    let msg = String::from_str("Open ").concat(domain.as_str()).concat("?");
    ParsedQRContent {
        content_type: String::from_str("url"),
        raw: String::from_str(raw),
        display_text: String::from_str(raw),
        actions: two_actions(copy_action(raw), confirm_action("open_url", "Open URL", raw, msg.as_str())),
        fields: Some(one_field("domain", domain)),
        warnings: warnings,
    }
}

/// The host of a URL parse result, or the empty string.
pub fn host_of(parsed: Result<UrlParts, String>) -> (h: String)
    ensures
        h@ == host_or_empty(url_parts_view(parsed)),
{
    match parsed {
        Ok(p) => match p.host {
            Some(h) => h,
            None => String::new(),
        },
        Err(_) => String::new(),
    }
}

pub fn parse_url(raw: &str) -> (r: ParsedQRContent)
    ensures
        r@ == url_view(raw@, host_or_empty(url_parse_outcome(raw@))),
{
    let domain = host_of(parse_url_parts(raw));
    url_content(raw, domain)
}

} // verus!

verus! {

/// Value stored under `key`, or `d`.
pub open spec fn lookup_or(list: Seq<(Seq<char>, Seq<char>)>, key: Seq<char>, d: Seq<char>) -> Seq<char> {
    match lookup(list, key) {
        Some(v) => v,
        None => d,
    }
}

/// The WiFi authentication types that are accepted.
pub open spec fn is_valid_auth(a: Seq<char>) -> bool {
    ||| a == "WPA"@
    ||| a == "WPA2"@
    ||| a == "WPA3"@
    ||| a == "WEP"@
    ||| a == "nopass"@
}

/// A copy action with its own label.
pub open spec fn labelled_copy_view(label: Seq<char>, payload: Seq<char>) -> ActionView {
    ActionView {
        id: "copy_to_clipboard"@,
        label: label,
        payload: payload,
        requires_confirmation: false,
        confirmation_message: None,
    }
}

/// The fields of a `WIFI:` payload.
pub open spec fn wifi_payload_fields(raw: Seq<char>) -> Seq<(Seq<char>, Seq<char>)> {
    wifi_fields(after_prefix_or(raw, "WIFI:"@, Seq::empty()))
}

/// A WiFi payload: SSID at most 32 bytes, password at most 63 bytes, a known
/// authentication type; otherwise it is plain text. The password is offered
/// as a copy action only, never among the fields.
pub open spec fn wifi_view(raw: Seq<char>) -> ContentView {
    let f = wifi_payload_fields(raw);
    let ssid = lookup_or(f, "S"@, Seq::empty());
    let password = lookup_or(f, "P"@, Seq::empty());
    let auth = lookup_or(f, "T"@, "nopass"@);
    let hidden = lookup_or(f, "H"@, "false"@);
    if utf8_len(ssid) > 32 || utf8_len(password) > 63 || !is_valid_auth(auth) {
        text_view(raw)
    } else {
        ContentView {
            content_type: "wifi"@,
            raw: raw,
            display_text: ssid + " (WiFi)"@,
            actions: if password.len() > 0 {
                seq![labelled_copy_view("Copy SSID"@, ssid), labelled_copy_view("Copy Password"@, password)]
            } else {
                seq![labelled_copy_view("Copy SSID"@, ssid)]
            },
            fields: Some(seq![("ssid"@, ssid), ("auth"@, auth), ("hidden"@, hidden)]),
            warnings: None,
        }
    }
}

fn labelled_copy(label: &str, payload: String) -> (a: ActionDefinition)
    ensures
        a@ == labelled_copy_view(label@, payload@),
{
    ActionDefinition {
        id: String::from_str("copy_to_clipboard"),
        label: String::from_str(label),
        payload: payload,
        requires_confirmation: false,
        confirmation_message: None,
    }
}

fn value_or(v: Option<String>, d: &str) -> (r: String)
    ensures
        r@ == match v.deep_view() {
            Some(x) => x,
            None => d@,
        },
{
    match v {
        Some(x) => x,
        None => String::from_str(d),
    }
}

fn auth_accepted(auth: &String) -> (r: bool)
    ensures
        r == is_valid_auth(auth@),
{
    *auth == String::from_str("WPA") || *auth == String::from_str("WPA2") || *auth == String::from_str("WPA3")
        || *auth == String::from_str("WEP") || *auth == String::from_str("nopass")
}

pub fn parse_wifi(raw: &str) -> (r: ParsedQRContent)
    ensures
        r@ == wifi_view(raw@),
{
    let s = chars_of(raw);
    let body = match prefix_rest(&s, "WIFI:") {
        Some(v) => v,
        None => Vec::new(),
    };
    let body_str = string_of(body.as_slice());
    let fields = parse_wifi_fields(body_str.as_str());
    let ssid = value_or(fields.get("S"), "");
    let password = value_or(fields.get("P"), "");
    let auth = value_or(fields.get("T"), "nopass");
    let hidden = value_or(fields.get("H"), "false");
    proof {
        assert(""@ =~= Seq::<char>::empty()) by {
            reveal_strlit("");
        }
    }
    let ssid_chars = chars_of(ssid.as_str());
    let password_chars = chars_of(password.as_str());
    if utf8_len_exceeds(&ssid_chars, 32) || utf8_len_exceeds(&password_chars, 63) {
        return text_result(raw);
    }
    if !auth_accepted(&auth) {
        return text_result(raw);
    }
    let display = ssid.clone().concat(" (WiFi)");
    let mut actions: Vec<ActionDefinition> = Vec::new();
    actions.push(labelled_copy("Copy SSID", ssid.clone()));
    if password_chars.len() > 0 {
        actions.push(labelled_copy("Copy Password", password));
    }
    assert(actions_view(actions@) =~= if password@.len() > 0 {
        seq![labelled_copy_view("Copy SSID"@, ssid@), labelled_copy_view("Copy Password"@, password@)]
    } else {
        seq![labelled_copy_view("Copy SSID"@, ssid@)]
    });
    let mut e: Vec<(String, String)> = Vec::new();
    e.push((String::from_str("ssid"), ssid));
    e.push((String::from_str("auth"), auth));
    e.push((String::from_str("hidden"), hidden));
    assert(e.deep_view() =~= seq![("ssid"@, ssid@), ("auth"@, auth@), ("hidden"@, hidden@)]);
    ParsedQRContent {
        content_type: String::from_str("wifi"),
        raw: String::from_str(raw),
        display_text: display,
        actions: actions,
        fields: Some(FieldMap { entries: e }),
        warnings: None,
    }
}

/// A bare email address: exactly one `@`, something before it, a `.` after it
/// but not right after it, and no space anywhere.
pub open spec fn spec_is_email(s: Seq<char>) -> bool {
    let k = pos_from(s, '@', 0);
    &&& count_from(s, '@', 0) == 1
    &&& k > 0
    &&& has_char(s.skip(k + 1), '.')
    &&& !(k + 1 < s.len() && s[k + 1] == '.')
    &&& !has_char(s, ' ')
}

/// Characters that may appear in a bare phone number besides digits.
pub open spec fn is_phone_char(c: char) -> bool {
    is_digit(c) || c == '+' || c == '-' || c == '(' || c == ')' || c == ' '
}

/// A bare phone number: 7 to 15 digits, and nothing but digits, `+`, `-`,
/// parentheses and spaces.
pub open spec fn spec_is_phone(s: Seq<char>) -> bool {
    &&& 7 <= digits_from(s, 0) <= 15
    &&& forall|i: int| 0 <= i < s.len() ==> is_phone_char(#[trigger] s[i])
}

pub fn is_email(s: &str) -> (r: bool)
    ensures
        r == spec_is_email(s@),
{
    let v = chars_of(s);
    if count_char(&v, '@') != 1 {
        return false;
    }
    let k = find_char(&v, '@', 0);
    if k == 0 || k >= v.len() {
        proof {
            if k >= v.len() {
                crate::text::lemma_count_zero(v@, '@', 0);
            }
        }
        return false;
    }
    let domain = sub_chars(&v, k + 1, v.len());
    assert(domain@ =~= v@.skip(k + 1));
    let has_dot = contains_char(&domain, '.');
    let dot_first = k + 1 < v.len() && v[k + 1] == '.';
    has_dot && !dot_first && !contains_char(&v, ' ')
}

pub fn is_phone(s: &str) -> (r: bool)
    ensures
        r == spec_is_phone(s@),
{
    let v = chars_of(s);
    let digits = count_digits(&v);
    if digits < 7 || digits > 15 {
        return false;
    }
    let mut i: usize = 0;
    while i < v.len()
        invariant
            i <= v.len(),
            v@ == s@,
            forall|j: int| 0 <= j < i ==> is_phone_char(#[trigger] v@[j]),
        decreases v.len() - i,
    {
        let c = v[i];
        if !(('0' <= c && c <= '9') || c == '+' || c == '-' || c == '(' || c == ')' || c == ' ') {
            return false;
        }
        i = i + 1;
    }
    true
}

/// Payload too large to classify: its first `MAX_LEN` characters, offered for copying.
pub open spec fn error_view(t: Seq<char>) -> ContentView {
    ContentView {
        content_type: "error"@,
        raw: t,
        display_text: "QR content too large to process"@,
        actions: seq![copy_view(t)],
        fields: None,
        warnings: None,
    }
}

/// The classification of a raw payload, checked in this order: too large,
/// WiFi, contact card, event, `mailto:`, `tel:`, `sms:`/`smsto:`, `geo:`,
/// `http(s)://`, `www.`, bare email, bare phone number, plain text.
pub open spec fn parse_view(raw: Seq<char>) -> ContentView {
    if utf8_len(raw) > MAX_LEN {
        error_view(raw.take(if raw.len() < MAX_LEN { raw.len() as int } else { MAX_LEN as int }))
    } else if has_prefix(raw, "WIFI:"@) {
        wifi_view(raw)
    } else if has_prefix(raw, "BEGIN:VCARD"@) {
        structured_view(raw, "vcard"@, "Contact Card"@)
    } else if has_prefix(raw, "BEGIN:VEVENT"@) {
        structured_view(raw, "event"@, "Calendar Event"@)
    } else if has_prefix(raw, "mailto:"@) {
        email_view(raw)
    } else if has_prefix(raw, "tel:"@) {
        phone_view(raw, raw.skip("tel:"@.len() as int))
    } else if has_prefix(raw, "sms:"@) || has_prefix(raw, "smsto:"@) {
        sms_view(raw)
    } else if has_prefix(raw, "geo:"@) {
        geo_view(raw)
    } else if has_prefix(raw, "https://"@) || has_prefix(raw, "http://"@) {
        url_view(raw, host_or_empty(url_parse_outcome(raw)))
    } else if has_prefix(raw, "www."@) {
        url_view("https://"@ + raw, host_or_empty(url_parse_outcome("https://"@ + raw)))
    } else if spec_is_email(raw) {
        email_view("mailto:"@ + raw)
    } else if spec_is_phone(raw) {
        phone_view(raw, raw)
    } else {
        text_view(raw)
    }
}

fn has_literal_prefix(s: &Vec<char>, p: &str) -> (r: bool)
    ensures
        r == has_prefix(s@, p@),
{
    starts_with(s, &chars_of(p))
}

/// Classifies a raw QR payload.
pub fn parse(raw: &str) -> (r: ParsedQRContent)
    ensures
        r@ == parse_view(raw@),
{
    let s = chars_of(raw);
    if utf8_len_exceeds(&s, MAX_LEN) {
        let n = if s.len() < MAX_LEN { s.len() } else { MAX_LEN };
        let t_chars = sub_chars(&s, 0, n);
        let truncated = string_of(t_chars.as_slice());
        let copy = copy_action(truncated.as_str());
        return ParsedQRContent {
            content_type: String::from_str("error"),
            raw: truncated,
            display_text: String::from_str("QR content too large to process"),
            actions: one_action(copy),
            fields: None,
            warnings: None,
        };
    }
    if has_literal_prefix(&s, "WIFI:") {
        return parse_wifi(raw);
    }
    if has_literal_prefix(&s, "BEGIN:VCARD") {
        return parse_structured(raw, "vcard", "Contact Card");
    }
    if has_literal_prefix(&s, "BEGIN:VEVENT") {
        return parse_structured(raw, "event", "Calendar Event");
    }
    if has_literal_prefix(&s, "mailto:") {
        return parse_email_uri(raw);
    }
    if let Some(number) = prefix_rest(&s, "tel:") {
        let n = string_of(number.as_slice());
        return parse_phone(raw, n.as_str());
    }
    if has_literal_prefix(&s, "sms:") || has_literal_prefix(&s, "smsto:") {
        return parse_sms(raw);
    }
    if has_literal_prefix(&s, "geo:") {
        return parse_geo(raw);
    }
    if has_literal_prefix(&s, "https://") || has_literal_prefix(&s, "http://") {
        return parse_url(raw);
    }
    if has_literal_prefix(&s, "www.") {
        let u = String::from_str("https://").concat(raw);
        return parse_url(u.as_str());
    }
    if is_email(raw) {
        let m = String::from_str("mailto:").concat(raw);
        return parse_email_uri(m.as_str());
    }
    if is_phone(raw) {
        return parse_phone(raw, raw);
    }
    text_result(raw)
}

} // verus!

verus! {

/// An action is either a plain copy (no confirmation, no message) or asks
/// for confirmation with a message.
pub open spec fn action_safe(a: ActionView) -> bool {
    ||| (a.requires_confirmation && a.confirmation_message is Some)
    ||| (!a.requires_confirmation && a.id == "copy_to_clipboard"@ && a.confirmation_message is None)
}

/// Nothing but copying runs without confirmation: every action of every
/// result is a copy or asks first with a message, and the first action is
/// always a copy that needs no confirmation.
pub proof fn law_actions_confirmed(raw: Seq<char>)
    ensures
        parse_view(raw).actions.len() >= 1,
        !parse_view(raw).actions[0].requires_confirmation,
        forall|k: int| 0 <= k < parse_view(raw).actions.len() ==> action_safe(#[trigger] parse_view(raw).actions[k]),
{
}

/// Every payload gets one of the known content types.
pub proof fn law_known_content_type(raw: Seq<char>)
    ensures
        ({
            let t = parse_view(raw).content_type;
            ||| t == "error"@
            ||| t == "wifi"@
            ||| t == "vcard"@
            ||| t == "event"@
            ||| t == "email"@
            ||| t == "phone"@
            ||| t == "sms"@
            ||| t == "geo"@
            ||| t == "url"@
            ||| t == "text"@
        }),
{
}

/// A WiFi payload never exposes its password among the fields: either it is
/// shown as plain text, or its fields are exactly the SSID, the
/// authentication type and the hidden flag; a non-empty password is offered
/// only as the payload of a second copy action.
pub proof fn law_wifi_password_not_in_fields(raw: Seq<char>)
    ensures
        has_prefix(raw, "WIFI:"@) && utf8_len(raw) <= MAX_LEN ==> {
            let v = parse_view(raw);
            let pw = lookup_or(wifi_payload_fields(raw), "P"@, Seq::empty());
            ||| v == text_view(raw)
            ||| {
                &&& v.fields matches Some(fs)
                &&& fs.len() == 3
                &&& fs[0].0 == "ssid"@
                &&& fs[1].0 == "auth"@
                &&& fs[2].0 == "hidden"@
                &&& (pw.len() > 0 ==> v.actions.len() == 2 && v.actions[1].payload == pw
                    && !v.actions[1].requires_confirmation)
                &&& (pw.len() == 0 ==> v.actions.len() == 1)
            }
        },
{
}

} // verus!

verus! {

/// Characters escaped with a backslash in a WiFi field value.
pub open spec fn needs_wifi_escape(c: char) -> bool {
    c == '\\' || c == ';' || c == ',' || c == ':'
}

/// A WiFi field value with `\`, `;`, `,` and `:` escaped by a backslash.
pub open spec fn wifi_escape(v: Seq<char>) -> Seq<char>
    decreases v.len(),
{
    if v.len() == 0 {
        Seq::empty()
    } else {
        (if needs_wifi_escape(v[0]) { seq!['\\', v[0]] } else { seq![v[0]] }) + wifi_escape(v.drop_first())
    }
}

/// The WiFi body `k1:esc(v1);k2:esc(v2);...` for a list of fields.
pub open spec fn wifi_encode(pairs: Seq<(Seq<char>, Seq<char>)>) -> Seq<char>
    decreases pairs.len(),
{
    if pairs.len() == 0 {
        Seq::empty()
    } else {
        pairs[0].0 + seq![':'] + wifi_escape(pairs[0].1) + seq![';'] + wifi_encode(pairs.drop_first())
    }
}

proof fn lemma_wifi_value_escaped(s: Seq<char>, i: int, acc: Seq<char>, v: Seq<char>)
    requires
        0 <= i,
        i + wifi_escape(v).len() < s.len(),
        s.subrange(i, i + wifi_escape(v).len()) == wifi_escape(v),
        s[i + wifi_escape(v).len()] == ';',
    ensures
        wifi_value_from(s, i, false, acc) == (acc + v, i + wifi_escape(v).len() + 1),
    decreases v.len(),
{
    let e = wifi_escape(v);
    if v.len() == 0 {
        assert(e.len() == 0);
        assert(acc + v =~= acc);
    } else {
        let c = v[0];
        let rest = v.drop_first();
        let er = wifi_escape(rest);
        if needs_wifi_escape(c) {
            assert(e == seq!['\\', c] + er);
            assert(s[i] == e[0]);
            assert(s[i + 1] == e[1]);
            assert(s.subrange(i + 2, i + 2 + er.len()) =~= er) by {
                assert forall|k: int| 0 <= k < er.len() implies s.subrange(i + 2, i + 2 + er.len())[k] == er[k] by {
                    assert(s[i + 2 + k] == s.subrange(i, i + e.len())[2 + k]);
                }
            }
            assert(wifi_value_from(s, i, false, acc) == wifi_value_from(s, i + 1, true, acc));
            assert(wifi_value_from(s, i + 1, true, acc) == wifi_value_from(s, i + 2, false, acc.push(c)));
            lemma_wifi_value_escaped(s, i + 2, acc.push(c), rest);
            assert(acc.push(c) + rest =~= acc + v);
        } else {
            assert(e == seq![c] + er);
            assert(s[i] == e[0]);
            assert(s.subrange(i + 1, i + 1 + er.len()) =~= er) by {
                assert forall|k: int| 0 <= k < er.len() implies s.subrange(i + 1, i + 1 + er.len())[k] == er[k] by {
                    assert(s[i + 1 + k] == s.subrange(i, i + e.len())[1 + k]);
                }
            }
            assert(wifi_value_from(s, i, false, acc) == wifi_value_from(s, i + 1, false, acc.push(c)));
            lemma_wifi_value_escaped(s, i + 1, acc.push(c), rest);
            assert(acc.push(c) + rest =~= acc + v);
        }
    }
}

/// Keys that can be written in a WiFi body: non-empty and without `:`.
pub open spec fn wifi_keys_ok(pairs: Seq<(Seq<char>, Seq<char>)>) -> bool {
    forall|i: int| 0 <= i < pairs.len() ==> (#[trigger] pairs[i]).0.len() > 0 && !has_char(pairs[i].0, ':')
}

proof fn lemma_wifi_fields_encoded(s: Seq<char>, i: int, acc: Seq<(Seq<char>, Seq<char>)>, pairs: Seq<(Seq<char>, Seq<char>)>)
    requires
        0 <= i <= s.len(),
        s.skip(i) == wifi_encode(pairs),
        wifi_keys_ok(pairs),
        keys_unique(acc + pairs),
    ensures
        wifi_fields_from(s, i, acc) == acc + pairs,
    decreases pairs.len(),
{
    if pairs.len() == 0 {
        assert(s.skip(i).len() == 0);
        assert(acc + pairs =~= acc);
    } else {
        let k = pairs[0].0;
        let v = pairs[0].1;
        let rest = pairs.drop_first();
        let ev = wifi_escape(v);
        let e = s.skip(i);
        assert(e == k + seq![':'] + ev + seq![';'] + wifi_encode(rest));
        let m = i + k.len();
        let vstart = m + 1;
        let next = vstart + ev.len() + 1;
        assert(pairs[0] == pairs[0]);
        assert(k.len() > 0 && !has_char(k, ':'));
        assert forall|j: int| i <= j < m implies s[j] != ':' by {
            assert(s[j] == e[j - i]);
            assert(e[j - i] == k[j - i]);
        }
        assert(s[m] == e[k.len() as int]);
        crate::text::lemma_pos_from_at(s, ':', i, m);
        assert(s.subrange(i, m) =~= k) by {
            assert forall|j: int| 0 <= j < k.len() implies s.subrange(i, m)[j] == k[j] by {
                assert(s[i + j] == e[j]);
            }
        }
        assert(s.subrange(vstart, vstart + ev.len()) =~= ev) by {
            assert forall|j: int| 0 <= j < ev.len() implies s.subrange(vstart, vstart + ev.len())[j] == ev[j] by {
                assert(s[vstart + j] == e[k.len() + 1 + j]);
            }
        }
        assert(s[vstart + ev.len()] == e[k.len() + 1 + ev.len() as int]);
        lemma_wifi_value_escaped(s, vstart, Seq::empty(), v);
        assert(Seq::<char>::empty() + v =~= v);
        assert(s.skip(next) =~= wifi_encode(rest)) by {
            assert forall|j: int| 0 <= j < s.skip(next).len() implies s.skip(next)[j] == wifi_encode(rest)[j] by {
                assert(s[next + j] == e[next - i + j]);
            }
        }
        assert(key_absent(acc, k)) by {
            assert forall|x: int| 0 <= x < acc.len() implies acc[x].0 != k by {
                assert((acc + pairs)[x] == acc[x]);
                assert((acc + pairs)[acc.len() as int] == pairs[0]);
            }
        }
        lemma_without_key(acc, k);
        assert(put(acc, k, v) == acc.push((k, v)));
        assert(acc.push((k, v)) + rest =~= acc + pairs);
        assert forall|x: int| 0 <= x < rest.len() implies (#[trigger] rest[x]).0.len() > 0 && !has_char(rest[x].0, ':') by {
            assert(rest[x] == pairs[x + 1]);
        }
        lemma_wifi_fields_encoded(s, next, acc.push((k, v)), rest);
    }
}

/// Writing fields as a WiFi body and reading them back gives the same
/// fields: escaped values decode to the original values, for distinct,
/// non-empty keys without `:`.
pub proof fn law_wifi_fields_round_trip(pairs: Seq<(Seq<char>, Seq<char>)>)
    requires
        keys_unique(pairs),
        wifi_keys_ok(pairs),
    ensures
        wifi_fields(wifi_encode(pairs)) == pairs,
{
    let s = wifi_encode(pairs);
    assert(s.skip(0) =~= s);
    assert(Seq::<(Seq<char>, Seq<char>)>::empty() + pairs =~= pairs);
    lemma_wifi_fields_encoded(s, 0, Seq::empty(), pairs);
}

} // verus!

verus! {

/// The fields of every result name each key once.
pub proof fn law_parse_fields_unique(raw: Seq<char>)
    ensures
        parse_view(raw).fields matches Some(f) ==> keys_unique(f),
{
    reveal_strlit("lat");
    reveal_strlit("lon");
    reveal_strlit("ssid");
    reveal_strlit("auth");
    reveal_strlit("hidden");
    assert("lat"@[1] != "lon"@[1]);
    assert("ssid"@[0] != "auth"@[0] && "ssid"@[0] != "hidden"@[0] && "auth"@[0] != "hidden"@[0]);
}

} // verus!

verus! {

/// A `WIFI:` payload is read as a network exactly when its authentication
/// type is `WPA`, `WPA2`, `WPA3`, `WEP` or `nopass` (or is not given), its
/// SSID is at most 32 UTF-8 bytes and its password at most 63: then the
/// result is of type `wifi`, shows the SSID, and its fields are the SSID,
/// the authentication type (`nopass` when not given) and the hidden flag.
pub proof fn law_wifi_auth_types(raw: Seq<char>)
    requires
        has_prefix(raw, "WIFI:"@),
        utf8_len(raw) <= MAX_LEN,
    ensures
        ({
            let f = wifi_payload_fields(raw);
            let t = lookup(f, "T"@);
            let ssid = lookup_or(f, "S"@, Seq::empty());
            let password = lookup_or(f, "P"@, Seq::empty());
            let listed = t is None || t == Some("WPA"@) || t == Some("WPA2"@) || t == Some("WPA3"@)
                || t == Some("WEP"@) || t == Some("nopass"@);
            let v = parse_view(raw);
            &&& (listed && utf8_len(ssid) <= 32 && utf8_len(password) <= 63) ==> {
                &&& v.content_type == "wifi"@
                &&& v.display_text == ssid + " (WiFi)"@
                &&& v.fields == Some(seq![
                    ("ssid"@, ssid),
                    ("auth"@, lookup_or(f, "T"@, "nopass"@)),
                    ("hidden"@, lookup_or(f, "H"@, "false"@)),
                ])
            }
            &&& v.content_type == "wifi"@ ==> listed && utf8_len(ssid) <= 32 && utf8_len(password) <= 63
            &&& v.content_type != "wifi"@ ==> v == text_view(raw)
        }),
{
    reveal_strlit("wifi");
    reveal_strlit("text");
    assert("wifi"@ != "text"@) by {
        assert("wifi"@[0] != "text"@[0]);
    }
}

proof fn lemma_count_same(s: Seq<char>, c: char, i: int, m: int)
    requires
        0 <= i <= m <= s.len(),
        forall|j: int| i <= j < m ==> s[j] != c,
    ensures
        count_from(s, c, i) == count_from(s, c, m),
    decreases m - i,
{
    if i < m {
        lemma_count_same(s, c, i + 1, m);
    }
}

proof fn lemma_count_none(s: Seq<char>, c: char, i: int)
    requires
        0 <= i <= s.len(),
        count_from(s, c, i) == 0,
    ensures
        forall|j: int| i <= j < s.len() ==> s[j] != c,
    decreases s.len() - i,
{
    if i < s.len() {
        lemma_count_none(s, c, i + 1);
    }
}

/// `s` starts with none of the prefixes that the classifier tries before a
/// bare address.
pub open spec fn no_scheme_prefix(s: Seq<char>) -> bool {
    &&& !has_prefix(s, "WIFI:"@)
    &&& !has_prefix(s, "BEGIN:VCARD"@)
    &&& !has_prefix(s, "BEGIN:VEVENT"@)
    &&& !has_prefix(s, "mailto:"@)
    &&& !has_prefix(s, "tel:"@)
    &&& !has_prefix(s, "sms:"@)
    &&& !has_prefix(s, "smsto:"@)
    &&& !has_prefix(s, "geo:"@)
    &&& !has_prefix(s, "https://"@)
    &&& !has_prefix(s, "http://"@)
    &&& !has_prefix(s, "www."@)
}

/// `s` is an address by its characters, with its `@` at index `k`: the only
/// `@`, something before it, after it a part that holds a `.` and does not
/// start with one, and no space anywhere.
pub open spec fn address_shape(s: Seq<char>, k: int) -> bool {
    &&& 0 < k < s.len()
    &&& s[k] == '@'
    &&& forall|j: int| 0 <= j < s.len() && j != k ==> #[trigger] s[j] != '@'
    &&& k + 1 < s.len() && s[k + 1] != '.'
    &&& exists|d: int| k + 1 < d < s.len() && #[trigger] s[d] == '.'
    &&& forall|j: int| 0 <= j < s.len() ==> #[trigger] s[j] != ' '
}

proof fn lemma_address_shape(s: Seq<char>, k: int)
    requires
        address_shape(s, k),
    ensures
        spec_is_email(s),
{
    crate::text::lemma_pos_from_at(s, '@', 0, k);
    lemma_count_same(s, '@', 0, k);
    crate::text::lemma_count_zero(s, '@', k + 1);
    let d = choose|d: int| k + 1 < d < s.len() && #[trigger] s[d] == '.';
    assert(s.skip(k + 1)[d - k - 1] == '.');
}

proof fn lemma_email_shape(s: Seq<char>)
    requires
        spec_is_email(s),
    ensures
        address_shape(s, pos_from(s, '@', 0)),
{
    let k = pos_from(s, '@', 0);
    crate::text::lemma_pos_from(s, '@', 0);
    if k >= s.len() {
        crate::text::lemma_count_zero(s, '@', 0);
    }
    lemma_count_same(s, '@', 0, k);
    lemma_count_none(s, '@', k + 1);
    let t = s.skip(k + 1);
    let e = choose|e: int| 0 <= e < t.len() && t[e] == '.';
    assert(s[k + 1 + e] == '.');
    assert(e != 0);
}

/// A bare payload is taken for an email address exactly when its characters
/// make one: a single `@` with something before it, after it a part that
/// holds a `.` and does not start with one, and no space. It is then read as
/// the `mailto:` URI of that address; digits or other characters play no
/// part.
pub proof fn law_bare_email_by_shape(s: Seq<char>)
    requires
        no_scheme_prefix(s),
        utf8_len(s) <= MAX_LEN,
    ensures
        (exists|k: int| address_shape(s, k)) ==> parse_view(s) == email_view("mailto:"@ + s),
        parse_view(s).content_type == "email"@ ==> exists|k: int| address_shape(s, k),
{
    if exists|k: int| address_shape(s, k) {
        let k = choose|k: int| address_shape(s, k);
        lemma_address_shape(s, k);
    }
    if spec_is_email(s) {
        lemma_email_shape(s);
    } else {
        reveal_strlit("email");
        reveal_strlit("phone");
        reveal_strlit("text");
        assert("email"@[0] != "phone"@[0] && "email"@[0] != "text"@[0]);
    }
}

} // verus!
