//! Sanitising a VEVENT payload into a safe `.ics` file: only allow-listed
//! properties are kept, text is stripped of markup and control characters and
//! truncated, date-times are checked.
use vstd::prelude::*;
use crate::text::{
    chars_of, string_of, sub_chars, find_char, pos_from, has_prefix, prefix_rest, utf8_len, width_of, char_width,
    trim, trim_chars, is_ws, contains_seq, has_seq, lemma_utf8_len_push, lemma_utf8_len_empty,
    lemma_utf8_len_prefix,
};

verus! {

pub const MAX_SUMMARY: usize = 256;
pub const MAX_LOCATION: usize = 256;
pub const MAX_DESCRIPTION: usize = 1024;

/// The allow-listed properties of an event, as kept.
#[derive(Debug, Clone)]
pub struct SanitizedEvent {
    pub summary: Option<String>,
    pub dtstart: Option<String>,
    pub dtend: Option<String>,
    pub location: Option<String>,
    pub description: Option<String>,
}

/// Mathematical model of a [`SanitizedEvent`].
pub struct EventView {
    pub summary: Option<Seq<char>>,
    pub dtstart: Option<Seq<char>>,
    pub dtend: Option<Seq<char>>,
    pub location: Option<Seq<char>>,
    pub description: Option<Seq<char>>,
}

impl View for SanitizedEvent {
    type V = EventView;

    open spec fn view(&self) -> EventView {
        EventView {
            summary: self.summary.deep_view(),
            dtstart: self.dtstart.deep_view(),
            dtend: self.dtend.deep_view(),
            location: self.location.deep_view(),
            description: self.description.deep_view(),
        }
    }
}

/// The event with no property set.
pub open spec fn empty_event() -> EventView {
    EventView { summary: None, dtstart: None, dtend: None, location: None, description: None }
}

/// Unicode control characters (general category Cc).
pub open spec fn is_control(c: char) -> bool {
    c <= '\u{1f}' || ('\u{7f}' <= c <= '\u{9f}')
}

/// Text sanitising from index `i` on: `<` opens a tag and `>` closes it, both
/// dropped with everything inside; control characters are dropped; the other
/// characters are kept until one would take the output beyond `max` UTF-8
/// bytes, where the text ends.
pub open spec fn sanitize_from(s: Seq<char>, i: int, in_tag: bool, out: Seq<char>, max: nat) -> Seq<char>
    decreases s.len() - i,
{
    if i < 0 || i >= s.len() {
        out
    } else {
        let ch = s[i];
        if ch == '<' {
            sanitize_from(s, i + 1, true, out, max)
        } else if ch == '>' {
            sanitize_from(s, i + 1, false, out, max)
        } else if in_tag {
            sanitize_from(s, i + 1, in_tag, out, max)
        } else if is_control(ch) {
            sanitize_from(s, i + 1, in_tag, out, max)
        } else if utf8_len(out) + char_width(ch) > max {
            out
        } else {
            sanitize_from(s, i + 1, in_tag, out.push(ch), max)
        }
    }
}

/// `s` with tags and control characters removed, cut to its longest prefix
/// of at most `max` UTF-8 bytes.
pub open spec fn sanitize(s: Seq<char>, max: nat) -> Seq<char> {
    sanitize_from(s, 0, false, Seq::empty(), max)
}

/// Strips control characters and HTML tags, and truncates to at most
/// `max_len` bytes without splitting a character.
pub fn sanitize_text(input: &str, max_len: usize) -> (r: String)
    ensures
        r@ == sanitize(input@, max_len as nat),
{
    let s = chars_of(input);
    let mut out: Vec<char> = Vec::new();
    let mut out_bytes: usize = 0;
    let mut in_tag = false;
    let mut i: usize = 0;
    proof {
        lemma_utf8_len_empty();
    }
    while i < s.len()
        invariant
            i <= s.len(),
            s@ == input@,
            out_bytes == utf8_len(out@),
            out_bytes <= max_len,
            sanitize(input@, max_len as nat) == sanitize_from(s@, i as int, in_tag, out@, max_len as nat),
        ensures
            sanitize(input@, max_len as nat) == out@,
        decreases s.len() - i,
    {
        let ch = s[i];
        if ch == '<' {
            in_tag = true;
        } else if ch == '>' {
            in_tag = false;
        } else if in_tag {
        } else if ch <= '\u{1f}' || ('\u{7f}' <= ch && ch <= '\u{9f}') {
        } else {
            let w = width_of(ch);
            if w > max_len - out_bytes {
                break;
            }
            proof {
                lemma_utf8_len_push(out@, ch);
            }
            out.push(ch);
            out_bytes = out_bytes + w;
        }
        i = i + 1;
    }
    string_of(out.as_slice())
}

/// Characters allowed in an iCalendar date-time.
pub open spec fn is_datetime_char(c: char) -> bool {
    ('0' <= c <= '9') || ('A' <= c <= 'Z') || ('a' <= c <= 'z') || c == '-' || c == ':'
}

/// A date-time as stored: 8 to 20 ASCII letters, digits, `-` and `:`.
pub open spec fn datetime_ok(t: Seq<char>) -> bool {
    &&& 8 <= t.len() <= 20
    &&& forall|i: int| 0 <= i < t.len() ==> is_datetime_char(#[trigger] t[i])
}

/// An iCalendar date-time: once trimmed, 8 to 20 ASCII letters, digits, `-`
/// and `:`.
pub open spec fn valid_datetime(val: Seq<char>) -> bool {
    datetime_ok(trim(val))
}

fn datetime_chars_ok(t: &Vec<char>) -> (r: bool)
    ensures
        r == datetime_ok(t@),
{
    if t.len() < 8 || t.len() > 20 {
        return false;
    }
    let mut i: usize = 0;
    while i < t.len()
        invariant
            i <= t.len(),
            forall|j: int| 0 <= j < i ==> is_datetime_char(#[trigger] t@[j]),
        decreases t.len() - i,
    {
        let c = t[i];
        if !(('0' <= c && c <= '9') || ('A' <= c && c <= 'Z') || ('a' <= c && c <= 'z') || c == '-' || c == ':') {
            assert(!is_datetime_char(t@[i as int]));
            return false;
        }
        i = i + 1;
    }
    true
}

/// Basic check of an iCalendar date-time such as `20260315T100000Z`.
pub fn is_valid_datetime(val: &str) -> (r: bool)
    ensures
        r == valid_datetime(val@),
{
    datetime_chars_ok(&trim_chars(&chars_of(val)))
}

/// The effect of one trimmed line of the payload on the event: a date-time
/// is kept trimmed, and only when it is valid.
pub open spec fn event_step(ev: EventView, line: Seq<char>) -> EventView {
    if has_prefix(line, "SUMMARY:"@) {
        EventView { summary: Some(sanitize(line.skip("SUMMARY:"@.len() as int), MAX_SUMMARY as nat)), ..ev }
    } else if has_prefix(line, "DTSTART:"@) {
        let val = line.skip("DTSTART:"@.len() as int);
        if valid_datetime(val) {
            EventView { dtstart: Some(trim(val)), ..ev }
        } else {
            ev
        }
    } else if has_prefix(line, "DTEND:"@) {
        let val = line.skip("DTEND:"@.len() as int);
        if valid_datetime(val) {
            EventView { dtend: Some(trim(val)), ..ev }
        } else {
            ev
        }
    } else if has_prefix(line, "LOCATION:"@) {
        EventView { location: Some(sanitize(line.skip("LOCATION:"@.len() as int), MAX_LOCATION as nat)), ..ev }
    } else if has_prefix(line, "DESCRIPTION:"@) {
        EventView {
            description: Some(sanitize(line.skip("DESCRIPTION:"@.len() as int), MAX_DESCRIPTION as nat)),
            ..ev
        }
    } else {
        ev
    }
}

/// A start or end time line keeps its value, trimmed, exactly when the
/// trimmed value is 8 to 20 characters long and each is an ASCII letter, an
/// ASCII digit, `-` or `:` (a date, a UTC date-time ending in `Z`, or a
/// local date-time alike); any other value leaves the event as it was.
pub proof fn law_datetime_lines(ev: EventView, v: Seq<char>)
    ensures
        ({
            let t = trim(v);
            let ok = 8 <= t.len() <= 20 && forall|i: int| 0 <= i < t.len() ==> {
                ||| ('0' <= #[trigger] t[i] && t[i] <= '9')
                ||| ('A' <= t[i] && t[i] <= 'Z')
                ||| ('a' <= t[i] && t[i] <= 'z')
                ||| t[i] == '-'
                ||| t[i] == ':'
            };
            &&& event_step(ev, "DTSTART:"@ + v) == (if ok { EventView { dtstart: Some(t), ..ev } } else { ev })
            &&& event_step(ev, "DTEND:"@ + v) == (if ok { EventView { dtend: Some(t), ..ev } } else { ev })
        }),
{
    reveal_strlit("SUMMARY:");
    reveal_strlit("DTSTART:");
    reveal_strlit("DTEND:");
    let l1 = "DTSTART:"@ + v;
    let l2 = "DTEND:"@ + v;
    assert(l1.subrange(0, 8) =~= "DTSTART:"@);
    assert(l1.skip(8) =~= v);
    assert(l2.subrange(0, 6) =~= "DTEND:"@);
    assert(l2.skip(6) =~= v);
    assert(l1[1] != "SUMMARY:"@[1]);
    assert(l2[1] != "SUMMARY:"@[1]);
    assert(l2[2] != "DTSTART:"@[2]);
}

/// The event built from the lines of `s` that start at or after index `i`
/// (lines end at `\n` and are trimmed), starting from `ev`.
pub open spec fn event_from(s: Seq<char>, i: int, ev: EventView) -> EventView
    decreases s.len() - i,
{
    if i < 0 || i > s.len() {
        ev
    } else {
        let j = pos_from(s, '\n', i);
        let ev2 = event_step(ev, trim(s.subrange(i, j)));
        if j < s.len() {
            proof {
                crate::text::lemma_pos_from(s, '\n', i);
            }
            event_from(s, j + 1, ev2)
        } else {
            ev2
        }
    }
}

/// A payload that mentions `BEGIN:VEVENT` gives the event of its lines; any
/// other payload gives none.
pub open spec fn vevent_view(raw: Seq<char>) -> Option<EventView> {
    if has_seq(raw, "BEGIN:VEVENT"@) {
        Some(event_from(raw, 0, empty_event()))
    } else {
        None
    }
}

fn datetime_value(rest: Vec<char>) -> (r: Option<String>)
    ensures
        r.deep_view() == if valid_datetime(rest@) { Some(trim(rest@)) } else { None::<Seq<char>> },
{
    let t = trim_chars(&rest);
    if datetime_chars_ok(&t) {
        Some(string_of(t.as_slice()))
    } else {
        None
    }
}

fn apply_line(ev: SanitizedEvent, line: &Vec<char>) -> (r: SanitizedEvent)
    ensures
        r@ == event_step(ev@, line@),
{
    let mut ev = ev;
    if let Some(rest) = prefix_rest(line, "SUMMARY:") {
        let v = string_of(rest.as_slice());
        ev.summary = Some(sanitize_text(v.as_str(), MAX_SUMMARY));
    } else if let Some(rest) = prefix_rest(line, "DTSTART:") {
        if let Some(d) = datetime_value(rest) {
            ev.dtstart = Some(d);
        }
    } else if let Some(rest) = prefix_rest(line, "DTEND:") {
        if let Some(d) = datetime_value(rest) {
            ev.dtend = Some(d);
        }
    } else if let Some(rest) = prefix_rest(line, "LOCATION:") {
        let v = string_of(rest.as_slice());
        ev.location = Some(sanitize_text(v.as_str(), MAX_LOCATION));
    } else if let Some(rest) = prefix_rest(line, "DESCRIPTION:") {
        let v = string_of(rest.as_slice());
        ev.description = Some(sanitize_text(v.as_str(), MAX_DESCRIPTION));
    }
    ev
}

/// Reads the allow-listed properties of a VEVENT payload; `None` when the
/// payload does not contain `BEGIN:VEVENT`.
pub fn parse_vevent(raw: &str) -> (r: Option<SanitizedEvent>)
    ensures
        r.is_some() == vevent_view(raw@).is_some(),
        r matches Some(e) ==> vevent_view(raw@) == Some(e@),
{
    let s = chars_of(raw);
    if !contains_seq(&s, &chars_of("BEGIN:VEVENT")) {
        return None;
    }
    let mut ev = SanitizedEvent { summary: None, dtstart: None, dtend: None, location: None, description: None };
    let mut i: usize = 0;
    loop
        invariant_except_break
            i <= s.len(),
            event_from(s@, 0, empty_event()) == event_from(s@, i as int, ev@),
        ensures
            event_from(s@, 0, empty_event()) == ev@,
        decreases s.len() - i,
    {
        let j = find_char(&s, '\n', i);
        let line = trim_chars(&sub_chars(&s, i, j));
        ev = apply_line(ev, &line);
        if j < s.len() {
            i = j + 1;
        } else {
            break;
        }
    }
    Some(ev)
}

/// The `key` line for an optional value.
pub open spec fn opt_line(key: Seq<char>, v: Option<Seq<char>>) -> Seq<Seq<char>> {
    match v {
        Some(x) => seq![key + x],
        None => Seq::empty(),
    }
}

/// The fixed lines that open the `.ics` file.
pub open spec fn ics_head() -> Seq<Seq<char>> {
    seq!["BEGIN:VCALENDAR"@, "VERSION:2.0"@, "PRODID:-//QRSnap//EN"@, "BEGIN:VEVENT"@]
}

/// The fixed lines that close the `.ics` file.
pub open spec fn ics_tail() -> Seq<Seq<char>> {
    seq!["END:VEVENT"@, "END:VCALENDAR"@]
}

/// The lines of the `.ics` file for an event.
pub open spec fn ics_lines(e: EventView) -> Seq<Seq<char>> {
    ics_head()
        + opt_line("SUMMARY:"@, e.summary)
        + opt_line("DTSTART:"@, e.dtstart)
        + opt_line("DTEND:"@, e.dtend)
        + opt_line("LOCATION:"@, e.location)
        + opt_line("DESCRIPTION:"@, e.description)
        + ics_tail()
}

/// `lines` joined with `sep` between consecutive lines.
pub open spec fn join_with(lines: Seq<Seq<char>>, sep: Seq<char>) -> Seq<char>
    decreases lines.len(),
{
    if lines.len() == 0 {
        Seq::empty()
    } else if lines.len() == 1 {
        lines[0]
    } else {
        join_with(lines.drop_last(), sep) + sep + lines.last()
    }
}

/// The text of the `.ics` file for an event: its lines joined with CRLF.
pub open spec fn ics_text(e: EventView) -> Seq<char> {
    join_with(ics_lines(e), "\r\n"@)
}

/// Joins `lines` with `sep`.
pub fn join_lines(lines: &Vec<String>, sep: &str) -> (r: String)
    ensures
        r@ == join_with(lines.deep_view(), sep@),
{
    let mut r = String::new();
    let mut i: usize = 0;
    assert(lines.deep_view().take(0) =~= Seq::<Seq<char>>::empty());
    while i < lines.len()
        invariant
            i <= lines.len(),
            r@ == join_with(lines.deep_view().take(i as int), sep@),
        decreases lines.len() - i,
    {
        let ghost pre = lines.deep_view().take(i as int + 1);
        assert(pre.drop_last() =~= lines.deep_view().take(i as int));
        assert(pre.last() == lines@[i as int]@);
        if i > 0 {
            r.append(sep);
        }
        r.append(lines[i].as_str());
        i = i + 1;
    }
    assert(lines.deep_view().take(i as int) =~= lines.deep_view());
    r
}

fn push_opt_line(lines: &mut Vec<String>, key: &str, v: &Option<String>)
    ensures
        final(lines).deep_view() == old(lines).deep_view() + opt_line(key@, v.deep_view()),
{
    match v {
        Some(x) => {
            let ghost before = lines.deep_view();
            lines.push(String::from_str(key).concat(x.as_str()));
            assert(lines.deep_view() =~= before + seq![key@ + x@]);
        },
        None => {
            assert(lines.deep_view() =~= lines.deep_view() + Seq::<Seq<char>>::empty());
        },
    }
}

/// Generates the sanitised `.ics` file for an event.
pub fn to_ics(event: &SanitizedEvent) -> (r: String)
    ensures
        r@ == ics_text(event@),
{
    let mut lines: Vec<String> = Vec::new();
    lines.push(String::from_str("BEGIN:VCALENDAR"));
    lines.push(String::from_str("VERSION:2.0"));
    lines.push(String::from_str("PRODID:-//QRSnap//EN"));
    lines.push(String::from_str("BEGIN:VEVENT"));
    assert(lines.deep_view() =~= seq!["BEGIN:VCALENDAR"@, "VERSION:2.0"@, "PRODID:-//QRSnap//EN"@, "BEGIN:VEVENT"@]);
    push_opt_line(&mut lines, "SUMMARY:", &event.summary);
    push_opt_line(&mut lines, "DTSTART:", &event.dtstart);
    push_opt_line(&mut lines, "DTEND:", &event.dtend);
    push_opt_line(&mut lines, "LOCATION:", &event.location);
    push_opt_line(&mut lines, "DESCRIPTION:", &event.description);
    let ghost mid = lines.deep_view();
    lines.push(String::from_str("END:VEVENT"));
    lines.push(String::from_str("END:VCALENDAR"));
    assert(lines.deep_view() =~= mid + seq!["END:VEVENT"@, "END:VCALENDAR"@]);
    assert(lines.deep_view() =~= ics_lines(event@));
    join_lines(&lines, "\r\n")
}

} // verus!

verus! {

/// A character that sanitised text may hold: no tag delimiter and no control
/// character.
pub open spec fn is_clean_char(c: char) -> bool {
    c != '<' && c != '>' && !is_control(c)
}

/// Every character of `t` is clean and occurs in `src`.
pub open spec fn clean_from(t: Seq<char>, src: Seq<char>) -> bool {
    forall|k: int| 0 <= k < t.len() ==> is_clean_char(#[trigger] t[k]) && src.contains(t[k])
}

proof fn lemma_sanitize_from(s: Seq<char>, i: int, in_tag: bool, out: Seq<char>, max: nat)
    requires
        0 <= i <= s.len(),
        clean_from(out, s),
        utf8_len(out) <= max,
    ensures
        clean_from(sanitize_from(s, i, in_tag, out, max), s),
        utf8_len(sanitize_from(s, i, in_tag, out, max)) <= max,
    decreases s.len() - i,
{
    if i < s.len() {
        let ch = s[i];
        if ch == '<' || ch == '>' || in_tag || is_control(ch) {
            lemma_sanitize_from(s, i + 1, ch == '<' || (in_tag && ch != '>'), out, max);
        } else if utf8_len(out) + char_width(ch) <= max {
            let o2 = out.push(ch);
            lemma_utf8_len_push(out, ch);
            assert forall|k: int| 0 <= k < o2.len() implies is_clean_char(#[trigger] o2[k]) && s.contains(o2[k]) by {
                if k < out.len() {
                    assert(o2[k] == out[k]);
                } else {
                    assert(o2[k] == s[i]);
                }
            }
            lemma_sanitize_from(s, i + 1, in_tag, o2, max);
        }
    }
}

/// Sanitised text holds no `<`, no `>` and no control character, only
/// characters of the input, and at most `max` UTF-8 bytes.
pub proof fn law_sanitize_clean(s: Seq<char>, max: nat)
    ensures
        clean_from(sanitize(s, max), s),
        utf8_len(sanitize(s, max)) <= max,
{
    lemma_utf8_len_empty();
    lemma_sanitize_from(s, 0, false, Seq::empty(), max);
}

proof fn lemma_sanitize_clean_input(t: Seq<char>, i: int, out: Seq<char>, max: nat)
    requires
        0 <= i <= t.len(),
        forall|k: int| 0 <= k < t.len() ==> is_clean_char(#[trigger] t[k]),
        utf8_len(out + t.skip(i)) <= max,
    ensures
        sanitize_from(t, i, false, out, max) == out + t.skip(i),
    decreases t.len() - i,
{
    if i < t.len() {
        let ch = t[i];
        let whole = out + t.skip(i);
        assert(whole.take(out.len() as int + 1) =~= out.push(ch));
        lemma_utf8_len_prefix(whole, out.len() as int + 1);
        lemma_utf8_len_push(out, ch);
        assert(out.push(ch) + t.skip(i + 1) =~= whole);
        lemma_sanitize_clean_input(t, i + 1, out.push(ch), max);
    } else {
        assert(out + t.skip(i) =~= out);
    }
}

/// Sanitising is idempotent: sanitised text comes through a second pass
/// unchanged.
pub proof fn law_sanitize_idempotent(s: Seq<char>, max: nat)
    ensures
        sanitize(sanitize(s, max), max) == sanitize(s, max),
{
    let t = sanitize(s, max);
    law_sanitize_clean(s, max);
    assert(Seq::<char>::empty() + t.skip(0) =~= t);
    lemma_sanitize_clean_input(t, 0, Seq::empty(), max);
}

/// Text from index `i` on with tags and control characters removed and no
/// byte limit: the same pass as [`sanitize_from`] without truncation.
pub open spec fn strip_from(s: Seq<char>, i: int, in_tag: bool, out: Seq<char>) -> Seq<char>
    decreases s.len() - i,
{
    if i < 0 || i >= s.len() {
        out
    } else {
        let ch = s[i];
        if ch == '<' {
            strip_from(s, i + 1, true, out)
        } else if ch == '>' {
            strip_from(s, i + 1, false, out)
        } else if in_tag || is_control(ch) {
            strip_from(s, i + 1, in_tag, out)
        } else {
            strip_from(s, i + 1, in_tag, out.push(ch))
        }
    }
}

/// `s` with tags and control characters removed, nothing cut.
pub open spec fn strip_markup(s: Seq<char>) -> Seq<char> {
    strip_from(s, 0, false, Seq::empty())
}

proof fn lemma_strip_keeps(s: Seq<char>, i: int, in_tag: bool, out: Seq<char>)
    ensures
        strip_from(s, i, in_tag, out).len() >= out.len(),
        strip_from(s, i, in_tag, out).take(out.len() as int) == out,
    decreases s.len() - i,
{
    let f = strip_from(s, i, in_tag, out);
    if 0 <= i < s.len() {
        let ch = s[i];
        if ch == '<' {
            lemma_strip_keeps(s, i + 1, true, out);
        } else if ch == '>' {
            lemma_strip_keeps(s, i + 1, false, out);
        } else if in_tag || is_control(ch) {
            lemma_strip_keeps(s, i + 1, in_tag, out);
        } else {
            let o2 = out.push(ch);
            lemma_strip_keeps(s, i + 1, in_tag, o2);
            assert(f.take(out.len() as int) =~= f.take(o2.len() as int).take(out.len() as int));
            assert(o2.take(out.len() as int) =~= out);
        }
    } else {
        assert(f.take(out.len() as int) =~= out);
    }
}

proof fn lemma_sanitize_cut(s: Seq<char>, i: int, in_tag: bool, out: Seq<char>, max: nat)
    requires
        utf8_len(out) <= max,
    ensures
        ({
            let r = sanitize_from(s, i, in_tag, out, max);
            let f = strip_from(s, i, in_tag, out);
            &&& r.len() <= f.len()
            &&& r == f.take(r.len() as int)
            &&& r.len() < f.len() ==> utf8_len(f.take(r.len() + 1int)) > max
        }),
    decreases s.len() - i,
{
    if 0 <= i < s.len() {
        let ch = s[i];
        if ch == '<' {
            lemma_sanitize_cut(s, i + 1, true, out, max);
        } else if ch == '>' {
            lemma_sanitize_cut(s, i + 1, false, out, max);
        } else if in_tag || is_control(ch) {
            lemma_sanitize_cut(s, i + 1, in_tag, out, max);
        } else {
            lemma_utf8_len_push(out, ch);
            let o2 = out.push(ch);
            if utf8_len(out) + char_width(ch) > max {
                let f = strip_from(s, i + 1, in_tag, o2);
                lemma_strip_keeps(s, i + 1, in_tag, o2);
                assert(f.take(out.len() as int) =~= f.take(o2.len() as int).take(out.len() as int));
                assert(o2.take(out.len() as int) =~= out);
            } else {
                lemma_sanitize_cut(s, i + 1, in_tag, o2, max);
            }
        }
    } else {
        let f = strip_from(s, i, in_tag, out);
        assert(f.take(out.len() as int) =~= out);
    }
}

/// Sanitised text is the longest prefix of the fully stripped text (tags and
/// control characters removed, nothing cut) that fits in `max` UTF-8 bytes:
/// it is a prefix of it, it fits, every longer prefix passes the limit, and
/// when the whole stripped text fits it is the result.
pub proof fn law_sanitize_longest_prefix(s: Seq<char>, max: nat)
    ensures
        ({
            let r = sanitize(s, max);
            let f = strip_markup(s);
            &&& r.len() <= f.len()
            &&& r == f.take(r.len() as int)
            &&& utf8_len(r) <= max
            &&& forall|k: int| r.len() < k <= f.len() ==> utf8_len(#[trigger] f.take(k)) > max
            &&& utf8_len(f) <= max ==> r == f
        }),
{
    let r = sanitize(s, max);
    let f = strip_markup(s);
    lemma_utf8_len_empty();
    lemma_sanitize_cut(s, 0, false, Seq::empty(), max);
    law_sanitize_clean(s, max);
    assert forall|k: int| r.len() < k <= f.len() implies utf8_len(#[trigger] f.take(k)) > max by {
        let n = r.len() + 1;
        lemma_utf8_len_prefix(f.take(k), n as int);
        assert(f.take(k).take(n as int) =~= f.take(n as int));
    }
    if utf8_len(f) <= max && r.len() < f.len() {
        assert(f.take(f.len() as int) =~= f);
        assert(false);
    }
    if r.len() == f.len() {
        assert(f.take(f.len() as int) =~= f);
    }
}

/// `t` holds no line break: neither CR nor LF.
pub open spec fn no_line_break(t: Seq<char>) -> bool {
    forall|k: int| 0 <= k < t.len() ==> #[trigger] t[k] != '\n' && t[k] != '\r'
}

/// `t` holds only clean characters (so no line break either).
pub open spec fn clean_text(t: Seq<char>) -> bool {
    forall|k: int| 0 <= k < t.len() ==> is_clean_char(#[trigger] t[k])
}

/// The properties of an event are safe to write out: the text properties
/// (summary, location, description) hold no tag delimiter and no control
/// character, and the start and end times are 8 to 20 ASCII letters,
/// digits, `-` and `:`.
pub open spec fn event_safe(e: EventView) -> bool {
    &&& (e.summary matches Some(t) ==> clean_text(t))
    &&& (e.location matches Some(t) ==> clean_text(t))
    &&& (e.description matches Some(t) ==> clean_text(t))
    &&& (e.dtstart matches Some(t) ==> datetime_ok(t))
    &&& (e.dtend matches Some(t) ==> datetime_ok(t))
}

proof fn lemma_sanitized_clean_text(src: Seq<char>, max: nat)
    ensures
        clean_text(sanitize(src, max)),
{
    law_sanitize_clean(src, max);
}

proof fn lemma_step_safe(ev: EventView, line: Seq<char>)
    requires
        event_safe(ev),
    ensures
        event_safe(event_step(ev, line)),
{
    if has_prefix(line, "SUMMARY:"@) {
        lemma_sanitized_clean_text(line.skip("SUMMARY:"@.len() as int), MAX_SUMMARY as nat);
    } else if has_prefix(line, "DTSTART:"@) {
    } else if has_prefix(line, "DTEND:"@) {
    } else if has_prefix(line, "LOCATION:"@) {
        lemma_sanitized_clean_text(line.skip("LOCATION:"@.len() as int), MAX_LOCATION as nat);
    } else if has_prefix(line, "DESCRIPTION:"@) {
        lemma_sanitized_clean_text(line.skip("DESCRIPTION:"@.len() as int), MAX_DESCRIPTION as nat);
    }
}

proof fn lemma_event_from_safe(s: Seq<char>, i: int, ev: EventView)
    requires
        0 <= i <= s.len(),
        event_safe(ev),
    ensures
        event_safe(event_from(s, i, ev)),
    decreases s.len() - i,
{
    let j = pos_from(s, '\n', i);
    crate::text::lemma_pos_from(s, '\n', i);
    let line = trim(s.subrange(i, j));
    lemma_step_safe(ev, line);
    if j < s.len() {
        lemma_event_from_safe(s, j + 1, event_step(ev, line));
    }
}

/// Every property of a parsed event is safe to write out: text without
/// markup or control characters, date-times of 8 to 20 ASCII letters,
/// digits, `-` and `:`.
pub proof fn law_event_safe(raw: Seq<char>)
    ensures
        vevent_view(raw) matches Some(e) ==> event_safe(e),
{
    if has_seq(raw, "BEGIN:VEVENT"@) {
        lemma_event_from_safe(raw, 0, empty_event());
    }
}

/// The property names the `.ics` file may hold.
pub open spec fn allowed_line(l: Seq<char>) -> bool {
    ||| l == "BEGIN:VCALENDAR"@
    ||| l == "VERSION:2.0"@
    ||| l == "PRODID:-//QRSnap//EN"@
    ||| l == "BEGIN:VEVENT"@
    ||| has_prefix(l, "SUMMARY:"@)
    ||| has_prefix(l, "DTSTART:"@)
    ||| has_prefix(l, "DTEND:"@)
    ||| has_prefix(l, "LOCATION:"@)
    ||| has_prefix(l, "DESCRIPTION:"@)
    ||| l == "END:VEVENT"@
    ||| l == "END:VCALENDAR"@
}

proof fn lemma_opt_line(key: Seq<char>, v: Option<Seq<char>>)
    requires
        no_line_break(key),
        v matches Some(t) ==> no_line_break(t),
    ensures
        forall|k: int| 0 <= k < opt_line(key, v).len() ==> no_line_break(#[trigger] opt_line(key, v)[k]) && has_prefix(opt_line(key, v)[k], key),
{
    if let Some(t) = v {
        let l = key + t;
        assert(l.subrange(0, key.len() as int) =~= key);
        assert forall|k: int| 0 <= k < l.len() implies #[trigger] l[k] != '\n' && l[k] != '\r' by {
            if k < key.len() {
                assert(l[k] == key[k]);
            } else {
                assert(l[k] == t[k - key.len()]);
            }
        }
    }
}

/// Only allow-listed properties reach the `.ics` file: each of its lines is
/// one of the fixed frame lines or starts with an allow-listed property name,
/// and no line holds a CR or an LF, so none can smuggle in another property.
pub proof fn law_ics_allowlist(raw: Seq<char>)
    ensures
        vevent_view(raw) matches Some(e) ==> forall|k: int| 0 <= k < ics_lines(e).len() ==> {
            &&& allowed_line(#[trigger] ics_lines(e)[k])
            &&& no_line_break(ics_lines(e)[k])
        },
{
    law_event_safe(raw);
    if let Some(e) = vevent_view(raw) {
        reveal_strlit("BEGIN:VCALENDAR");
        reveal_strlit("VERSION:2.0");
        reveal_strlit("PRODID:-//QRSnap//EN");
        reveal_strlit("BEGIN:VEVENT");
        reveal_strlit("SUMMARY:");
        reveal_strlit("DTSTART:");
        reveal_strlit("DTEND:");
        reveal_strlit("LOCATION:");
        reveal_strlit("DESCRIPTION:");
        reveal_strlit("END:VEVENT");
        reveal_strlit("END:VCALENDAR");
        let head = seq!["BEGIN:VCALENDAR"@, "VERSION:2.0"@, "PRODID:-//QRSnap//EN"@, "BEGIN:VEVENT"@];
        let tail = seq!["END:VEVENT"@, "END:VCALENDAR"@];
        let o1 = opt_line("SUMMARY:"@, e.summary);
        let o2 = opt_line("DTSTART:"@, e.dtstart);
        let o3 = opt_line("DTEND:"@, e.dtend);
        let o4 = opt_line("LOCATION:"@, e.location);
        let o5 = opt_line("DESCRIPTION:"@, e.description);
        if let Some(t) = e.summary {
            assert(no_line_break(t));
        }
        if let Some(t) = e.location {
            assert(no_line_break(t));
        }
        if let Some(t) = e.description {
            assert(no_line_break(t));
        }
        if let Some(t) = e.dtstart {
            assert(no_line_break(t));
        }
        if let Some(t) = e.dtend {
            assert(no_line_break(t));
        }
        lemma_opt_line("SUMMARY:"@, e.summary);
        lemma_opt_line("DTSTART:"@, e.dtstart);
        lemma_opt_line("DTEND:"@, e.dtend);
        lemma_opt_line("LOCATION:"@, e.location);
        lemma_opt_line("DESCRIPTION:"@, e.description);
        let all = ics_lines(e);
        assert forall|k: int| 0 <= k < all.len() implies allowed_line(#[trigger] all[k]) && no_line_break(all[k]) by {
            let n0 = head.len() as int;
            let n1 = n0 + o1.len();
            let n2 = n1 + o2.len();
            let n3 = n2 + o3.len();
            let n4 = n3 + o4.len();
            let n5 = n4 + o5.len();
            if k < n0 {
                assert(all[k] == head[k]);
            } else if k < n1 {
                assert(all[k] == o1[k - n0]);
            } else if k < n2 {
                assert(all[k] == o2[k - n1]);
            } else if k < n3 {
                assert(all[k] == o3[k - n2]);
            } else if k < n4 {
                assert(all[k] == o4[k - n3]);
            } else if k < n5 {
                assert(all[k] == o5[k - n4]);
            } else {
                assert(all[k] == tail[k - n5]);
            }
        }
    }
}

} // verus!

verus! {

/// A line that reads back as itself: non-empty, no white space at either
/// end, no line feed.
pub open spec fn line_ok(l: Seq<char>) -> bool {
    &&& l.len() > 0
    &&& !is_ws(l[0])
    &&& !is_ws(l.last())
    &&& forall|k: int| 0 <= k < l.len() ==> #[trigger] l[k] != '\n'
}

/// The event read from `lines`, one after the other, starting from `ev`.
pub open spec fn read_lines(ev: EventView, lines: Seq<Seq<char>>) -> EventView
    decreases lines.len(),
{
    if lines.len() == 0 {
        ev
    } else {
        read_lines(event_step(ev, lines[0]), lines.drop_first())
    }
}

proof fn lemma_read_lines_append(ev: EventView, a: Seq<Seq<char>>, b: Seq<Seq<char>>)
    ensures
        read_lines(ev, a + b) == read_lines(read_lines(ev, a), b),
    decreases a.len(),
{
    if a.len() == 0 {
        assert(a + b =~= b);
    } else {
        assert((a + b).drop_first() =~= a.drop_first() + b);
        lemma_read_lines_append(event_step(ev, a[0]), a.drop_first(), b);
    }
}

proof fn lemma_trim_id(t: Seq<char>)
    requires
        t.len() > 0,
        !is_ws(t[0]),
        !is_ws(t.last()),
    ensures
        trim(t) == t,
{
    assert(crate::text::trim_start(t, 0) == 0);
    assert(crate::text::trim_end(t, 0, t.len() as int) == t.len());
    assert(t.subrange(0, t.len() as int) =~= t);
}

proof fn lemma_trim_cr(l: Seq<char>)
    requires
        line_ok(l),
    ensures
        trim(l.push('\r')) == l,
{
    let t = l.push('\r');
    assert(t[0] == l[0]);
    assert(crate::text::trim_start(t, 0) == 0);
    assert(t[t.len() - 1] == '\r');
    assert(is_ws('\r'));
    assert(t[l.len() - 1] == l.last());
    assert(crate::text::trim_end(t, 0, l.len() as int) == l.len());
    assert(crate::text::trim_end(t, 0, t.len() as int) == l.len());
    assert(t.subrange(0, l.len() as int) =~= l);
}

proof fn lemma_join_front(lines: Seq<Seq<char>>, sep: Seq<char>)
    requires
        lines.len() >= 2,
    ensures
        join_with(lines, sep) == lines[0] + sep + join_with(lines.drop_first(), sep),
    decreases lines.len(),
{
    if lines.len() == 2 {
        assert(lines.drop_last().len() == 1);
        assert(lines.drop_first().len() == 1);
        assert(join_with(lines.drop_last(), sep) == lines.drop_last()[0]);
        assert(lines.drop_last()[0] == lines[0]);
        assert(join_with(lines.drop_first(), sep) == lines.drop_first()[0]);
        assert(lines.drop_first()[0] == lines.last());
        assert(join_with(lines, sep) == join_with(lines.drop_last(), sep) + sep + lines.last());
    } else {
        let dl = lines.drop_last();
        lemma_join_front(dl, sep);
        assert(lines.drop_first().drop_last() =~= dl.drop_first());
        assert(lines.drop_first().last() == lines.last());
        assert(join_with(lines, sep) =~= lines[0] + sep + join_with(lines.drop_first(), sep));
    }
}

proof fn lemma_line_in_join(lines: Seq<Seq<char>>, sep: Seq<char>, k: int)
    requires
        0 <= k < lines.len(),
    ensures
        has_seq(join_with(lines, sep), lines[k]),
    decreases lines.len(),
{
    let j = join_with(lines, sep);
    if lines.len() == 1 {
        assert(j == lines[0]);
        assert(crate::text::occurs_at(j, lines[k], 0)) by {
            assert(j.subrange(0, j.len() as int) =~= j);
        }
    } else {
        let dl = lines.drop_last();
        let jd = join_with(dl, sep);
        assert(j == jd + sep + lines.last());
        if k < lines.len() - 1 {
            lemma_line_in_join(dl, sep, k);
            let x = choose|x: int| crate::text::occurs_at(jd, dl[k], x);
            assert(j.subrange(x, x + dl[k].len()) =~= jd.subrange(x, x + dl[k].len()));
            assert(crate::text::occurs_at(j, lines[k], x));
        } else {
            let x: int = (jd.len() + sep.len()) as int;
            assert(j.subrange(x, x + lines[k].len()) =~= lines[k]);
            assert(crate::text::occurs_at(j, lines[k], x));
        }
    }
}

#[verifier::spinoff_prover]
proof fn lemma_read_join(s: Seq<char>, i: int, ev: EventView, lines: Seq<Seq<char>>)
    requires
        0 <= i <= s.len(),
        lines.len() >= 1,
        s.skip(i) == join_with(lines, seq!['\r', '\n']),
        forall|k: int| 0 <= k < lines.len() ==> line_ok(#[trigger] lines[k]),
    ensures
        event_from(s, i, ev) == read_lines(ev, lines),
    decreases lines.len(),
{
    let l0 = lines[0];
    assert(line_ok(lines[0]));
    let e = s.skip(i);
    if lines.len() == 1 {
        assert(e == l0);
        assert forall|j: int| i <= j < s.len() implies s[j] != '\n' by {
            assert(s[j] == e[j - i]);
        }
        crate::text::lemma_pos_from_none(s, '\n', i);
        assert(s.subrange(i, s.len() as int) =~= l0);
        lemma_trim_id(l0);
        assert(lines.drop_first().len() == 0);
    } else {
        let rest = lines.drop_first();
        lemma_join_front(lines, seq!['\r', '\n']);
        let m = i + l0.len() + 1;
        assert(e == l0 + seq!['\r', '\n'] + join_with(rest, seq!['\r', '\n']));
        assert forall|j: int| i <= j < m implies s[j] != '\n' by {
            assert(s[j] == e[j - i]);
            if j - i < l0.len() {
                assert(e[j - i] == l0[j - i]);
            } else {
                assert(e[j - i] == '\r');
            }
        }
        assert(s[m] == e[l0.len() as int + 1]);
        crate::text::lemma_pos_from_at(s, '\n', i, m);
        assert(s.subrange(i, m) =~= l0.push('\r')) by {
            assert forall|j: int| 0 <= j < m - i implies s.subrange(i, m)[j] == l0.push('\r')[j] by {
                assert(s[i + j] == e[j]);
            }
        }
        lemma_trim_cr(l0);
        assert(s.skip(m + 1) =~= join_with(rest, seq!['\r', '\n'])) by {
            assert forall|j: int| 0 <= j < s.skip(m + 1).len() implies s.skip(m + 1)[j] == join_with(rest, seq!['\r', '\n'])[j] by {
                assert(s[m + 1 + j] == e[l0.len() + 2 + j]);
            }
        }
        assert forall|k: int| 0 <= k < rest.len() implies line_ok(#[trigger] rest[k]) by {
            assert(rest[k] == lines[k + 1]);
        }
        lemma_read_join(s, m + 1, event_step(ev, l0), rest);
    }
}

/// Lines that change no event leave the event as it is.
proof fn lemma_read_inert(ev: EventView, ls: Seq<Seq<char>>)
    requires
        forall|k: int, e2: EventView| 0 <= k < ls.len() ==> #[trigger] event_step(e2, ls[k]) == e2,
    ensures
        read_lines(ev, ls) == ev,
    decreases ls.len(),
{
    if ls.len() > 0 {
        assert(event_step(ev, ls[0]) == ev);
        assert forall|k: int, e2: EventView| 0 <= k < ls.drop_first().len() implies #[trigger] event_step(e2, ls.drop_first()[k]) == e2 by {
            assert(ls.drop_first()[k] == ls[k + 1]);
            assert(event_step(e2, ls[k + 1]) == e2);
        }
        lemma_read_inert(ev, ls.drop_first());
    }
}

proof fn lemma_no_prefix(l: Seq<char>, p: Seq<char>, k: int)
    requires
        0 <= k < p.len(),
        k < l.len(),
        l[k] != p[k],
    ensures
        !has_prefix(l, p),
{
    if p.len() <= l.len() {
        assert(l.subrange(0, p.len() as int)[k] != p[k]);
    }
}

/// Text that is written to the file and read back unchanged: clean, within
/// `max` bytes, not ending in white space.
pub open spec fn text_ok(t: Seq<char>, max: nat) -> bool {
    &&& clean_text(t)
    &&& utf8_len(t) <= max
    &&& (t.len() > 0 ==> !is_ws(t.last()))
}

/// An event that its `.ics` file describes faithfully: each text property
/// passes `text_ok` with its limit, each time is a stored date-time.
pub open spec fn event_writable(e: EventView) -> bool {
    &&& (e.summary matches Some(t) ==> text_ok(t, MAX_SUMMARY as nat))
    &&& (e.location matches Some(t) ==> text_ok(t, MAX_LOCATION as nat))
    &&& (e.description matches Some(t) ==> text_ok(t, MAX_DESCRIPTION as nat))
    &&& (e.dtstart matches Some(t) ==> datetime_ok(t))
    &&& (e.dtend matches Some(t) ==> datetime_ok(t))
}

proof fn lemma_key_line(key: Seq<char>, t: Seq<char>)
    requires
        key.len() > 0,
        !is_ws(key[0]),
        !is_ws(key.last()),
        forall|k: int| 0 <= k < key.len() ==> #[trigger] key[k] != '\n',
        forall|k: int| 0 <= k < t.len() ==> #[trigger] t[k] != '\n',
        t.len() > 0 ==> !is_ws(t.last()),
    ensures
        line_ok(key + t),
        has_prefix(key + t, key),
        (key + t).skip(key.len() as int) == t,
        forall|k: int| 0 <= k < key.len() ==> (key + t)[k] == key[k],
{
    let l = key + t;
    assert(l[0] == key[0]);
    assert(l.subrange(0, key.len() as int) =~= key);
    assert(l.skip(key.len() as int) =~= t);
    if t.len() > 0 {
        assert(l.last() == t.last());
    } else {
        assert(l.last() == key.last());
    }
    assert forall|k: int| 0 <= k < l.len() implies #[trigger] l[k] != '\n' by {
        if k < key.len() {
            assert(l[k] == key[k]);
        } else {
            assert(l[k] == t[k - key.len()]);
        }
    }
}

proof fn lemma_clean_no_lf(t: Seq<char>)
    requires
        clean_text(t),
    ensures
        forall|k: int| 0 <= k < t.len() ==> #[trigger] t[k] != '\n',
{
    assert forall|k: int| 0 <= k < t.len() implies #[trigger] t[k] != '\n' by {
        assert(is_clean_char(t[k]));
    }
}

proof fn lemma_datetime_plain(t: Seq<char>)
    requires
        datetime_ok(t),
    ensures
        forall|k: int| 0 <= k < t.len() ==> #[trigger] t[k] != '\n',
        !is_ws(t.last()),
        trim(t) == t,
        valid_datetime(t),
{
    assert(is_datetime_char(t[0]));
    assert(is_datetime_char(t[t.len() - 1]));
    lemma_trim_id(t);
    assert forall|k: int| 0 <= k < t.len() implies #[trigger] t[k] != '\n' by {
        assert(is_datetime_char(t[k]));
    }
}

proof fn lemma_sanitize_keeps(t: Seq<char>, max: nat)
    requires
        text_ok(t, max),
    ensures
        sanitize(t, max) == t,
{
    assert(Seq::<char>::empty() + t.skip(0) =~= t);
    lemma_sanitize_clean_input(t, 0, Seq::empty(), max);
}

proof fn lemma_one_line(ev: EventView, l: Seq<char>)
    ensures
        read_lines(ev, seq![l]) == event_step(ev, l),
{
    let ls = seq![l];
    assert(ls[0] == l);
    assert(ls.drop_first() =~= Seq::<Seq<char>>::empty());
    assert(read_lines(event_step(ev, l), Seq::<Seq<char>>::empty()) == event_step(ev, l));
}

proof fn lemma_summary_line(ev: EventView, v: Option<Seq<char>>)
    requires
        ev.summary is None,
        v matches Some(t) ==> text_ok(t, MAX_SUMMARY as nat),
    ensures
        read_lines(ev, opt_line("SUMMARY:"@, v)) == (EventView { summary: v, ..ev }),
{
    reveal_strlit("SUMMARY:");
    if let Some(t) = v {
        lemma_clean_no_lf(t);
        lemma_key_line("SUMMARY:"@, t);
        lemma_sanitize_keeps(t, MAX_SUMMARY as nat);
        lemma_one_line(ev, "SUMMARY:"@ + t);
    } else {
        assert(opt_line("SUMMARY:"@, v) =~= Seq::<Seq<char>>::empty());
    }
}

proof fn lemma_dtstart_line(ev: EventView, v: Option<Seq<char>>)
    requires
        ev.dtstart is None,
        v matches Some(t) ==> datetime_ok(t),
    ensures
        read_lines(ev, opt_line("DTSTART:"@, v)) == (EventView { dtstart: v, ..ev }),
{
    reveal_strlit("SUMMARY:");
    reveal_strlit("DTSTART:");
    if let Some(t) = v {
        let k = "DTSTART:"@;
        lemma_datetime_plain(t);
        lemma_key_line(k, t);
        lemma_no_prefix(k + t, "SUMMARY:"@, 0);
        lemma_one_line(ev, k + t);
    } else {
        assert(opt_line("DTSTART:"@, v) =~= Seq::<Seq<char>>::empty());
    }
}

proof fn lemma_dtend_line(ev: EventView, v: Option<Seq<char>>)
    requires
        ev.dtend is None,
        v matches Some(t) ==> datetime_ok(t),
    ensures
        read_lines(ev, opt_line("DTEND:"@, v)) == (EventView { dtend: v, ..ev }),
{
    reveal_strlit("SUMMARY:");
    reveal_strlit("DTSTART:");
    reveal_strlit("DTEND:");
    if let Some(t) = v {
        let k = "DTEND:"@;
        lemma_datetime_plain(t);
        lemma_key_line(k, t);
        lemma_no_prefix(k + t, "SUMMARY:"@, 0);
        lemma_no_prefix(k + t, "DTSTART:"@, 2);
        lemma_one_line(ev, k + t);
    } else {
        assert(opt_line("DTEND:"@, v) =~= Seq::<Seq<char>>::empty());
    }
}

proof fn lemma_location_line(ev: EventView, v: Option<Seq<char>>)
    requires
        ev.location is None,
        v matches Some(t) ==> text_ok(t, MAX_LOCATION as nat),
    ensures
        read_lines(ev, opt_line("LOCATION:"@, v)) == (EventView { location: v, ..ev }),
{
    reveal_strlit("SUMMARY:");
    reveal_strlit("DTSTART:");
    reveal_strlit("DTEND:");
    reveal_strlit("LOCATION:");
    if let Some(t) = v {
        let k = "LOCATION:"@;
        lemma_clean_no_lf(t);
        lemma_key_line(k, t);
        lemma_sanitize_keeps(t, MAX_LOCATION as nat);
        lemma_no_prefix(k + t, "SUMMARY:"@, 0);
        lemma_no_prefix(k + t, "DTSTART:"@, 0);
        lemma_no_prefix(k + t, "DTEND:"@, 0);
        lemma_one_line(ev, k + t);
    } else {
        assert(opt_line("LOCATION:"@, v) =~= Seq::<Seq<char>>::empty());
    }
}

proof fn lemma_description_line(ev: EventView, v: Option<Seq<char>>)
    requires
        ev.description is None,
        v matches Some(t) ==> text_ok(t, MAX_DESCRIPTION as nat),
    ensures
        read_lines(ev, opt_line("DESCRIPTION:"@, v)) == (EventView { description: v, ..ev }),
{
    reveal_strlit("SUMMARY:");
    reveal_strlit("DTSTART:");
    reveal_strlit("DTEND:");
    reveal_strlit("LOCATION:");
    reveal_strlit("DESCRIPTION:");
    if let Some(t) = v {
        let k = "DESCRIPTION:"@;
        lemma_clean_no_lf(t);
        lemma_key_line(k, t);
        lemma_sanitize_keeps(t, MAX_DESCRIPTION as nat);
        lemma_no_prefix(k + t, "SUMMARY:"@, 0);
        lemma_no_prefix(k + t, "DTSTART:"@, 1);
        lemma_no_prefix(k + t, "DTEND:"@, 1);
        lemma_no_prefix(k + t, "LOCATION:"@, 0);
        lemma_one_line(ev, k + t);
    } else {
        assert(opt_line("DESCRIPTION:"@, v) =~= Seq::<Seq<char>>::empty());
    }
}

proof fn lemma_frame_lines()
    ensures
        forall|k: int| 0 <= k < ics_head().len() ==> line_ok(#[trigger] ics_head()[k]),
        forall|k: int| 0 <= k < ics_tail().len() ==> line_ok(#[trigger] ics_tail()[k]),
        forall|k: int, e2: EventView| 0 <= k < ics_head().len() ==> #[trigger] event_step(e2, ics_head()[k]) == e2,
        forall|k: int, e2: EventView| 0 <= k < ics_tail().len() ==> #[trigger] event_step(e2, ics_tail()[k]) == e2,
        ics_head()[3] == "BEGIN:VEVENT"@,
{
    reveal_strlit("BEGIN:VCALENDAR");
    reveal_strlit("VERSION:2.0");
    reveal_strlit("PRODID:-//QRSnap//EN");
    reveal_strlit("BEGIN:VEVENT");
    reveal_strlit("SUMMARY:");
    reveal_strlit("DTSTART:");
    reveal_strlit("DTEND:");
    reveal_strlit("LOCATION:");
    reveal_strlit("DESCRIPTION:");
    reveal_strlit("END:VEVENT");
    reveal_strlit("END:VCALENDAR");
    let head = ics_head();
    let tail = ics_tail();
    assert forall|k: int| 0 <= k < head.len() implies line_ok(#[trigger] head[k]) by {}
    assert forall|k: int| 0 <= k < tail.len() implies line_ok(#[trigger] tail[k]) by {}
    assert forall|k: int, e2: EventView| 0 <= k < head.len() implies #[trigger] event_step(e2, head[k]) == e2 by {
        let l = head[k];
        lemma_no_prefix(l, "SUMMARY:"@, 0);
        lemma_no_prefix(l, "DTSTART:"@, 0);
        lemma_no_prefix(l, "DTEND:"@, 0);
        lemma_no_prefix(l, "LOCATION:"@, 0);
        lemma_no_prefix(l, "DESCRIPTION:"@, 0);
    }
    assert forall|k: int, e2: EventView| 0 <= k < tail.len() implies #[trigger] event_step(e2, tail[k]) == e2 by {
        let l = tail[k];
        lemma_no_prefix(l, "SUMMARY:"@, 0);
        lemma_no_prefix(l, "DTSTART:"@, 0);
        lemma_no_prefix(l, "DTEND:"@, 0);
        lemma_no_prefix(l, "LOCATION:"@, 0);
        lemma_no_prefix(l, "DESCRIPTION:"@, 0);
    }
}

proof fn lemma_opt_lines_ok(key: Seq<char>, v: Option<Seq<char>>)
    requires
        key.len() > 0,
        !is_ws(key[0]),
        !is_ws(key.last()),
        forall|k: int| 0 <= k < key.len() ==> #[trigger] key[k] != '\n',
        v matches Some(t) ==> (forall|k: int| 0 <= k < t.len() ==> #[trigger] t[k] != '\n'),
        v matches Some(t) ==> (t.len() > 0 ==> !is_ws(t.last())),
    ensures
        forall|k: int| 0 <= k < opt_line(key, v).len() ==> line_ok(#[trigger] opt_line(key, v)[k]),
{
    if let Some(t) = v {
        lemma_key_line(key, t);
        assert(opt_line(key, v)[0] == key + t);
    }
}

proof fn lemma_value_lines_ok(e: EventView)
    requires
        event_writable(e),
    ensures
        forall|k: int| 0 <= k < opt_line("SUMMARY:"@, e.summary).len() ==> line_ok(#[trigger] opt_line("SUMMARY:"@, e.summary)[k]),
        forall|k: int| 0 <= k < opt_line("DTSTART:"@, e.dtstart).len() ==> line_ok(#[trigger] opt_line("DTSTART:"@, e.dtstart)[k]),
        forall|k: int| 0 <= k < opt_line("DTEND:"@, e.dtend).len() ==> line_ok(#[trigger] opt_line("DTEND:"@, e.dtend)[k]),
        forall|k: int| 0 <= k < opt_line("LOCATION:"@, e.location).len() ==> line_ok(#[trigger] opt_line("LOCATION:"@, e.location)[k]),
        forall|k: int| 0 <= k < opt_line("DESCRIPTION:"@, e.description).len() ==> line_ok(#[trigger] opt_line("DESCRIPTION:"@, e.description)[k]),
{
    reveal_strlit("SUMMARY:");
    reveal_strlit("DTSTART:");
    reveal_strlit("DTEND:");
    reveal_strlit("LOCATION:");
    reveal_strlit("DESCRIPTION:");
    if let Some(t) = e.summary {
        lemma_clean_no_lf(t);
    }
    if let Some(t) = e.location {
        lemma_clean_no_lf(t);
    }
    if let Some(t) = e.description {
        lemma_clean_no_lf(t);
    }
    if let Some(t) = e.dtstart {
        lemma_datetime_plain(t);
    }
    if let Some(t) = e.dtend {
        lemma_datetime_plain(t);
    }
    lemma_opt_lines_ok("SUMMARY:"@, e.summary);
    lemma_opt_lines_ok("DTSTART:"@, e.dtstart);
    lemma_opt_lines_ok("DTEND:"@, e.dtend);
    lemma_opt_lines_ok("LOCATION:"@, e.location);
    lemma_opt_lines_ok("DESCRIPTION:"@, e.description);
}

proof fn lemma_all_lines_ok(e: EventView)
    requires
        event_writable(e),
    ensures
        forall|k: int| 0 <= k < ics_lines(e).len() ==> line_ok(#[trigger] ics_lines(e)[k]),
{
    lemma_frame_lines();
    lemma_value_lines_ok(e);
    let lines = ics_lines(e);
    let head = ics_head();
    let tail = ics_tail();
    let o1 = opt_line("SUMMARY:"@, e.summary);
    let o2 = opt_line("DTSTART:"@, e.dtstart);
    let o3 = opt_line("DTEND:"@, e.dtend);
    let o4 = opt_line("LOCATION:"@, e.location);
    let o5 = opt_line("DESCRIPTION:"@, e.description);
    assert forall|k: int| 0 <= k < lines.len() implies line_ok(#[trigger] lines[k]) by {
        let n0 = head.len() as int;
        let n1 = n0 + o1.len();
        let n2 = n1 + o2.len();
        let n3 = n2 + o3.len();
        let n4 = n3 + o4.len();
        let n5 = n4 + o5.len();
        if k < n0 {
            assert(lines[k] == head[k]);
        } else if k < n1 {
            assert(lines[k] == o1[k - n0]);
        } else if k < n2 {
            assert(lines[k] == o2[k - n1]);
        } else if k < n3 {
            assert(lines[k] == o3[k - n2]);
        } else if k < n4 {
            assert(lines[k] == o4[k - n3]);
        } else if k < n5 {
            assert(lines[k] == o5[k - n4]);
        } else {
            assert(lines[k] == tail[k - n5]);
        }
    }
}

proof fn lemma_read_ics_lines(e: EventView)
    requires
        event_writable(e),
    ensures
        read_lines(empty_event(), ics_lines(e)) == e,
{
    lemma_frame_lines();
    let head = ics_head();
    let tail = ics_tail();
    let o1 = opt_line("SUMMARY:"@, e.summary);
    let o2 = opt_line("DTSTART:"@, e.dtstart);
    let o3 = opt_line("DTEND:"@, e.dtend);
    let o4 = opt_line("LOCATION:"@, e.location);
    let o5 = opt_line("DESCRIPTION:"@, e.description);
    let ev0 = empty_event();
    let ev1 = EventView { summary: e.summary, ..ev0 };
    let ev2 = EventView { dtstart: e.dtstart, ..ev1 };
    let ev3 = EventView { dtend: e.dtend, ..ev2 };
    let ev4 = EventView { location: e.location, ..ev3 };
    let ev5 = EventView { description: e.description, ..ev4 };
    assert(ev5 == e);
    assert(ics_lines(e) =~= head + (o1 + (o2 + (o3 + (o4 + (o5 + tail))))));
    lemma_read_lines_append(ev0, head, o1 + (o2 + (o3 + (o4 + (o5 + tail)))));
    lemma_read_inert(ev0, head);
    lemma_read_lines_append(ev0, o1, o2 + (o3 + (o4 + (o5 + tail))));
    lemma_summary_line(ev0, e.summary);
    lemma_read_lines_append(ev1, o2, o3 + (o4 + (o5 + tail)));
    lemma_dtstart_line(ev1, e.dtstart);
    lemma_read_lines_append(ev2, o3, o4 + (o5 + tail));
    lemma_dtend_line(ev2, e.dtend);
    lemma_read_lines_append(ev3, o4, o5 + tail);
    lemma_location_line(ev3, e.location);
    lemma_read_lines_append(ev4, o5, tail);
    lemma_description_line(ev4, e.description);
    lemma_read_inert(ev5, tail);
}

/// Reading an event back from its own `.ics` file gives the event again,
/// for every event whose text properties are clean, within their limits and
/// free of trailing white space, and whose times are stored date-times.
pub proof fn law_ics_round_trip(e: EventView)
    requires
        event_writable(e),
    ensures
        vevent_view(ics_text(e)) == Some(e),
{
    reveal_strlit("\r\n");
    assert("\r\n"@ =~= seq!['\r', '\n']);
    let lines = ics_lines(e);
    let text = ics_text(e);
    lemma_all_lines_ok(e);
    lemma_read_ics_lines(e);
    assert(text.skip(0) =~= text);
    lemma_read_join(text, 0, empty_event(), lines);
    lemma_frame_lines();
    assert(lines[3] == ics_head()[3]);
    lemma_line_in_join(lines, "\r\n"@, 3);
}

} // verus!
