//! Character-sequence helpers shared by the parsers: searching, prefixes,
//! trimming and UTF-8 byte lengths.
use vstd::prelude::*;
use vstd::utf8::*;

verus! {

broadcast use {vstd::utf8::char_is_scalar, vstd::string::group_string_axioms};

/// The characters of a string slice.
pub fn chars_of(s: &str) -> (v: Vec<char>)
    ensures
        v@ == s@,
{
    let mut v: Vec<char> = Vec::new();
    for c in it: s.chars()
        invariant
            it.seq() == s@,
            v@ == it.seq().take(it.index() as int),
    {
        v.push(c);
    }
    v
}

/// `String`'s `FromIterator<char>`: collects characters into a string.
/// Trusted: the string holds exactly the given characters, in order.
#[verifier::external_body]
pub(crate) fn string_of(chars: &[char]) -> (s: String)
    ensures
        s@ == chars@,
{
    chars.iter().collect()
}

/// Index of the first `c` in `s` at or after `i`, or `s.len()` when there is none.
pub open spec fn pos_from(s: Seq<char>, c: char, i: int) -> int
    decreases s.len() - i,
{
    if i < 0 || i >= s.len() {
        s.len() as int
    } else if s[i] == c {
        i
    } else {
        pos_from(s, c, i + 1)
    }
}

pub proof fn lemma_pos_from(s: Seq<char>, c: char, i: int)
    requires
        0 <= i <= s.len(),
    ensures
        i <= pos_from(s, c, i) <= s.len(),
        pos_from(s, c, i) < s.len() ==> s[pos_from(s, c, i)] == c,
        forall|j: int| i <= j < pos_from(s, c, i) ==> s[j] != c,
    decreases s.len() - i,
{
    if i < s.len() && s[i] != c {
        lemma_pos_from(s, c, i + 1);
    }
}

/// `p` is a prefix of `s`.
pub open spec fn has_prefix(s: Seq<char>, p: Seq<char>) -> bool {
    p.len() <= s.len() && s.subrange(0, p.len() as int) == p
}

/// `c` occurs in `s`.
pub open spec fn has_char(s: Seq<char>, c: char) -> bool {
    exists|i: int| 0 <= i < s.len() && s[i] == c
}

/// The part of `s` before its first `c` (all of `s` when there is no `c`).
pub open spec fn before_char(s: Seq<char>, c: char) -> Seq<char> {
    s.take(pos_from(s, c, 0))
}

/// Number of bytes in the UTF-8 encoding of `c`.
pub open spec fn char_width(c: char) -> nat {
    if (c as u32) <= 0x7f {
        1
    } else if (c as u32) <= 0x7ff {
        2
    } else if (c as u32) <= 0xffff {
        3
    } else {
        4
    }
}

/// Number of bytes in the UTF-8 encoding of `s`.
pub open spec fn utf8_len(s: Seq<char>) -> nat {
    encode_utf8(s).len()
}

pub proof fn lemma_scalar_width(c: char)
    ensures
        encode_scalar(c as u32).len() == char_width(c),
{
    assert(is_scalar(c as u32));
}

pub proof fn lemma_utf8_len_push(s: Seq<char>, c: char)
    ensures
        utf8_len(s.push(c)) == utf8_len(s) + char_width(c),
    decreases s.len(),
{
    lemma_scalar_width(c);
    if s.len() == 0 {
        assert(s.push(c).drop_first() =~= Seq::<char>::empty());
        assert(encode_utf8(Seq::<char>::empty()) =~= Seq::<u8>::empty());
    } else {
        assert(s.push(c).drop_first() =~= s.drop_first().push(c));
        lemma_utf8_len_push(s.drop_first(), c);
    }
}

pub proof fn lemma_utf8_len_empty()
    ensures
        utf8_len(Seq::<char>::empty()) == 0,
{
    assert(encode_utf8(Seq::<char>::empty()) =~= Seq::<u8>::empty());
}

/// Number of UTF-8 bytes of one character.
pub fn width_of(c: char) -> (w: usize)
    ensures
        w == char_width(c),
{
    let u = c as u32;
    if u <= 0x7f {
        1
    } else if u <= 0x7ff {
        2
    } else if u <= 0xffff {
        3
    } else {
        4
    }
}

/// Whether the UTF-8 encoding of `s` is longer than `cap` bytes.
pub fn utf8_len_exceeds(s: &Vec<char>, cap: usize) -> (r: bool)
    ensures
        r == (utf8_len(s@) > cap),
{
    let mut total: usize = 0;
    let mut i: usize = 0;
    proof {
        lemma_utf8_len_empty();
        assert(s@.take(0) =~= Seq::<char>::empty());
    }
    while i < s.len()
        invariant
            i <= s.len(),
            total == utf8_len(s@.take(i as int)),
            total <= cap,
        decreases s.len() - i,
    {
        let w = width_of(s[i]);
        proof {
            assert(s@.take(i as int + 1) =~= s@.take(i as int).push(s@[i as int]));
            lemma_utf8_len_push(s@.take(i as int), s@[i as int]);
        }
        if w > cap - total {
            proof {
                lemma_utf8_len_prefix(s@, i as int + 1);
            }
            return true;
        }
        total = total + w;
        i = i + 1;
    }
    proof {
        assert(s@.take(i as int) =~= s@);
    }
    false
}

/// UTF-8 length grows with the prefix taken.
pub proof fn lemma_utf8_len_prefix(s: Seq<char>, k: int)
    requires
        0 <= k <= s.len(),
    ensures
        utf8_len(s.take(k)) <= utf8_len(s),
    decreases s.len() - k,
{
    if k < s.len() {
        lemma_utf8_len_prefix(s, k + 1);
        assert(s.take(k + 1) =~= s.take(k).push(s[k]));
        lemma_utf8_len_push(s.take(k), s[k]);
    } else {
        assert(s.take(k) =~= s);
    }
}

/// Whether `s` starts with `p`.
pub fn starts_with(s: &Vec<char>, p: &Vec<char>) -> (r: bool)
    ensures
        r == has_prefix(s@, p@),
{
    if p.len() > s.len() {
        return false;
    }
    let mut i: usize = 0;
    while i < p.len()
        invariant
            p.len() <= s.len(),
            i <= p.len(),
            forall|j: int| 0 <= j < i ==> s@[j] == p@[j],
        decreases p.len() - i,
    {
        if s[i] != p[i] {
            assert(s@.subrange(0, p.len() as int)[i as int] != p@[i as int]);
            return false;
        }
        i = i + 1;
    }
    assert(s@.subrange(0, p.len() as int) =~= p@);
    true
}

/// Index of the first `c` in `s` at or after `from`, or `s.len()`.
pub fn find_char(s: &Vec<char>, c: char, from: usize) -> (r: usize)
    requires
        from <= s.len(),
    ensures
        r == pos_from(s@, c, from as int),
        from <= r <= s.len(),
        r < s.len() ==> s@[r as int] == c,
        forall|j: int| from <= j < r ==> s@[j] != c,
{
    let mut i = from;
    while i < s.len()
        invariant
            from <= i <= s.len(),
            pos_from(s@, c, from as int) == pos_from(s@, c, i as int),
            forall|j: int| from <= j < i ==> s@[j] != c,
        decreases s.len() - i,
    {
        if s[i] == c {
            return i;
        }
        i = i + 1;
    }
    i
}

/// Copy of `s[lo..hi]`.
pub fn sub_chars(s: &Vec<char>, lo: usize, hi: usize) -> (r: Vec<char>)
    requires
        lo <= hi <= s.len(),
    ensures
        r@ == s@.subrange(lo as int, hi as int),
{
    let mut r: Vec<char> = Vec::new();
    let mut i = lo;
    while i < hi
        invariant
            lo <= i <= hi <= s.len(),
            r@ == s@.subrange(lo as int, i as int),
        decreases hi - i,
    {
        r.push(s[i]);
        i = i + 1;
        assert(r@ =~= s@.subrange(lo as int, i as int));
    }
    r
}

/// Whether `c` occurs in `s`.
pub fn contains_char(s: &Vec<char>, c: char) -> (r: bool)
    ensures
        r == has_char(s@, c),
{
    let k = find_char(s, c, 0);
    k < s.len()
}

/// `s` without the prefix `p` when it has it, else `d`.
pub open spec fn after_prefix_or(s: Seq<char>, p: Seq<char>, d: Seq<char>) -> Seq<char> {
    if has_prefix(s, p) {
        s.skip(p.len() as int)
    } else {
        d
    }
}

/// The rest of `s` after the prefix `p`, if `s` has it.
pub fn prefix_rest(s: &Vec<char>, p: &str) -> (r: Option<Vec<char>>)
    ensures
        r.is_some() == has_prefix(s@, p@),
        r matches Some(v) ==> v@ == s@.skip(p@.len() as int),
{
    let pv = chars_of(p);
    if starts_with(s, &pv) {
        Some(sub_chars(s, pv.len(), s.len()))
    } else {
        None
    }
}

/// The characters of `s` before its first `c`.
pub fn chars_before(s: &Vec<char>, c: char) -> (r: Vec<char>)
    ensures
        r@ == before_char(s@, c),
{
    let k = find_char(s, c, 0);
    sub_chars(s, 0, k)
}

/// Number of `c` in `s` from index `i` on.
pub open spec fn count_from(s: Seq<char>, c: char, i: int) -> nat
    decreases s.len() - i,
{
    if i < 0 || i >= s.len() {
        0
    } else {
        (if s[i] == c { 1nat } else { 0nat }) + count_from(s, c, i + 1)
    }
}

/// Number of `c` in `s`.
pub fn count_char(s: &Vec<char>, c: char) -> (r: usize)
    ensures
        r == count_from(s@, c, 0),
{
    let mut n: usize = 0;
    let mut i = s.len();
    while i > 0
        invariant
            i <= s.len(),
            n <= s.len() - i,
            n == count_from(s@, c, i as int),
        decreases i,
    {
        i = i - 1;
        if s[i] == c {
            n = n + 1;
        }
    }
    n
}

/// `c` is an ASCII decimal digit.
pub open spec fn is_digit(c: char) -> bool {
    '0' <= c <= '9'
}

/// Number of ASCII digits in `s` from index `i` on.
pub open spec fn digits_from(s: Seq<char>, i: int) -> nat
    decreases s.len() - i,
{
    if i < 0 || i >= s.len() {
        0
    } else {
        (if is_digit(s[i]) { 1nat } else { 0nat }) + digits_from(s, i + 1)
    }
}

/// Number of ASCII digits in `s`.
pub fn count_digits(s: &Vec<char>) -> (r: usize)
    ensures
        r == digits_from(s@, 0),
{
    let mut n: usize = 0;
    let mut i = s.len();
    while i > 0
        invariant
            i <= s.len(),
            n <= s.len() - i,
            n == digits_from(s@, i as int),
        decreases i,
    {
        i = i - 1;
        if '0' <= s[i] && s[i] <= '9' {
            n = n + 1;
        }
    }
    n
}

/// No `c` from `i` on means a count of zero.
pub proof fn lemma_count_zero(s: Seq<char>, c: char, i: int)
    requires
        0 <= i <= s.len(),
        forall|j: int| i <= j < s.len() ==> s[j] != c,
    ensures
        count_from(s, c, i) == 0,
    decreases s.len() - i,
{
    if i < s.len() {
        lemma_count_zero(s, c, i + 1);
    }
}

/// Unicode `White_Space` (what `char::is_whitespace` tests).
pub open spec fn is_ws(c: char) -> bool {
    ||| ('\u{9}' <= c <= '\u{d}')
    ||| c == ' '
    ||| c == '\u{85}'
    ||| c == '\u{a0}'
    ||| c == '\u{1680}'
    ||| ('\u{2000}' <= c <= '\u{200a}')
    ||| c == '\u{2028}'
    ||| c == '\u{2029}'
    ||| c == '\u{202f}'
    ||| c == '\u{205f}'
    ||| c == '\u{3000}'
}

/// Whether `c` is Unicode white space.
pub fn is_whitespace(c: char) -> (r: bool)
    ensures
        r == is_ws(c),
{
    ('\u{9}' <= c && c <= '\u{d}') || c == ' ' || c == '\u{85}' || c == '\u{a0}' || c == '\u{1680}'
        || ('\u{2000}' <= c && c <= '\u{200a}') || c == '\u{2028}' || c == '\u{2029}' || c == '\u{202f}'
        || c == '\u{205f}' || c == '\u{3000}'
}

/// First index at or after `i` that holds no white space (or `t.len()`).
pub open spec fn trim_start(t: Seq<char>, i: int) -> int
    decreases t.len() - i,
{
    if i < 0 || i >= t.len() {
        t.len() as int
    } else if is_ws(t[i]) {
        trim_start(t, i + 1)
    } else {
        i
    }
}

/// End of `t[lo..j]` once trailing white space is dropped.
pub open spec fn trim_end(t: Seq<char>, lo: int, j: int) -> int
    decreases j - lo,
{
    if j <= lo {
        lo
    } else if is_ws(t[j - 1]) {
        trim_end(t, lo, j - 1)
    } else {
        j
    }
}

/// `t` without leading and trailing white space (what `str::trim` gives).
pub open spec fn trim(t: Seq<char>) -> Seq<char> {
    let a = trim_start(t, 0);
    t.subrange(a, trim_end(t, a, t.len() as int))
}

pub proof fn lemma_trim_start(t: Seq<char>, i: int)
    requires
        0 <= i <= t.len(),
    ensures
        i <= trim_start(t, i) <= t.len(),
    decreases t.len() - i,
{
    if i < t.len() && is_ws(t[i]) {
        lemma_trim_start(t, i + 1);
    }
}

pub proof fn lemma_trim_end(t: Seq<char>, lo: int, j: int)
    requires
        0 <= lo <= j <= t.len(),
    ensures
        lo <= trim_end(t, lo, j) <= j,
    decreases j - lo,
{
    if j > lo && is_ws(t[j - 1]) {
        lemma_trim_end(t, lo, j - 1);
    }
}

/// `t` without leading and trailing white space.
pub fn trim_chars(t: &Vec<char>) -> (r: Vec<char>)
    ensures
        r@ == trim(t@),
{
    let mut a: usize = 0;
    while a < t.len() && is_whitespace(t[a])
        invariant
            a <= t.len(),
            trim_start(t@, 0) == trim_start(t@, a as int),
        decreases t.len() - a,
    {
        a = a + 1;
    }
    let mut b: usize = t.len();
    while b > a && is_whitespace(t[b - 1])
        invariant
            a <= b <= t.len(),
            trim_start(t@, 0) == a,
            trim_end(t@, a as int, t.len() as int) == trim_end(t@, a as int, b as int),
        decreases b - a,
    {
        b = b - 1;
    }
    sub_chars(t, a, b)
}

/// `p` occurs in `s` at index `i`.
pub open spec fn occurs_at(s: Seq<char>, p: Seq<char>, i: int) -> bool {
    0 <= i && i + p.len() <= s.len() && s.subrange(i, i + p.len()) == p
}

/// `p` occurs somewhere in `s`.
pub open spec fn has_seq(s: Seq<char>, p: Seq<char>) -> bool {
    exists|i: int| occurs_at(s, p, i)
}

/// Whether `p` occurs in `s` at index `i`.
pub fn matches_at(s: &Vec<char>, p: &Vec<char>, i: usize) -> (r: bool)
    requires
        i <= s.len(),
    ensures
        r == occurs_at(s@, p@, i as int),
{
    if p.len() > s.len() - i {
        return false;
    }
    let mut k: usize = 0;
    while k < p.len()
        invariant
            i + p.len() <= s.len(),
            k <= p.len(),
            forall|j: int| 0 <= j < k ==> s@[i + j] == p@[j],
        decreases p.len() - k,
    {
        if s[i + k] != p[k] {
            assert(s@.subrange(i as int, i + p.len())[k as int] != p@[k as int]);
            return false;
        }
        k = k + 1;
    }
    assert(s@.subrange(i as int, i + p.len()) =~= p@);
    true
}

/// Whether `p` occurs somewhere in `s`.
pub fn contains_seq(s: &Vec<char>, p: &Vec<char>) -> (r: bool)
    ensures
        r == has_seq(s@, p@),
{
    let mut i: usize = 0;
    loop
        invariant
            i <= s.len(),
            forall|j: int| 0 <= j < i ==> !occurs_at(s@, p@, j),
        decreases s.len() - i,
    {
        if matches_at(s, p, i) {
            return true;
        }
        if i == s.len() {
            assert forall|j: int| !occurs_at(s@, p@, j) by {
                if occurs_at(s@, p@, j) {
                    assert(0 <= j <= i);
                }
            }
            return false;
        }
        i = i + 1;
    }
}

/// Model of a text-or-error result.
pub open spec fn outcome_view(r: Result<String, String>) -> Result<Seq<char>, Seq<char>> {
    match r {
        Ok(s) => Ok(s@),
        Err(e) => Err(e@),
    }
}

pub proof fn lemma_pos_from_at(s: Seq<char>, c: char, i: int, m: int)
    requires
        0 <= i <= m < s.len(),
        forall|j: int| i <= j < m ==> s[j] != c,
        s[m] == c,
    ensures
        pos_from(s, c, i) == m,
    decreases m - i,
{
    if i < m {
        lemma_pos_from_at(s, c, i + 1, m);
    }
}

/// With no `c` from `i` on, the search ends at the length.
pub proof fn lemma_pos_from_none(s: Seq<char>, c: char, i: int)
    requires
        0 <= i <= s.len(),
        forall|j: int| i <= j < s.len() ==> s[j] != c,
    ensures
        pos_from(s, c, i) == s.len(),
    decreases s.len() - i,
{
    if i < s.len() {
        lemma_pos_from_none(s, c, i + 1);
    }
}

} // verus!
