//! Character-level text model shared by the parsers: whitespace, trimming,
//! line and word splitting, substring search, and decimal/hex numbers, each
//! given as a spec over `Seq<char>` with an executable counterpart.
use vstd::prelude::*;

verus! {

// ---------------------------------------------------------------- specs

/// Unicode `White_Space`, as `char::is_whitespace` uses it.
pub open spec fn is_ws(c: char) -> bool {
    let u = c as u32;
    ||| 9 <= u <= 13
    ||| u == 32
    ||| u == 0x85
    ||| u == 0xA0
    ||| u == 0x1680
    ||| 0x2000 <= u <= 0x200A
    ||| u == 0x2028
    ||| u == 0x2029
    ||| u == 0x202F
    ||| u == 0x205F
    ||| u == 0x3000
}

pub open spec fn is_digit(c: char) -> bool {
    '0' <= c <= '9'
}

pub open spec fn digit_val(c: char) -> int {
    (c as u32) - ('0' as u32)
}

pub open spec fn is_ascii_upper(c: char) -> bool {
    'A' <= c <= 'Z'
}

pub open spec fn is_ascii_lower(c: char) -> bool {
    'a' <= c <= 'z'
}

pub open spec fn is_ascii_alnum(c: char) -> bool {
    is_digit(c) || is_ascii_upper(c) || is_ascii_lower(c)
}

/// `char::to_ascii_lowercase`.
pub open spec fn lower(c: char) -> char {
    if is_ascii_upper(c) {
        ((c as u32) + 32) as char
    } else {
        c
    }
}

pub open spec fn lower_seq(s: Seq<char>) -> Seq<char> {
    s.map_values(|c: char| lower(c))
}

/// `str::eq_ignore_ascii_case`.
pub open spec fn eq_ignore_case(a: Seq<char>, b: Seq<char>) -> bool {
    lower_seq(a) == lower_seq(b)
}

/// Number of leading whitespace characters.
pub open spec fn lead_ws(s: Seq<char>) -> nat
    decreases s.len(),
{
    if s.len() > 0 && is_ws(s[0]) {
        1 + lead_ws(s.drop_first())
    } else {
        0
    }
}

/// Number of trailing whitespace characters.
pub open spec fn trail_ws(s: Seq<char>) -> nat
    decreases s.len(),
{
    if s.len() > 0 && is_ws(s.last()) {
        1 + trail_ws(s.drop_last())
    } else {
        0
    }
}

pub open spec fn trim_start(s: Seq<char>) -> Seq<char> {
    s.skip(lead_ws(s) as int)
}

pub open spec fn trim_end(s: Seq<char>) -> Seq<char> {
    s.take(s.len() - trail_ws(s))
}

/// `str::trim`.
pub open spec fn trim(s: Seq<char>) -> Seq<char> {
    trim_end(trim_start(s))
}

pub open spec fn match_at(s: Seq<char>, p: Seq<char>, i: int) -> bool {
    0 <= i && i + p.len() <= s.len() && s.subrange(i, i + p.len()) == p
}

/// First position at or after `i` where `p` occurs.
pub open spec fn find_from(s: Seq<char>, p: Seq<char>, i: nat) -> Option<int>
    decreases s.len() - i,
{
    if i + p.len() > s.len() {
        None
    } else if match_at(s, p, i as int) {
        Some(i as int)
    } else {
        proof {
            if p.len() == 0 {
                assert(s.subrange(i as int, i as int) =~= p);
            }
        }
        find_from(s, p, i + 1)
    }
}

/// `str::find` with a string pattern.
pub open spec fn find(s: Seq<char>, p: Seq<char>) -> Option<int> {
    find_from(s, p, 0)
}

/// Last position at or before `i` where `p` occurs.
pub open spec fn rfind_from(s: Seq<char>, p: Seq<char>, i: int) -> Option<int>
    decreases i + 1,
{
    if i < 0 {
        None
    } else if match_at(s, p, i) {
        Some(i)
    } else {
        rfind_from(s, p, i - 1)
    }
}

/// `str::rfind` with a string pattern.
pub open spec fn rfind(s: Seq<char>, p: Seq<char>) -> Option<int> {
    rfind_from(s, p, s.len() - p.len())
}

pub open spec fn contains(s: Seq<char>, p: Seq<char>) -> bool {
    find(s, p) is Some
}

pub open spec fn starts_with(s: Seq<char>, p: Seq<char>) -> bool {
    p.len() <= s.len() && s.take(p.len() as int) == p
}

pub open spec fn ends_with(s: Seq<char>, p: Seq<char>) -> bool {
    p.len() <= s.len() && s.skip(s.len() - p.len()) == p
}

/// Length of the first line: up to the first `'\n'`, or everything.
pub open spec fn line_len(s: Seq<char>) -> nat
    decreases s.len(),
{
    if s.len() == 0 || s[0] == '\n' {
        0
    } else {
        1 + line_len(s.drop_first())
    }
}

pub open spec fn strip_cr(t: Seq<char>) -> Seq<char> {
    if t.len() > 0 && t.last() == '\r' {
        t.drop_last()
    } else {
        t
    }
}

/// `str::lines`: split at `"\n"` or `"\r\n"`; the final terminator is
/// optional and a lone trailing `'\r'` stays in the last line.
pub open spec fn lines(s: Seq<char>) -> Seq<Seq<char>>
    decreases s.len(),
{
    if s.len() == 0 {
        seq![]
    } else {
        let k = line_len(s);
        proof {
            lemma_line_len_bound(s);
        }
        if k == s.len() {
            seq![s]
        } else {
            seq![strip_cr(s.take(k as int))] + lines(s.skip(k + 1 as int))
        }
    }
}

/// Length of the leading run of non-whitespace characters.
pub open spec fn word_len(s: Seq<char>) -> nat
    decreases s.len(),
{
    if s.len() == 0 || is_ws(s[0]) {
        0
    } else {
        1 + word_len(s.drop_first())
    }
}

/// `str::split_whitespace`.
pub open spec fn words(s: Seq<char>) -> Seq<Seq<char>>
    decreases s.len(),
{
    if s.len() == 0 {
        seq![]
    } else if is_ws(s[0]) {
        words(s.drop_first())
    } else {
        let k = word_len(s);
        proof {
            lemma_word_len_bound(s);
        }
        seq![s.take(k as int)] + words(s.skip(k as int))
    }
}

/// `str::split_once` with a string pattern.
pub open spec fn split_once(s: Seq<char>, p: Seq<char>) -> Option<(Seq<char>, Seq<char>)> {
    match find(s, p) {
        Some(i) => Some((s.take(i), s.skip(i + p.len()))),
        None => None,
    }
}

/// `str::rsplit_once` with a string pattern.
pub open spec fn rsplit_once(s: Seq<char>, p: Seq<char>) -> Option<(Seq<char>, Seq<char>)> {
    match rfind(s, p) {
        Some(i) => Some((s.take(i), s.skip(i + p.len()))),
        None => None,
    }
}

/// Value of a run of decimal digits.
pub open spec fn digits_val(s: Seq<char>) -> nat
    decreases s.len(),
{
    if s.len() == 0 {
        0
    } else {
        (digits_val(s.drop_last()) * 10 + digit_val(s.last())) as nat
    }
}

pub open spec fn all_digits(s: Seq<char>) -> bool {
    forall|i: int| 0 <= i < s.len() ==> is_digit(#[trigger] s[i])
}

/// The digits after an optional leading `'+'`.
pub open spec fn unsigned_body(s: Seq<char>) -> Seq<char> {
    if s.len() > 0 && s[0] == '+' {
        s.drop_first()
    } else {
        s
    }
}

/// `str::parse` for an unsigned integer type whose largest value is `max`.
pub open spec fn parse_uint(s: Seq<char>, max: nat) -> Option<nat> {
    let d = unsigned_body(s);
    if d.len() > 0 && all_digits(d) && digits_val(d) <= max {
        Some(digits_val(d))
    } else {
        None
    }
}

pub open spec fn is_hex_digit(c: char) -> bool {
    is_digit(c) || ('a' <= c <= 'f') || ('A' <= c <= 'F')
}

pub open spec fn hex_val(c: char) -> int {
    if is_digit(c) {
        digit_val(c)
    } else if 'a' <= c <= 'f' {
        (c as u32) - ('a' as u32) + 10
    } else {
        (c as u32) - ('A' as u32) + 10
    }
}

pub open spec fn hex_digits_val(s: Seq<char>) -> nat
    decreases s.len(),
{
    if s.len() == 0 {
        0
    } else {
        (hex_digits_val(s.drop_last()) * 16 + hex_val(s.last())) as nat
    }
}

/// `u32::from_str_radix(s, 16)`.
pub open spec fn parse_hex_u32(s: Seq<char>) -> Option<nat> {
    let d = unsigned_body(s);
    if d.len() > 0 && (forall|i: int| 0 <= i < d.len() ==> is_hex_digit(#[trigger] d[i]))
        && hex_digits_val(d) <= u32::MAX {
        Some(hex_digits_val(d))
    } else {
        None
    }
}

pub open spec fn digit_char(d: nat) -> char {
    (('0' as u32) + d) as char
}

/// Decimal rendering of `n` (what `to_string` prints for an unsigned value).
pub open spec fn dec(n: nat) -> Seq<char>
    decreases n,
{
    if n < 10 {
        seq![digit_char(n)]
    } else {
        dec(n / 10).push(digit_char(n % 10))
    }
}

/// Decimal rendering of a signed value.
pub open spec fn dec_int(n: int) -> Seq<char> {
    if n < 0 {
        seq!['-'] + dec((-n) as nat)
    } else {
        dec(n as nat)
    }
}

pub open spec fn hex_char_lower(d: nat) -> char {
    if d < 10 {
        digit_char(d)
    } else {
        (('a' as u32) + (d - 10)) as char
    }
}

pub open spec fn hex_char_upper(d: nat) -> char {
    if d < 10 {
        digit_char(d)
    } else {
        (('A' as u32) + (d - 10)) as char
    }
}

/// Lower-case hex digits of `n`, no prefix.
pub open spec fn hex_lower(n: nat) -> Seq<char>
    decreases n,
{
    if n < 16 {
        seq![hex_char_lower(n)]
    } else {
        hex_lower(n / 16).push(hex_char_lower(n % 16))
    }
}

/// `s` left-padded with `'0'` to at least `width` characters.
pub open spec fn zero_pad(s: Seq<char>, width: nat) -> Seq<char> {
    if s.len() >= width {
        s
    } else {
        Seq::new((width - s.len()) as nat, |i: int| '0') + s
    }
}

/// `s1 + sep + s2 + ...`.
pub open spec fn join(parts: Seq<Seq<char>>, sep: Seq<char>) -> Seq<char>
    decreases parts.len(),
{
    if parts.len() == 0 {
        seq![]
    } else if parts.len() == 1 {
        parts[0]
    } else {
        join(parts.drop_last(), sep) + sep + parts.last()
    }
}

/// Bytes `c` takes in UTF-8.
pub open spec fn char_utf8_len(c: char) -> nat {
    let u = c as u32;
    if u < 0x80 {
        1
    } else if u < 0x800 {
        2
    } else if u < 0x10000 {
        3
    } else {
        4
    }
}

/// Bytes `s` takes in UTF-8 (what `str::len` reports).
pub open spec fn utf8_len(s: Seq<char>) -> nat
    decreases s.len(),
{
    if s.len() == 0 {
        0
    } else {
        utf8_len(s.drop_last()) + char_utf8_len(s.last())
    }
}

/// Number of leading characters of `s` that fit in `n` UTF-8 bytes.
pub open spec fn prefix_within(s: Seq<char>, n: nat) -> nat
    decreases s.len(),
{
    if s.len() > 0 && char_utf8_len(s[0]) <= n {
        1 + prefix_within(s.drop_first(), (n - char_utf8_len(s[0])) as nat)
    } else {
        0
    }
}

/// The characters of each vector.
pub open spec fn views(s: Seq<Vec<char>>) -> Seq<Seq<char>> {
    s.map_values(|v: Vec<char>| v@)
}

// ---------------------------------------------------------------- lemmas

pub proof fn lemma_line_len_bound(s: Seq<char>)
    ensures
        line_len(s) <= s.len(),
    decreases s.len(),
{
    if s.len() > 0 && s[0] != '\n' {
        lemma_line_len_bound(s.drop_first());
    }
}

pub proof fn lemma_word_len_bound(s: Seq<char>)
    ensures
        word_len(s) <= s.len(),
        s.len() > 0 && !is_ws(s[0]) ==> word_len(s) > 0,
    decreases s.len(),
{
    if s.len() > 0 && !is_ws(s[0]) {
        lemma_word_len_bound(s.drop_first());
    }
}

pub proof fn lemma_lead_ws_bound(s: Seq<char>)
    ensures
        lead_ws(s) <= s.len(),
        forall|j: int| 0 <= j < lead_ws(s) ==> is_ws(#[trigger] s[j]),
        lead_ws(s) < s.len() ==> !is_ws(s[lead_ws(s) as int]),
    decreases s.len(),
{
    if s.len() > 0 && is_ws(s[0]) {
        lemma_lead_ws_bound(s.drop_first());
        assert forall|j: int| 0 <= j < lead_ws(s) implies is_ws(#[trigger] s[j]) by {
            if j > 0 {
                assert(s[j] == s.drop_first()[j - 1]);
            }
        }
    }
}

pub proof fn lemma_trail_ws_bound(s: Seq<char>)
    ensures
        trail_ws(s) <= s.len(),
        trail_ws(s) < s.len() ==> !is_ws(s[s.len() - trail_ws(s) - 1]),
        forall|j: int| s.len() - trail_ws(s) <= j < s.len() ==> is_ws(#[trigger] s[j]),
    decreases s.len(),
{
    if s.len() > 0 && is_ws(s.last()) {
        lemma_trail_ws_bound(s.drop_last());
        assert forall|j: int| s.len() - trail_ws(s) <= j < s.len() implies is_ws(#[trigger] s[j]) by {
            if j < s.len() - 1 {
                assert(s[j] == s.drop_last()[j]);
            }
        }
    }
}

/// `lead_ws` as "first index that is not whitespace".
pub proof fn lemma_lead_ws_char(s: Seq<char>, i: int)
    requires
        0 <= i <= s.len(),
        forall|j: int| 0 <= j < i ==> is_ws(#[trigger] s[j]),
        i == s.len() || !is_ws(s[i]),
    ensures
        lead_ws(s) == i,
    decreases s.len(),
{
    if i > 0 {
        let t = s.drop_first();
        assert forall|j: int| 0 <= j < i - 1 implies is_ws(#[trigger] t[j]) by {
            assert(t[j] == s[j + 1]);
        }
        if i - 1 < t.len() {
            assert(t[i - 1] == s[i]);
        }
        lemma_lead_ws_char(t, i - 1);
    }
}

/// `trail_ws` as "the run of whitespace before index `s.len()`".
pub proof fn lemma_trail_ws_char(s: Seq<char>, k: int)
    requires
        0 <= k <= s.len(),
        forall|j: int| s.len() - k <= j < s.len() ==> is_ws(#[trigger] s[j]),
        k == s.len() || !is_ws(s[s.len() - k - 1]),
    ensures
        trail_ws(s) == k,
    decreases s.len(),
{
    if k > 0 {
        let t = s.drop_last();
        assert forall|j: int| t.len() - (k - 1) <= j < t.len() implies is_ws(#[trigger] t[j]) by {
            assert(t[j] == s[j]);
        }
        if k - 1 < t.len() {
            assert(t[t.len() - (k - 1) - 1] == s[s.len() - k - 1]);
        }
        lemma_trail_ws_char(t, k - 1);
    }
}

/// The first line as "index of the first newline".
pub proof fn lemma_line_len_char(s: Seq<char>, k: int)
    requires
        0 <= k <= s.len(),
        forall|j: int| 0 <= j < k ==> #[trigger] s[j] != '\n',
        k == s.len() || s[k] == '\n',
    ensures
        line_len(s) == k,
    decreases s.len(),
{
    if k > 0 {
        let t = s.drop_first();
        assert forall|j: int| 0 <= j < k - 1 implies #[trigger] t[j] != '\n' by {
            assert(t[j] == s[j + 1]);
        }
        if k - 1 < t.len() {
            assert(t[k - 1] == s[k]);
        }
        lemma_line_len_char(t, k - 1);
    }
}

pub proof fn lemma_word_len_char(s: Seq<char>, k: int)
    requires
        0 <= k <= s.len(),
        forall|j: int| 0 <= j < k ==> !is_ws(#[trigger] s[j]),
        k == s.len() || is_ws(s[k]),
    ensures
        word_len(s) == k,
    decreases s.len(),
{
    if k > 0 {
        let t = s.drop_first();
        assert forall|j: int| 0 <= j < k - 1 implies !is_ws(#[trigger] t[j]) by {
            assert(t[j] == s[j + 1]);
        }
        if k - 1 < t.len() {
            assert(t[k - 1] == s[k]);
        }
        lemma_word_len_char(t, k - 1);
    }
}

/// `find_from` as "the least matching index at or after `i`".
pub proof fn lemma_find_from_char(s: Seq<char>, p: Seq<char>, i: nat, r: Option<int>)
    requires
        i <= s.len() + 1,
        forall|j: int| i <= j && (r is None || j < r->0) ==> !match_at(s, p, j),
        r is Some ==> i <= r->0 && match_at(s, p, r->0),
    ensures
        find_from(s, p, i) == r,
    decreases s.len() - i,
{
    if i + p.len() > s.len() {
        if r is Some {
            assert(match_at(s, p, r->0));
        }
    } else if match_at(s, p, i as int) {
    } else {
        if p.len() == 0 {
            assert(s.subrange(i as int, i as int) =~= p);
        }
        lemma_find_from_char(s, p, i + 1, r);
    }
}

/// `rfind_from` as "the greatest matching index at or before `i`".
pub proof fn lemma_rfind_from_char(s: Seq<char>, p: Seq<char>, i: int, r: Option<int>)
    requires
        forall|j: int| j <= i && (r is None || j > r->0) ==> !match_at(s, p, j),
        r is Some ==> r->0 <= i && match_at(s, p, r->0),
    ensures
        rfind_from(s, p, i) == r,
    decreases i + 1,
{
    if i < 0 {
        if r is Some {
            assert(match_at(s, p, r->0));
        }
    } else if match_at(s, p, i) {
    } else {
        lemma_rfind_from_char(s, p, i - 1, r);
    }
}

pub proof fn lemma_dec_len(n: nat)
    ensures
        dec(n).len() >= 1,
        forall|i: int| 0 <= i < dec(n).len() ==> is_digit(#[trigger] dec(n)[i]),
    decreases n,
{
    if n >= 10 {
        lemma_dec_len(n / 10);
    }
}

// ---------------------------------------------------------------- exec

/// `String::push`: claimed to append `c` to the characters of `s` and
/// change nothing else, as its documentation says.
#[verifier::external_body]
fn push_char(s: &mut String, c: char)
    ensures
        final(s)@ == old(s)@.push(c),
{
    s.push(c);
}

/// The characters of `s`, in order.
pub fn chars_of(s: &str) -> (out: Vec<char>)
    ensures
        out@ == s@,
{
    let mut out: Vec<char> = Vec::new();
    for c in it: s.chars()
        invariant
            out@ == it.seq().take(it.index() as int),
            it.seq() == s@,
    {
        out.push(c);
    }
    out
}

/// A `String` holding exactly `cs`.
pub fn string_of(cs: &Vec<char>) -> (out: String)
    ensures
        out@ == cs@,
{
    let mut out = String::new();
    let mut i: usize = 0;
    while i < cs.len()
        invariant
            i <= cs.len(),
            out@ == cs@.take(i as int),
        decreases cs.len() - i,
    {
        push_char(&mut out, cs[i]);
        assert(cs@.take(i as int).push(cs@[i as int]) =~= cs@.take(i + 1));
        i += 1;
    }
    assert(cs@.take(cs.len() as int) =~= cs@);
    out
}

pub fn is_ws_char(c: char) -> (b: bool)
    ensures
        b == is_ws(c),
{
    let u = c as u32;
    (9 <= u && u <= 13) || u == 32 || u == 0x85 || u == 0xA0 || u == 0x1680 || (0x2000 <= u
        && u <= 0x200A) || u == 0x2028 || u == 0x2029 || u == 0x202F || u == 0x205F || u
        == 0x3000
}

pub fn lower_char(c: char) -> (r: char)
    ensures
        r == lower(c),
{
    if 'A' <= c && c <= 'Z' {
        let b = (c as u8) + 32;
        b as char
    } else {
        c
    }
}

/// `v[a..b]` as a new vector.
pub fn slice_of(v: &Vec<char>, a: usize, b: usize) -> (out: Vec<char>)
    requires
        a <= b <= v.len(),
    ensures
        out@ == v@.subrange(a as int, b as int),
{
    let mut out: Vec<char> = Vec::new();
    let mut i = a;
    while i < b
        invariant
            a <= i <= b <= v.len(),
            out@ == v@.subrange(a as int, i as int),
        decreases b - i,
    {
        out.push(v[i]);
        assert(v@.subrange(a as int, i as int).push(v@[i as int]) =~= v@.subrange(
            a as int,
            i + 1,
        ));
        i += 1;
    }
    out
}

/// A copy of `v`.
pub fn copy_vec(v: &Vec<char>) -> (out: Vec<char>)
    ensures
        out@ == v@,
{
    let out = slice_of(v, 0, v.len());
    assert(out@ =~= v@);
    out
}

/// Appends `b` to `out`.
pub fn extend(out: &mut Vec<char>, b: &Vec<char>)
    ensures
        final(out)@ == old(out)@ + b@,
{
    let ghost start = out@;
    let mut i: usize = 0;
    while i < b.len()
        invariant
            i <= b.len(),
            out@ == start + b@.take(i as int),
        decreases b.len() - i,
    {
        out.push(b[i]);
        assert(start + b@.take(i as int).push(b@[i as int]) =~= start + b@.take(i + 1));
        i += 1;
    }
    assert(b@.take(b.len() as int) =~= b@);
}

/// Index of the first non-whitespace character.
pub fn lead_ws_exec(v: &Vec<char>) -> (n: usize)
    ensures
        n == lead_ws(v@),
{
    let mut i: usize = 0;
    while i < v.len() && is_ws_char(v[i])
        invariant
            i <= v.len(),
            forall|j: int| 0 <= j < i ==> is_ws(#[trigger] v@[j]),
        decreases v.len() - i,
    {
        i += 1;
    }
    proof {
        lemma_lead_ws_char(v@, i as int);
    }
    i
}

/// Length of the trailing whitespace run.
pub fn trail_ws_exec(v: &Vec<char>) -> (n: usize)
    ensures
        n == trail_ws(v@),
{
    let mut k: usize = 0;
    while k < v.len() && is_ws_char(v[v.len() - k - 1])
        invariant
            k <= v.len(),
            forall|j: int| v.len() - k <= j < v.len() ==> is_ws(#[trigger] v@[j]),
        decreases v.len() - k,
    {
        k += 1;
    }
    proof {
        lemma_trail_ws_char(v@, k as int);
    }
    k
}

/// `str::trim`.
pub fn trim_vec(v: &Vec<char>) -> (out: Vec<char>)
    ensures
        out@ == trim(v@),
{
    let a = lead_ws_exec(v);
    proof {
        lemma_lead_ws_bound(v@);
    }
    let t = slice_of(v, a, v.len());
    assert(t@ =~= trim_start(v@));
    let k = trail_ws_exec(&t);
    proof {
        lemma_trail_ws_bound(t@);
    }
    let out = slice_of(&t, 0, t.len() - k);
    assert(out@ =~= trim(v@));
    out
}

/// `str::trim` on a `&str`.
pub fn trim_str(s: &str) -> (out: Vec<char>)
    ensures
        out@ == trim(s@),
{
    let v = chars_of(s);
    trim_vec(&v)
}

/// Whether `p` occurs in `v` at `i`.
pub fn match_at_exec(v: &Vec<char>, p: &Vec<char>, i: usize) -> (b: bool)
    ensures
        b == match_at(v@, p@, i as int),
{
    if i > v.len() || p.len() > v.len() - i {
        return false;
    }
    let mut j: usize = 0;
    while j < p.len()
        invariant
            i + p.len() <= v.len(),
            j <= p.len(),
            forall|k: int| 0 <= k < j ==> v@[i + k] == p@[k],
        decreases p.len() - j,
    {
        if v[i + j] != p[j] {
            assert(v@.subrange(i as int, i + p.len())[j as int] != p@[j as int]);
            return false;
        }
        j += 1;
    }
    assert(v@.subrange(i as int, i + p.len()) =~= p@);
    true
}

/// `str::find`.
pub fn find_exec(v: &Vec<char>, p: &Vec<char>) -> (r: Option<usize>)
    ensures
        r matches Some(i) ==> find(v@, p@) == Some(i as int) && match_at(v@, p@, i as int),
        r is None ==> find(v@, p@) is None,
{
    if p.len() > v.len() {
        proof {
            lemma_find_from_char(v@, p@, 0, None);
        }
        return None;
    }
    if p.len() == 0 {
        proof {
            assert(v@.subrange(0, 0) =~= p@);
            lemma_find_from_char(v@, p@, 0, Some(0));
        }
        return Some(0);
    }
    let n = (v.len() - p.len()) + 1;
    let mut i: usize = 0;
    while i < n
        invariant
            1 <= p.len() <= v.len(),
            n == v.len() - p.len() + 1,
            i <= n,
            forall|j: int| 0 <= j < i ==> !match_at(v@, p@, j),
        decreases v.len() - i,
    {
        if match_at_exec(v, p, i) {
            proof {
                lemma_find_from_char(v@, p@, 0, Some(i as int));
            }
            return Some(i);
        }
        i += 1;
    }
    proof {
        assert forall|j: int| 0 <= j implies !match_at(v@, p@, j) by {
            if j >= i {
                assert(j + p@.len() > v@.len());
            }
        }
        lemma_find_from_char(v@, p@, 0, None);
    }
    None
}

/// `str::rfind`.
pub fn rfind_exec(v: &Vec<char>, p: &Vec<char>) -> (r: Option<usize>)
    ensures
        r matches Some(i) ==> rfind(v@, p@) == Some(i as int) && match_at(v@, p@, i as int),
        r is None ==> rfind(v@, p@) is None,
{
    if p.len() > v.len() {
        proof {
            lemma_rfind_from_char(v@, p@, v@.len() - p@.len(), None);
        }
        return None;
    }
    if p.len() == 0 {
        proof {
            assert(v@.subrange(v@.len() as int, v@.len() as int) =~= p@);
            lemma_rfind_from_char(v@, p@, v@.len() - p@.len(), Some(v@.len() as int));
        }
        return Some(v.len());
    }
    let mut k: usize = (v.len() - p.len()) + 1;
    while k > 0
        invariant
            1 <= p.len() <= v.len(),
            k <= v.len() - p.len() + 1,
            forall|j: int| k <= j <= v.len() - p.len() ==> !match_at(v@, p@, j),
        decreases k,
    {
        if match_at_exec(v, p, k - 1) {
            proof {
                lemma_rfind_from_char(v@, p@, v@.len() - p@.len(), Some(k - 1));
            }
            return Some(k - 1);
        }
        k -= 1;
    }
    proof {
        assert forall|j: int| j <= v@.len() - p@.len() implies !match_at(v@, p@, j) by {
            if j < 0 {
            }
        }
        lemma_rfind_from_char(v@, p@, v@.len() - p@.len(), None);
    }
    None
}

pub fn starts_with_exec(v: &Vec<char>, p: &Vec<char>) -> (b: bool)
    ensures
        b == starts_with(v@, p@),
{
    let b = match_at_exec(v, p, 0);
    proof {
        if b {
            assert(v@.take(p@.len() as int) =~= v@.subrange(0, p@.len() as int));
        }
        if starts_with(v@, p@) {
            assert(v@.take(p@.len() as int) =~= v@.subrange(0, p@.len() as int));
        }
    }
    b
}

pub fn ends_with_exec(v: &Vec<char>, p: &Vec<char>) -> (b: bool)
    ensures
        b == ends_with(v@, p@),
{
    if p.len() > v.len() {
        return false;
    }
    let b = match_at_exec(v, p, v.len() - p.len());
    proof {
        assert(v@.skip(v@.len() - p@.len()) =~= v@.subrange(v@.len() - p@.len(), v@.len() as int));
    }
    b
}

pub fn contains_exec(v: &Vec<char>, p: &Vec<char>) -> (b: bool)
    ensures
        b == contains(v@, p@),
{
    find_exec(v, p).is_some()
}

/// `str::split_once`.
pub fn split_once_exec(v: &Vec<char>, p: &Vec<char>) -> (r: Option<(Vec<char>, Vec<char>)>)
    ensures
        r matches Some((a, b)) ==> split_once(v@, p@) == Some((a@, b@)),
        r is None ==> split_once(v@, p@) is None,
{
    match find_exec(v, p) {
        Some(i) => {
            assert(match_at(v@, p@, i as int));
            assert(i + p@.len() <= v@.len());
            assert(i + p.len() <= v.len());
            let a = slice_of(v, 0, i);
            let b = slice_of(v, i + p.len(), v.len());
            assert(a@ =~= v@.take(i as int));
            assert(b@ =~= v@.skip(i + p@.len()));
            Some((a, b))
        },
        None => None,
    }
}

/// `str::rsplit_once`.
pub fn rsplit_once_exec(v: &Vec<char>, p: &Vec<char>) -> (r: Option<(Vec<char>, Vec<char>)>)
    ensures
        r matches Some((a, b)) ==> rsplit_once(v@, p@) == Some((a@, b@)),
        r is None ==> rsplit_once(v@, p@) is None,
{
    match rfind_exec(v, p) {
        Some(i) => {
            assert(match_at(v@, p@, i as int));
            assert(i + p@.len() <= v@.len());
            assert(i + p.len() <= v.len());
            let a = slice_of(v, 0, i);
            let b = slice_of(v, i + p.len(), v.len());
            assert(a@ =~= v@.take(i as int));
            assert(b@ =~= v@.skip(i + p@.len()));
            Some((a, b))
        },
        None => None,
    }
}

/// `str::lines`.
pub fn lines_exec(v: &Vec<char>) -> (out: Vec<Vec<char>>)
    ensures
        views(out@) == lines(v@),
{
    let mut out: Vec<Vec<char>> = Vec::new();
    let mut pos: usize = 0;
    assert(v@.skip(0) =~= v@);
    assert(views(out@) =~= Seq::<Seq<char>>::empty());
    while pos < v.len()
        invariant
            pos <= v.len(),
            views(out@) + lines(v@.skip(pos as int)) == lines(v@),
        decreases v.len() - pos,
    {
        let ghost rest = v@.skip(pos as int);
        let mut e = pos;
        while e < v.len() && v[e] != '\n'
            invariant
                pos <= e <= v.len(),
                forall|j: int| pos <= j < e ==> v@[j] != '\n',
            decreases v.len() - e,
        {
            e += 1;
        }
        proof {
            assert forall|j: int| 0 <= j < e - pos implies #[trigger] rest[j] != '\n' by {
                assert(rest[j] == v@[pos + j]);
            }
            lemma_line_len_char(rest, e - pos);
        }
        let line = if e == v.len() {
            slice_of(v, pos, e)
        } else if e > pos && v[e - 1] == '\r' {
            slice_of(v, pos, e - 1)
        } else {
            slice_of(v, pos, e)
        };
        let ghost before = views(out@);
        out.push(line);
        proof {
            assert(views(out@) =~= before.push(line@));
            if e == v.len() {
                assert(line@ =~= rest);
                assert(v@.skip(v.len() as int) =~= Seq::<char>::empty());
            } else {
                assert(rest.take(e - pos) =~= v@.subrange(pos as int, e as int));
                assert(strip_cr(rest.take(e - pos)) =~= line@);
                assert(rest.skip(e - pos + 1) =~= v@.skip(e + 1));
            }
        }
        pos = if e == v.len() { e } else { e + 1 };
        proof {
            if pos == v.len() {
                assert(v@.skip(pos as int) =~= Seq::<char>::empty());
            }
        }
    }
    proof {
        assert(v@.skip(pos as int) =~= Seq::<char>::empty());
        assert(views(out@) + Seq::<Seq<char>>::empty() =~= views(out@));
    }
    out
}

/// `str::lines` on a `&str`.
pub fn lines_of(s: &str) -> (out: Vec<Vec<char>>)
    ensures
        views(out@) == lines(s@),
{
    let v = chars_of(s);
    lines_exec(&v)
}

/// `str::split_whitespace`.
pub fn words_exec(v: &Vec<char>) -> (out: Vec<Vec<char>>)
    ensures
        views(out@) == words(v@),
{
    let mut out: Vec<Vec<char>> = Vec::new();
    let mut pos: usize = 0;
    assert(v@.skip(0) =~= v@);
    assert(views(out@) =~= Seq::<Seq<char>>::empty());
    while pos < v.len()
        invariant
            pos <= v.len(),
            views(out@) + words(v@.skip(pos as int)) == words(v@),
        decreases v.len() - pos,
    {
        let ghost rest = v@.skip(pos as int);
        if is_ws_char(v[pos]) {
            assert(rest.drop_first() =~= v@.skip(pos + 1));
            pos += 1;
        } else {
            let mut e = pos;
            while e < v.len() && !is_ws_char(v[e])
                invariant
                    pos <= e <= v.len(),
                    forall|j: int| pos <= j < e ==> !is_ws(#[trigger] v@[j]),
                decreases v.len() - e,
            {
                e += 1;
            }
            proof {
                assert forall|j: int| 0 <= j < e - pos implies !is_ws(#[trigger] rest[j]) by {
                    assert(rest[j] == v@[pos + j]);
                }
                lemma_word_len_char(rest, e - pos);
            }
            let w = slice_of(v, pos, e);
            let ghost before = views(out@);
            out.push(w);
            proof {
                assert(views(out@) =~= before.push(w@));
                assert(rest.take(e - pos) =~= w@);
                assert(rest.skip(e - pos) =~= v@.skip(e as int));
            }
            pos = e;
        }
    }
    proof {
        assert(v@.skip(pos as int) =~= Seq::<char>::empty());
        assert(views(out@) + Seq::<Seq<char>>::empty() =~= views(out@));
    }
    out
}

/// `str::split_whitespace` on a `&str`.
pub fn words_of(s: &str) -> (out: Vec<Vec<char>>)
    ensures
        views(out@) == words(s@),
{
    let v = chars_of(s);
    words_exec(&v)
}

pub proof fn lemma_digits_val_step(s: Seq<char>, i: int)
    requires
        0 <= i < s.len(),
        is_digit(s[i]),
    ensures
        digits_val(s.take(i + 1)) == digits_val(s.take(i)) * 10 + digit_val(s[i]),
{
    assert(s.take(i + 1).drop_last() =~= s.take(i));
    assert(s.take(i + 1).last() == s[i]);
}

pub proof fn lemma_hex_digits_val_step(s: Seq<char>, i: int)
    requires
        0 <= i < s.len(),
        is_hex_digit(s[i]),
    ensures
        hex_digits_val(s.take(i + 1)) == hex_digits_val(s.take(i)) * 16 + hex_val(s[i]),
{
    assert(s.take(i + 1).drop_last() =~= s.take(i));
    assert(s.take(i + 1).last() == s[i]);
}

/// A longer run of digits is worth at least as much as its prefix.
pub proof fn lemma_digits_val_mono(s: Seq<char>, i: int)
    requires
        0 <= i <= s.len(),
        all_digits(s),
    ensures
        digits_val(s.take(i)) <= digits_val(s),
    decreases s.len() - i,
{
    if i < s.len() {
        lemma_digits_val_step(s, i);
        assert(is_digit(s[i]));
        lemma_digits_val_mono(s, i + 1);
    } else {
        assert(s.take(i) =~= s);
    }
}

pub proof fn lemma_hex_digits_val_mono(s: Seq<char>, i: int)
    requires
        0 <= i <= s.len(),
        forall|j: int| 0 <= j < s.len() ==> is_hex_digit(#[trigger] s[j]),
    ensures
        hex_digits_val(s.take(i)) <= hex_digits_val(s),
    decreases s.len() - i,
{
    if i < s.len() {
        lemma_hex_digits_val_step(s, i);
        assert(is_hex_digit(s[i]));
        lemma_hex_digits_val_mono(s, i + 1);
    } else {
        assert(s.take(i) =~= s);
    }
}

/// Parses the digits of `v` with no sign handling; `None` past `max`.
fn digits_to_u64(v: &Vec<char>, max: u64) -> (r: Option<u64>)
    requires
        max >= 9,
    ensures
        r matches Some(n) ==> v@.len() > 0 && all_digits(v@) && digits_val(v@) <= max && n
            == digits_val(v@),
        r is None ==> !(v@.len() > 0 && all_digits(v@) && digits_val(v@) <= max),
{
    if v.len() == 0 {
        return None;
    }
    let mut acc: u64 = 0;
    let mut i: usize = 0;
    while i < v.len()
        invariant
            i <= v.len(),
            forall|j: int| 0 <= j < i ==> is_digit(#[trigger] v@[j]),
            acc == digits_val(v@.take(i as int)),
            acc <= max,
            max >= 9,
        decreases v.len() - i,
    {
        let c = v[i];
        if !('0' <= c && c <= '9') {
            return None;
        }
        assert((c as u32) >= 48 && (c as u32) <= 57);
        let d = (c as u32 - '0' as u32) as u64;
        proof {
            lemma_digits_val_step(v@, i as int);
        }
        if acc > (max - d) / 10 {
            proof {
                assert(acc * 10 + d > max) by (nonlinear_arith)
                    requires
                        acc > (max - d) / 10,
                        d <= 9,
                        d <= max,
                ;
                if all_digits(v@) {
                    lemma_digits_val_mono(v@, i + 1);
                }
            }
            return None;
        }
        proof {
            assert(acc * 10 + d <= max) by (nonlinear_arith)
                requires
                    acc <= (max - d) / 10,
                    d <= max,
            ;
        }
        acc = acc * 10 + d;
        i += 1;
    }
    assert(v@.take(v.len() as int) =~= v@);
    Some(acc)
}

/// `str::parse::<u64>` (and narrower unsigned types via `max`).
pub fn parse_uint_exec(v: &Vec<char>, max: u64) -> (r: Option<u64>)
    requires
        max >= 9,
    ensures
        r matches Some(n) ==> parse_uint(v@, max as nat) == Some(n as nat),
        r is None ==> parse_uint(v@, max as nat) is None,
{
    let body = if v.len() > 0 && v[0] == '+' {
        slice_of(v, 1, v.len())
    } else {
        slice_of(v, 0, v.len())
    };
    assert(body@ =~= unsigned_body(v@));
    digits_to_u64(&body, max)
}

pub fn is_hex_digit_exec(c: char) -> (b: bool)
    ensures
        b == is_hex_digit(c),
{
    ('0' <= c && c <= '9') || ('a' <= c && c <= 'f') || ('A' <= c && c <= 'F')
}

/// `u32::from_str_radix(s, 16)`.
pub fn parse_hex_u32_exec(v: &Vec<char>) -> (r: Option<u32>)
    ensures
        r matches Some(n) ==> parse_hex_u32(v@) == Some(n as nat),
        r is None ==> parse_hex_u32(v@) is None,
{
    let d = if v.len() > 0 && v[0] == '+' {
        slice_of(v, 1, v.len())
    } else {
        slice_of(v, 0, v.len())
    };
    assert(d@ =~= unsigned_body(v@));
    if d.len() == 0 {
        return None;
    }
    let mut acc: u32 = 0;
    let mut i: usize = 0;
    while i < d.len()
        invariant
            i <= d.len(),
            forall|j: int| 0 <= j < i ==> is_hex_digit(#[trigger] d@[j]),
            acc == hex_digits_val(d@.take(i as int)),
            d@ == unsigned_body(v@),
            d@.len() > 0,
        decreases d.len() - i,
    {
        let c = d[i];
        if !is_hex_digit_exec(c) {
            assert(!is_hex_digit(d@[i as int]));
            assert(!(forall|j: int| 0 <= j < d@.len() ==> is_hex_digit(#[trigger] d@[j])));
            return None;
        }
        let h: u32 = if '0' <= c && c <= '9' {
            c as u32 - '0' as u32
        } else if 'a' <= c && c <= 'f' {
            c as u32 - 'a' as u32 + 10
        } else {
            c as u32 - 'A' as u32 + 10
        };
        proof {
            lemma_hex_digits_val_step(d@, i as int);
        }
        if acc > (u32::MAX - h) / 16 {
            proof {
                assert(acc * 16 + h > u32::MAX) by (nonlinear_arith)
                    requires
                        acc > (u32::MAX - h) / 16,
                        h <= 15,
                ;
                if forall|j: int| 0 <= j < d@.len() ==> is_hex_digit(#[trigger] d@[j]) {
                    lemma_hex_digits_val_mono(d@, i + 1);
                    assert(hex_digits_val(d@) > u32::MAX);
                }
            }
            return None;
        }
        proof {
            assert(acc * 16 + h <= u32::MAX) by (nonlinear_arith)
                requires
                    acc <= (u32::MAX - h) / 16,
                    h <= 15,
            ;
        }
        acc = acc * 16 + h;
        i += 1;
    }
    assert(d@.take(d.len() as int) =~= d@);
    Some(acc)
}

/// Appends the decimal digits of `n`.
pub fn push_dec(out: &mut Vec<char>, n: u64)
    ensures
        final(out)@ == old(out)@ + dec(n as nat),
    decreases n,
{
    if n >= 10 {
        push_dec(out, n / 10);
    }
    let d = (n % 10) as u8;
    let c = (48u8 + d) as char;
    proof {
        assert(c == digit_char((n % 10) as nat));
    }
    let ghost before = out@;
    out.push(c);
    proof {
        if n >= 10 {
            assert(before.push(c) =~= old(out)@ + dec(n as nat));
        } else {
            assert(before.push(c) =~= old(out)@ + dec(n as nat));
        }
    }
}

/// Appends the decimal digits of a signed `n`.
pub fn push_dec_i64(out: &mut Vec<char>, n: i64)
    ensures
        final(out)@ == old(out)@ + dec_int(n as int),
{
    if n < 0 {
        let ghost before = out@;
        out.push('-');
        let m: u64 = if n == i64::MIN {
            9223372036854775808u64
        } else {
            (-n) as u64
        };
        push_dec(out, m);
        assert(out@ =~= before + dec_int(n as int));
    } else {
        push_dec(out, n as u64);
    }
}

/// Appends the lower-case hex digits of `n`.
pub fn push_hex_lower(out: &mut Vec<char>, n: u64)
    ensures
        final(out)@ == old(out)@ + hex_lower(n as nat),
    decreases n,
{
    if n >= 16 {
        push_hex_lower(out, n / 16);
    }
    let d = (n % 16) as u8;
    let c = if d < 10 {
        (48u8 + d) as char
    } else {
        (97u8 + (d - 10)) as char
    };
    proof {
        assert(c == hex_char_lower((n % 16) as nat));
    }
    let ghost before = out@;
    out.push(c);
    assert(before.push(c) =~= old(out)@ + hex_lower(n as nat));
}

/// Whether two character vectors are equal.
pub fn vec_eq(a: &Vec<char>, b: &Vec<char>) -> (r: bool)
    ensures
        r == (a@ == b@),
{
    if a.len() != b.len() {
        return false;
    }
    let mut i: usize = 0;
    while i < a.len()
        invariant
            a.len() == b.len(),
            i <= a.len(),
            forall|j: int| 0 <= j < i ==> a@[j] == b@[j],
        decreases a.len() - i,
    {
        if a[i] != b[i] {
            return false;
        }
        i += 1;
    }
    assert(a@ =~= b@);
    true
}

/// Whether `s` reads exactly `l`.
pub fn str_eq(s: &str, l: &str) -> (r: bool)
    ensures
        r == (s@ == l@),
{
    let a = chars_of(s);
    let b = chars_of(l);
    vec_eq(&a, &b)
}

/// Decimal rendering of `n` as a `String`.
pub fn dec_string(n: u64) -> (out: String)
    ensures
        out@ == dec(n as nat),
{
    let mut v: Vec<char> = Vec::new();
    push_dec(&mut v, n);
    assert(v@ =~= dec(n as nat));
    string_of(&v)
}

/// Decimal rendering of a signed `n` as a `String`.
pub fn dec_i64_string(n: i64) -> (out: String)
    ensures
        out@ == dec_int(n as int),
{
    let mut v: Vec<char> = Vec::new();
    push_dec_i64(&mut v, n);
    assert(v@ =~= dec_int(n as int));
    string_of(&v)
}

/// `parts.join(sep)`.
pub fn join_exec(parts: &Vec<Vec<char>>, sep: &Vec<char>) -> (out: Vec<char>)
    ensures
        out@ == join(views(parts@), sep@),
{
    let mut out: Vec<char> = Vec::new();
    let mut i: usize = 0;
    while i < parts.len()
        invariant
            i <= parts.len(),
            out@ == join(views(parts@).take(i as int), sep@),
        decreases parts.len() - i,
    {
        let ghost before = out@;
        if i > 0 {
            extend(&mut out, sep);
        }
        extend(&mut out, &parts[i]);
        proof {
            let t = views(parts@).take(i + 1);
            assert(t.drop_last() =~= views(parts@).take(i as int));
            assert(t.last() == parts@[i as int]@);
            if i == 0 {
                assert(before =~= Seq::<char>::empty());
                assert(out@ =~= t[0]);
            } else {
                assert(out@ =~= before + sep@ + parts@[i as int]@);
            }
        }
        i += 1;
    }
    assert(views(parts@).take(parts.len() as int) =~= views(parts@));
    out
}

/// Bytes `c` takes in UTF-8.
pub fn char_utf8_len_exec(c: char) -> (n: usize)
    ensures
        n == char_utf8_len(c),
{
    let u = c as u32;
    if u < 0x80 {
        1
    } else if u < 0x800 {
        2
    } else if u < 0x10000 {
        3
    } else {
        4
    }
}

/// Bytes `v` takes in UTF-8, saturating at `cap`.
pub fn utf8_len_capped(v: &Vec<char>, cap: usize) -> (n: usize)
    ensures
        n == if utf8_len(v@) < cap { utf8_len(v@) } else { cap as nat },
{
    let mut n: usize = 0;
    let mut i: usize = 0;
    while i < v.len()
        invariant
            i <= v.len(),
            n == if utf8_len(v@.take(i as int)) < cap { utf8_len(v@.take(i as int)) } else { cap as nat },
        decreases v.len() - i,
    {
        assert(v@.take(i + 1).drop_last() =~= v@.take(i as int));
        let w = char_utf8_len_exec(v[i]);
        if n < cap {
            n = if w < cap - n { n + w } else { cap };
        }
        i += 1;
    }
    assert(v@.take(v.len() as int) =~= v@);
    n
}

/// `to_ascii_lowercase`.
pub fn lower_vec(v: &Vec<char>) -> (out: Vec<char>)
    ensures
        out@ == lower_seq(v@),
{
    let mut out: Vec<char> = Vec::new();
    let mut i: usize = 0;
    while i < v.len()
        invariant
            i <= v.len(),
            out@ == lower_seq(v@.take(i as int)),
        decreases v.len() - i,
    {
        out.push(lower_char(v[i]));
        assert(lower_seq(v@.take(i + 1)) =~= lower_seq(v@.take(i as int)).push(lower(v@[i as int])));
        i += 1;
    }
    assert(v@.take(v.len() as int) =~= v@);
    out
}

/// Number of leading characters of `v` that fit in `n` UTF-8 bytes.
pub fn prefix_within_exec(v: &Vec<char>, n: usize) -> (k: usize)
    ensures
        k == prefix_within(v@, n as nat),
        k <= v.len(),
{
    let mut i: usize = 0;
    let mut left: usize = n;
    assert(v@.skip(0) =~= v@);
    while i < v.len() && char_utf8_len_exec(v[i]) <= left
        invariant
            i <= v.len(),
            left <= n,
            prefix_within(v@, n as nat) == i + prefix_within(v@.skip(i as int), left as nat),
        decreases v.len() - i,
    {
        let w = char_utf8_len_exec(v[i]);
        assert(v@.skip(i as int).drop_first() =~= v@.skip(i + 1));
        left = left - w;
        i += 1;
    }
    proof {
        if i < v.len() {
            assert(v@.skip(i as int)[0] == v@[i as int]);
        }
    }
    i
}

/// The characters of a string literal.
pub fn lit(s: &str) -> (out: Vec<char>)
    ensures
        out@ == s@,
{
    chars_of(s)
}


/// Length of the leading run of characters other than `c`.
pub open spec fn char_pos(s: Seq<char>, c: char) -> nat
    decreases s.len(),
{
    if s.len() == 0 || s[0] == c {
        0
    } else {
        1 + char_pos(s.drop_first(), c)
    }
}

pub proof fn lemma_char_pos_bound(s: Seq<char>, c: char)
    ensures
        char_pos(s, c) <= s.len(),
    decreases s.len(),
{
    if s.len() > 0 && s[0] != c {
        lemma_char_pos_bound(s.drop_first(), c);
    }
}

pub proof fn lemma_char_pos_at(s: Seq<char>, c: char, k: int)
    requires
        0 <= k <= s.len(),
        forall|j: int| 0 <= j < k ==> #[trigger] s[j] != c,
        k == s.len() || s[k] == c,
    ensures
        char_pos(s, c) == k,
    decreases s.len(),
{
    if k > 0 {
        let t = s.drop_first();
        assert forall|j: int| 0 <= j < k - 1 implies #[trigger] t[j] != c by {
            assert(t[j] == s[j + 1]);
        }
        if k - 1 < t.len() {
            assert(t[k - 1] == s[k]);
        }
        lemma_char_pos_at(t, c, k - 1);
    }
}

/// `str::split` on a character: the pieces between its occurrences,
/// empty ones included.
pub open spec fn split_char(s: Seq<char>, c: char) -> Seq<Seq<char>>
    decreases s.len(),
{
    let k = char_pos(s, c);
    proof {
        lemma_char_pos_bound(s, c);
    }
    if k >= s.len() {
        seq![s]
    } else {
        seq![s.take(k as int)] + split_char(s.skip(k + 1 as int), c)
    }
}

/// `str::split` on a character.
pub fn split_char_exec(v: &Vec<char>, c: char) -> (out: Vec<Vec<char>>)
    ensures
        views(out@) == split_char(v@, c),
        out.len() >= 1,
{
    let mut out: Vec<Vec<char>> = Vec::new();
    let mut pos: usize = 0;
    let mut done = false;
    assert(v@.skip(0) =~= v@);
    assert(views(out@) =~= Seq::<Seq<char>>::empty());
    while !done
        invariant
            pos <= v.len(),
            !done ==> views(out@) + split_char(v@.skip(pos as int), c) == split_char(v@, c),
            done ==> views(out@) == split_char(v@, c) && out.len() >= 1,
        decreases (v.len() - pos) as int + if done {
            0int
        } else {
            1int
        },
    {
        let ghost rest = v@.skip(pos as int);
        let mut e = pos;
        while e < v.len() && v[e] != c
            invariant
                pos <= e <= v.len(),
                forall|j: int| pos <= j < e ==> v@[j] != c,
            decreases v.len() - e,
        {
            e += 1;
        }
        proof {
            assert forall|j: int| 0 <= j < e - pos implies #[trigger] rest[j] != c by {
                assert(rest[j] == v@[pos + j]);
            }
            if e < v.len() {
                assert(rest[e - pos] == v@[e as int]);
            }
            lemma_char_pos_at(rest, c, e - pos);
        }
        let piece = slice_of(v, pos, e);
        let ghost before = views(out@);
        out.push(piece);
        proof {
            assert(views(out@) =~= before.push(piece@));
            if e == v.len() {
                assert(piece@ =~= rest);
                assert(views(out@) =~= before + split_char(rest, c));
            } else {
                assert(rest.take(e - pos) =~= piece@);
                assert(rest.skip(e - pos + 1) =~= v@.skip(e + 1));
                assert(views(out@) + split_char(v@.skip(e + 1), c) =~= before + split_char(
                    rest,
                    c,
                ));
            }
        }
        if e == v.len() {
            done = true;
        } else {
            pos = e + 1;
        }
    }
    out
}


pub proof fn lemma_find_from_found(s: Seq<char>, p: Seq<char>, i: nat)
    requires
        find_from(s, p, i) is Some,
    ensures
        match_at(s, p, find_from(s, p, i)->0),
        find_from(s, p, i)->0 >= i,
    decreases s.len() - i,
{
    if i + p.len() > s.len() {
    } else if match_at(s, p, i as int) {
    } else {
        if p.len() == 0 {
            assert(s.subrange(i as int, i as int) =~= p);
        }
        lemma_find_from_found(s, p, i + 1);
    }
}

/// `str::split` with a non-empty string pattern.
pub open spec fn split_str(s: Seq<char>, p: Seq<char>) -> Seq<Seq<char>>
    decreases s.len(),
{
    if p.len() == 0 {
        seq![s]
    } else {
        match find(s, p) {
            None => seq![s],
            Some(i) => {
                proof {
                    lemma_find_from_found(s, p, 0);
                }
                seq![s.take(i)] + split_str(s.skip(i + p.len()), p)
            },
        }
    }
}

/// `str::split` with a non-empty string pattern.
pub fn split_str_exec(v: &Vec<char>, p: &Vec<char>) -> (out: Vec<Vec<char>>)
    requires
        p.len() > 0,
    ensures
        views(out@) == split_str(v@, p@),
        out.len() >= 1,
{
    let mut out: Vec<Vec<char>> = Vec::new();
    let mut rest = copy_vec(v);
    let mut done = false;
    assert(views(out@) =~= Seq::<Seq<char>>::empty());
    assert(views(out@) + split_str(rest@, p@) =~= split_str(v@, p@));
    while !done
        invariant
            p.len() > 0,
            !done ==> views(out@) + split_str(rest@, p@) == split_str(v@, p@),
            done ==> views(out@) == split_str(v@, p@) && out.len() >= 1,
        decreases rest.len() + if done {
            0int
        } else {
            1int
        },
    {
        let ghost before = views(out@);
        match find_exec(&rest, p) {
            None => {
                let piece = copy_vec(&rest);
                out.push(piece);
                assert(views(out@) =~= before.push(piece@));
                assert(views(out@) =~= before + split_str(rest@, p@));
                done = true;
            },
            Some(i) => {
                let piece = slice_of(&rest, 0, i);
                let next = slice_of(&rest, i + p.len(), rest.len());
                out.push(piece);
                assert(views(out@) =~= before.push(piece@));
                assert(piece@ =~= rest@.take(i as int));
                assert(next@ =~= rest@.skip(i + p@.len()));
                assert(views(out@) + split_str(next@, p@) =~= before + split_str(rest@, p@));
                rest = next;
            },
        }
    }
    out
}


/// `str::replace` with a non-empty pattern: every occurrence, left to
/// right, without overlaps.
pub open spec fn replace_all(s: Seq<char>, from: Seq<char>, to: Seq<char>) -> Seq<char>
    decreases s.len(),
{
    if from.len() == 0 {
        s
    } else {
        match find(s, from) {
            None => s,
            Some(i) => {
                proof {
                    lemma_find_from_found(s, from, 0);
                }
                s.take(i) + to + replace_all(s.skip(i + from.len()), from, to)
            },
        }
    }
}

/// `str::replace` with a non-empty pattern.
pub fn replace_all_exec(v: &Vec<char>, from: &Vec<char>, to: &Vec<char>) -> (out: Vec<char>)
    requires
        from.len() > 0,
    ensures
        out@ == replace_all(v@, from@, to@),
{
    let mut out: Vec<char> = Vec::new();
    let mut rest = copy_vec(v);
    let mut done = false;
    assert(out@ + replace_all(rest@, from@, to@) =~= replace_all(v@, from@, to@));
    while !done
        invariant
            from.len() > 0,
            !done ==> out@ + replace_all(rest@, from@, to@) == replace_all(v@, from@, to@),
            done ==> out@ == replace_all(v@, from@, to@),
        decreases rest.len() + if done {
            0int
        } else {
            1int
        },
    {
        let ghost before = out@;
        match find_exec(&rest, from) {
            None => {
                extend(&mut out, &rest);
                done = true;
            },
            Some(i) => {
                let head = slice_of(&rest, 0, i);
                let next = slice_of(&rest, i + from.len(), rest.len());
                extend(&mut out, &head);
                extend(&mut out, to);
                assert(head@ =~= rest@.take(i as int));
                assert(next@ =~= rest@.skip(i + from@.len()));
                assert(out@ + replace_all(next@, from@, to@) =~= before + replace_all(
                    rest@,
                    from@,
                    to@,
                ));
                rest = next;
            },
        }
    }
    out
}

/// `PathBuf::join` of a relative `name` onto `dir` (Unix): `name` alone
/// when `dir` is empty, else with one `/` between them.
pub open spec fn joined(dir: Seq<char>, name: Seq<char>) -> Seq<char> {
    if dir.len() == 0 {
        name
    } else if dir.last() == '/' {
        dir + name
    } else {
        dir + "/"@ + name
    }
}

pub fn join_path(dir: &Vec<char>, name: &str) -> (out: Vec<char>)
    ensures
        out@ == joined(dir@, name@),
{
    let mut out: Vec<char> = Vec::new();
    if dir.len() > 0 {
        extend(&mut out, dir);
        if dir[dir.len() - 1] != '/' {
            extend(&mut out, &lit("/"));
        }
    }
    extend(&mut out, &lit(name));
    assert(out@ =~= joined(dir@, name@));
    out
}


/// Lower-casing twice is lower-casing once.
pub proof fn lemma_lower_seq_idempotent(s: Seq<char>)
    ensures
        lower_seq(lower_seq(s)) == lower_seq(s),
{
    assert forall|i: int| 0 <= i < s.len() implies #[trigger] lower(lower(s[i])) == lower(s[i]) by {
        let c = s[i];
        if is_ascii_upper(c) {
            assert(((c as u32) + 32) as char as u32 == (c as u32) + 32);
        }
    }
    assert(lower_seq(lower_seq(s)) =~= lower_seq(s));
}

} // verus!
