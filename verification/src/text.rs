//! Characters and strings: building `String`s with known contents, decimal numbers, ASCII
//! case.

use vstd::prelude::*;

verus! {

/// The characters of `s`, in order.
pub fn chars_of(s: &str) -> (v: Vec<char>)
    ensures
        v@ == s@,
{
    let mut v: Vec<char> = Vec::new();
    for c in it: s.chars()
        invariant
            v@ == it.seq().take(it.index() as int),
    {
        v.push(c);
    }
    v
}

/// The lower-case form of an ASCII upper-case letter; other characters stay.
pub open spec fn spec_lower(c: char) -> char {
    if 'A' <= c <= 'Z' {
        ((c as u32) + 32) as char
    } else {
        c
    }
}

pub fn lower(c: char) -> (r: char)
    ensures
        r == spec_lower(c),
{
    if 'A' <= c && c <= 'Z' {
        let b = c as u8;
        ((b + 32) as char)
    } else {
        c
    }
}

/// Appends one character (`String::push`). Claims: the string gains exactly that character
/// at its end.
#[verifier::external_body]
pub(crate) fn push_char(s: &mut String, c: char)
    ensures
        final(s)@ == old(s)@.push(c),
{
    s.push(c);
}

/// The text that `String::from_utf8_lossy` makes of `bytes`.
pub uninterp spec fn utf8_lossy_text(bytes: Seq<u8>) -> Seq<char>;

/// `String::from_utf8_lossy`: the text the bytes encode, with U+FFFD for each invalid
/// sequence. Claims: the result is `utf8_lossy_text` of the bytes and, as std documents, for
/// valid UTF-8 exactly the text that the bytes encode.
#[verifier::external_body]
pub(crate) fn decode_lossy(bytes: &[u8]) -> (s: String)
    ensures
        s@ == utf8_lossy_text(bytes@),
        vstd::utf8::valid_utf8(bytes@) ==> s@ == vstd::utf8::decode_utf8(bytes@),
{
    String::from_utf8_lossy(bytes).into_owned()
}

/// Appends the characters of `t`.
pub fn push_chars(s: &mut String, t: &[char])
    ensures
        final(s)@ == old(s)@ + t@,
{
    let ghost start = s@;
    let mut i: usize = 0;
    while i < t.len()
        invariant
            i <= t@.len(),
            s@ == start + t@.take(i as int),
        decreases t@.len() - i,
    {
        push_char(s, t[i]);
        i = i + 1;
        assert(s@ =~= start + t@.take(i as int));
    }
    assert(t@.take(t@.len() as int) =~= t@);
}

/// Appends the characters of `t`.
pub fn push_str(s: &mut String, t: &str)
    ensures
        final(s)@ == old(s)@ + t@,
{
    let chars = chars_of(t);
    push_chars(s, chars.as_slice());
}

/// A string made of the characters of `t`.
pub fn string_of(t: &[char]) -> (s: String)
    ensures
        s@ == t@,
{
    let mut s = String::new();
    push_chars(&mut s, t);
    assert(s@ =~= t@);
    s
}

/// The digit character for a number below ten.
pub open spec fn digit_char(d: nat) -> char {
    ((d + 48) as u8) as char
}

/// The decimal form of `n`, without leading zeros.
pub open spec fn decimal(n: nat) -> Seq<char>
    decreases n,
{
    if n < 10 {
        seq![digit_char(n)]
    } else {
        decimal(n / 10).push(digit_char(n % 10))
    }
}

/// Appends the decimal form of `n`.
pub fn push_decimal(s: &mut String, n: u64)
    ensures
        final(s)@ == old(s)@ + decimal(n as nat),
    decreases n,
{
    if n >= 10 {
        push_decimal(s, n / 10);
    }
    let d: u8 = (n % 10) as u8;
    let c: char = (d + 48) as char;
    assert(c == digit_char((n % 10) as nat));
    let ghost before = s@;
    push_char(s, c);
    if n >= 10 {
        assert(s@ =~= old(s)@ + decimal(n as nat));
    } else {
        assert(s@ =~= old(s)@ + decimal(n as nat));
    }
}

/// The decimal form of an integer, with a minus sign when it is negative.
pub open spec fn signed_decimal(i: int) -> Seq<char> {
    if i < 0 {
        seq!['-'] + decimal((-i) as nat)
    } else {
        decimal(i as nat)
    }
}

/// Appends the decimal form of `n`, with a minus sign when it is negative.
pub fn push_signed_decimal(s: &mut String, n: i64)
    ensures
        final(s)@ == old(s)@ + signed_decimal(n as int),
{
    if n < 0 {
        push_char(s, '-');
        let m: u64 = (-(n as i128)) as u64;
        push_decimal(s, m);
        assert(s@ =~= old(s)@ + signed_decimal(n as int));
    } else {
        push_decimal(s, n as u64);
    }
}

/// The decimal form of `n` as a string.
pub fn decimal_string(n: u64) -> (s: String)
    ensures
        s@ == decimal(n as nat),
{
    let mut s = String::new();
    push_decimal(&mut s, n);
    assert(s@ =~= decimal(n as nat));
    s
}

/// `base` with the relative part `part` appended, as `PathBuf::join` appends one: directly
/// when `base` is empty or already ends in a separator (`sep`, or `/`), else after `sep`.
pub open spec fn joined(base: Seq<char>, part: Seq<char>, sep: char) -> Seq<char> {
    if base.len() == 0 || base.last() == sep || base.last() == '/' {
        base + part
    } else {
        base + seq![sep] + part
    }
}

/// Appends the relative part `part` to the path `s`, as `PathBuf::join` does.
pub fn push_joined(s: &mut String, part: &str, sep: char)
    ensures
        final(s)@ == joined(old(s)@, part@, sep),
{
    let chars = chars_of(s.as_str());
    let n = chars.len();
    if n > 0 && chars[n - 1] != sep && chars[n - 1] != '/' {
        push_char(s, sep);
    }
    push_str(s, part);
    assert(final(s)@ =~= joined(old(s)@, part@, sep));
}

} // verus!

verus! {

// ---------------------------------------------------------------------------
// Whitespace and trimming
// ---------------------------------------------------------------------------

/// A Unicode `White_Space` character (what `char::is_whitespace` accepts).
pub open spec fn is_space(c: char) -> bool {
    ||| c == ' '
    ||| ('\t' <= c && c <= '\r')
    ||| c == '\u{85}'
    ||| c == '\u{a0}'
    ||| c == '\u{1680}'
    ||| ('\u{2000}' <= c && c <= '\u{200a}')
    ||| c == '\u{2028}'
    ||| c == '\u{2029}'
    ||| c == '\u{202f}'
    ||| c == '\u{205f}'
    ||| c == '\u{3000}'
}

pub fn is_space_char(c: char) -> (b: bool)
    ensures
        b == is_space(c),
{
    c == ' ' || ('\t' <= c && c <= '\r') || c == '\u{85}' || c == '\u{a0}' || c == '\u{1680}' || ('\u{2000}' <= c
        && c <= '\u{200a}') || c == '\u{2028}' || c == '\u{2029}' || c == '\u{202f}' || c == '\u{205f}' || c
        == '\u{3000}'
}

/// How many whitespace characters `s` starts with.
pub open spec fn leading_spaces(s: Seq<char>) -> nat
    decreases s.len(),
{
    if s.len() > 0 && is_space(s[0]) {
        1 + leading_spaces(s.drop_first())
    } else {
        0
    }
}

/// How many whitespace characters `s` ends with.
pub open spec fn trailing_spaces(s: Seq<char>) -> nat
    decreases s.len(),
{
    if s.len() > 0 && is_space(s.last()) {
        1 + trailing_spaces(s.drop_last())
    } else {
        0
    }
}

/// `s` without leading and trailing whitespace (what `str::trim` gives).
pub open spec fn trim(s: Seq<char>) -> Seq<char> {
    let t = s.skip(leading_spaces(s) as int);
    t.take(t.len() - trailing_spaces(t))
}

pub proof fn lemma_leading_spaces(s: Seq<char>, k: int)
    requires
        0 <= k <= s.len(),
        forall|j: int| 0 <= j < k ==> is_space(s[j]),
    ensures
        leading_spaces(s) == k + leading_spaces(s.skip(k)),
        leading_spaces(s) <= s.len(),
    decreases k,
{
    lemma_leading_bound(s);
    if k > 0 {
        lemma_leading_spaces(s.drop_first(), k - 1);
        assert(s.drop_first().skip(k - 1) =~= s.skip(k));
    } else {
        assert(s.skip(0) =~= s);
    }
}

pub proof fn lemma_leading_bound(s: Seq<char>)
    ensures
        leading_spaces(s) <= s.len(),
        leading_spaces(s) < s.len() ==> !is_space(s[leading_spaces(s) as int]),
        forall|j: int| 0 <= j < leading_spaces(s) ==> is_space(#[trigger] s[j]),
    decreases s.len(),
{
    if s.len() > 0 && is_space(s[0]) {
        lemma_leading_bound(s.drop_first());
        assert forall|j: int| 0 <= j < leading_spaces(s) implies is_space(#[trigger] s[j]) by {
            if j > 0 {
                assert(s[j] == s.drop_first()[j - 1]);
            }
        }
    }
}

proof fn lemma_trailing_spaces(s: Seq<char>, k: int)
    requires
        0 <= k <= s.len(),
        forall|j: int| s.len() - k <= j < s.len() ==> is_space(s[j]),
    ensures
        trailing_spaces(s) == k + trailing_spaces(s.take(s.len() - k)),
    decreases k,
{
    if k > 0 {
        lemma_trailing_spaces(s.drop_last(), k - 1);
        assert(s.drop_last().take(s.drop_last().len() - (k - 1)) =~= s.take(s.len() - k));
    } else {
        assert(s.take(s.len() as int) =~= s);
    }
}

proof fn lemma_trailing_bound(s: Seq<char>)
    ensures
        trailing_spaces(s) <= s.len(),
    decreases s.len(),
{
    if s.len() > 0 && is_space(s.last()) {
        lemma_trailing_bound(s.drop_last());
    }
}

/// The bounds of `s` without leading and trailing whitespace.
pub fn trim_bounds(s: &[char]) -> (r: (usize, usize))
    ensures
        r.0 <= r.1 <= s@.len(),
        s@.subrange(r.0 as int, r.1 as int) == trim(s@),
{
    let mut start: usize = 0;
    while start < s.len() && is_space_char(s[start])
        invariant
            start <= s@.len(),
            forall|j: int| 0 <= j < start ==> is_space(s@[j]),
        decreases s@.len() - start,
    {
        start = start + 1;
    }
    proof {
        lemma_leading_spaces(s@, start as int);
        if start < s@.len() {
            assert(!is_space(s@.skip(start as int)[0]));
        }
        assert(leading_spaces(s@.skip(start as int)) == 0);
    }
    let ghost t = s@.skip(start as int);
    let mut end: usize = s.len();
    while end > start && is_space_char(s[end - 1])
        invariant
            start <= end <= s@.len(),
            t == s@.skip(start as int),
            forall|j: int| end - start <= j < t.len() ==> is_space(t[j]),
        decreases end,
    {
        end = end - 1;
    }
    proof {
        let k = t.len() - (end - start);
        lemma_trailing_spaces(t, k);
        let u = t.take(end - start);
        if u.len() > 0 {
            assert(u.last() == s@[end - 1]);
        }
        assert(trailing_spaces(u) == 0);
        assert(s@.subrange(start as int, end as int) =~= u);
    }
    (start, end)
}

/// The characters of `s` without leading and trailing whitespace.
pub fn trim_chars(s: &[char]) -> (v: Vec<char>)
    ensures
        v@ == trim(s@),
{
    let (start, end) = trim_bounds(s);
    copy_chars(s, start, end)
}

/// The characters of `s` from `start` up to `end`.
pub fn copy_chars(s: &[char], start: usize, end: usize) -> (v: Vec<char>)
    requires
        start <= end <= s@.len(),
    ensures
        v@ == s@.subrange(start as int, end as int),
{
    let mut v: Vec<char> = Vec::new();
    let mut i: usize = start;
    while i < end
        invariant
            start <= i <= end <= s@.len(),
            v@ == s@.subrange(start as int, i as int),
        decreases end - i,
    {
        v.push(s[i]);
        i = i + 1;
        assert(v@ =~= s@.subrange(start as int, i as int));
    }
    v
}

// ---------------------------------------------------------------------------
// Searching and comparing
// ---------------------------------------------------------------------------

/// The first index of `c` in `s`, if any.
pub open spec fn find_char(s: Seq<char>, c: char) -> Option<int>
    decreases s.len(),
{
    if s.len() == 0 {
        None
    } else if s[0] == c {
        Some(0)
    } else {
        match find_char(s.drop_first(), c) {
            Some(i) => Some(i + 1),
            None => None,
        }
    }
}

pub proof fn lemma_find_char(s: Seq<char>, c: char)
    ensures
        find_char(s, c) matches Some(i) ==> 0 <= i < s.len() && s[i] == c && forall|j: int| 0 <= j < i ==> s[j] != c,
        find_char(s, c) is None ==> forall|j: int| 0 <= j < s.len() ==> s[j] != c,
    decreases s.len(),
{
    if s.len() > 0 {
        lemma_find_char(s.drop_first(), c);
        if s[0] != c {
            assert forall|j: int| 1 <= j < s.len() implies s[j] == s.drop_first()[j - 1] by {}
        }
    }
}

pub fn find_char_index(s: &[char], c: char) -> (r: Option<usize>)
    ensures
        match find_char(s@, c) {
            Some(i) => r is Some && r->Some_0 == i,
            None => r is None,
        },
        r matches Some(i) ==> i < s@.len() && s@[i as int] == c,
{
    proof {
        lemma_find_char(s@, c);
    }
    let mut i: usize = 0;
    while i < s.len()
        invariant
            i <= s@.len(),
            forall|j: int| 0 <= j < i ==> s@[j] != c,
        decreases s@.len() - i,
    {
        if s[i] == c {
            proof {
                lemma_find_char(s@, c);
            }
            return Some(i);
        }
        i = i + 1;
    }
    None
}

/// The last index of `c` in `s`, if any.
pub open spec fn rfind_char(s: Seq<char>, c: char) -> Option<int>
    decreases s.len(),
{
    if s.len() == 0 {
        None
    } else if s.last() == c {
        Some(s.len() - 1)
    } else {
        rfind_char(s.drop_last(), c)
    }
}

pub proof fn lemma_rfind_char(s: Seq<char>, c: char)
    ensures
        rfind_char(s, c) matches Some(i) ==> 0 <= i < s.len() && s[i] == c && forall|j: int| i < j < s.len() ==> s[j] != c,
        rfind_char(s, c) is None ==> forall|j: int| 0 <= j < s.len() ==> s[j] != c,
    decreases s.len(),
{
    if s.len() > 0 {
        lemma_rfind_char(s.drop_last(), c);
        assert forall|j: int| 0 <= j < s.len() - 1 implies s[j] == s.drop_last()[j] by {}
    }
}

pub fn rfind_char_index(s: &[char], c: char) -> (r: Option<usize>)
    ensures
        match rfind_char(s@, c) {
            Some(i) => r is Some && r->Some_0 == i,
            None => r is None,
        },
        r matches Some(i) ==> i < s@.len() && s@[i as int] == c,
{
    proof {
        lemma_rfind_char(s@, c);
    }
    let mut i: usize = s.len();
    while i > 0
        invariant
            i <= s@.len(),
            forall|j: int| i <= j < s@.len() ==> s@[j] != c,
        decreases i,
    {
        if s[i - 1] == c {
            proof {
                lemma_rfind_char(s@, c);
            }
            return Some(i - 1);
        }
        i = i - 1;
    }
    None
}

/// The first index of a whitespace character in `s`, if any.
pub open spec fn find_space(s: Seq<char>) -> Option<int>
    decreases s.len(),
{
    if s.len() == 0 {
        None
    } else if is_space(s[0]) {
        Some(0)
    } else {
        match find_space(s.drop_first()) {
            Some(i) => Some(i + 1),
            None => None,
        }
    }
}

pub proof fn lemma_find_space(s: Seq<char>)
    ensures
        find_space(s) matches Some(i) ==> 0 <= i < s.len() && is_space(s[i]) && forall|j: int|
            0 <= j < i ==> !is_space(#[trigger] s[j]),
        find_space(s) is None ==> forall|j: int| 0 <= j < s.len() ==> !is_space(#[trigger] s[j]),
    decreases s.len(),
{
    if s.len() > 0 {
        lemma_find_space(s.drop_first());
        if !is_space(s[0]) {
            assert forall|j: int| 1 <= j < s.len() implies s[j] == s.drop_first()[j - 1] by {}
        }
    }
}

pub fn find_space_index(s: &[char]) -> (r: Option<usize>)
    ensures
        match find_space(s@) {
            Some(i) => r is Some && r->Some_0 == i,
            None => r is None,
        },
        r matches Some(i) ==> i < s@.len(),
{
    proof {
        lemma_find_space(s@);
    }
    let mut i: usize = 0;
    while i < s.len()
        invariant
            i <= s@.len(),
            forall|j: int| 0 <= j < i ==> !is_space(#[trigger] s@[j]),
        decreases s@.len() - i,
    {
        if is_space_char(s[i]) {
            proof {
                lemma_find_space(s@);
                assert(is_space(s@[i as int]));
            }
            return Some(i);
        }
        i = i + 1;
    }
    None
}

/// The first index at which `p` occurs in `s`, if any.
pub open spec fn find_seq(s: Seq<char>, p: Seq<char>) -> Option<int>
    decreases s.len(),
{
    if p.is_prefix_of(s) {
        Some(0)
    } else if s.len() == 0 {
        None
    } else {
        match find_seq(s.drop_first(), p) {
            Some(i) => Some(i + 1),
            None => None,
        }
    }
}

pub proof fn lemma_find_seq(s: Seq<char>, p: Seq<char>)
    ensures
        find_seq(s, p) matches Some(i) ==> 0 <= i && i + p.len() <= s.len() && p.is_prefix_of(s.skip(i)),
    decreases s.len(),
{
    if !p.is_prefix_of(s) && s.len() > 0 {
        lemma_find_seq(s.drop_first(), p);
        if let Some(i) = find_seq(s.drop_first(), p) {
            assert(s.drop_first().skip(i) =~= s.skip(i + 1));
        }
    } else if p.is_prefix_of(s) {
        assert(s.skip(0) =~= s);
    }
}

/// Whether `p` occurs in `s` at `i`.
fn matches_at(s: &[char], p: &[char], i: usize) -> (r: bool)
    requires
        i <= s@.len(),
    ensures
        r == p@.is_prefix_of(s@.skip(i as int)),
{
    let n = s.len();
    if p.len() > n - i {
        return false;
    }
    let mut j: usize = 0;
    while j < p.len()
        invariant
            n == s@.len(),
            i + p@.len() <= n,
            j <= p@.len(),
            forall|k: int| 0 <= k < j ==> p@[k] == s@[i + k],
        decreases p@.len() - j,
    {
        if p[j] != s[i + j] {
            assert(s@.skip(i as int)[j as int] == s@[i + j]);
            return false;
        }
        j = j + 1;
    }
    assert(s@.skip(i as int).subrange(0, p@.len() as int) =~= p@);
    true
}

/// The first index at which `p` occurs in `s`.
pub fn find_seq_index(s: &[char], p: &[char]) -> (r: Option<usize>)
    ensures
        match find_seq(s@, p@) {
            Some(i) => r is Some && r->Some_0 == i,
            None => r is None,
        },
{
    let mut i: usize = 0;
    assert(s@.skip(0) =~= s@);
    while i <= s.len()
        invariant
            i <= s@.len() + 1,
            i <= s@.len() ==> find_seq(s@, p@) == match find_seq(s@.skip(i as int), p@) {
                Some(k) => Some(k + i),
                None => None::<int>,
            },
            i > s@.len() ==> find_seq(s@, p@) is None,
        decreases s@.len() + 1 - i,
    {
        if matches_at(s, p, i) {
            return Some(i);
        }
        if i == s.len() {
            assert(s@.skip(i as int).len() == 0);
            return None;
        }
        assert(s@.skip(i as int).drop_first() =~= s@.skip(i + 1));
        i = i + 1;
    }
    None
}

/// The last index at which `p` occurs in `s`, if any.
pub open spec fn rfind_seq(s: Seq<char>, p: Seq<char>) -> Option<int>
    decreases s.len(),
{
    if p.len() <= s.len() && s.skip(s.len() - p.len()) == p {
        Some(s.len() - p.len())
    } else if s.len() == 0 {
        None
    } else {
        rfind_seq(s.drop_last(), p)
    }
}

pub proof fn lemma_rfind_seq(s: Seq<char>, p: Seq<char>)
    ensures
        rfind_seq(s, p) matches Some(i) ==> 0 <= i && i + p.len() <= s.len() && p.is_prefix_of(s.skip(i)),
    decreases s.len(),
{
    if p.len() <= s.len() && s.skip(s.len() - p.len()) == p {
        assert(s.skip(s.len() - p.len()).subrange(0, p.len() as int) =~= p);
    } else if s.len() > 0 {
        lemma_rfind_seq(s.drop_last(), p);
        if let Some(i) = rfind_seq(s.drop_last(), p) {
            assert(s.skip(i).subrange(0, p.len() as int) =~= s.drop_last().skip(i).subrange(0, p.len() as int));
        }
    }
}

/// The last index at which `p` occurs in `s`.
pub fn rfind_seq_index(s: &[char], p: &[char]) -> (r: Option<usize>)
    ensures
        match rfind_seq(s@, p@) {
            Some(i) => r is Some && r->Some_0 == i,
            None => r is None,
        },
{
    let mut end: usize = s.len();
    assert(s@.take(end as int) =~= s@);
    loop
        invariant
            end <= s@.len(),
            rfind_seq(s@, p@) == rfind_seq(s@.take(end as int), p@),
        decreases end,
    {
        let ghost t = s@.take(end as int);
        if p.len() <= end {
            let start = end - p.len();
            let hit = matches_at(s, p, start);
            assert(t.skip(t.len() - p@.len()) =~= s@.skip(start as int).subrange(0, p@.len() as int));
            if hit {
                return Some(start);
            }
        }
        if end == 0 {
            return None;
        }
        assert(t.drop_last() =~= s@.take(end - 1));
        end = end - 1;
    }
}

/// Whether two character strings are equal.
pub fn same_chars(a: &[char], b: &[char]) -> (r: bool)
    ensures
        r == (a@ == b@),
{
    if a.len() != b.len() {
        return false;
    }
    let mut i: usize = 0;
    while i < a.len()
        invariant
            i <= a@.len(),
            a@.len() == b@.len(),
            forall|j: int| 0 <= j < i ==> a@[j] == b@[j],
        decreases a@.len() - i,
    {
        if a[i] != b[i] {
            return false;
        }
        i = i + 1;
    }
    assert(a@ =~= b@);
    true
}

/// Whether `s` equals the literal `t`.
pub fn chars_equal_str(s: &[char], t: &str) -> (r: bool)
    ensures
        r == (s@ == t@),
{
    let tc = chars_of(t);
    same_chars(s, tc.as_slice())
}

/// Whether `s` starts with `p`.
pub fn starts_with_chars(s: &[char], p: &[char]) -> (r: bool)
    ensures
        r == p@.is_prefix_of(s@),
{
    if p.len() > s.len() {
        return false;
    }
    let mut i: usize = 0;
    while i < p.len()
        invariant
            i <= p@.len() <= s@.len(),
            forall|j: int| 0 <= j < i ==> p@[j] == s@[j],
        decreases p@.len() - i,
    {
        if p[i] != s[i] {
            return false;
        }
        i = i + 1;
    }
    true
}

/// Whether `s` ends with `p`.
pub open spec fn is_suffix(p: Seq<char>, s: Seq<char>) -> bool {
    p.len() <= s.len() && s.skip(s.len() - p.len()) == p
}

pub fn ends_with_chars(s: &[char], p: &[char]) -> (r: bool)
    ensures
        r == is_suffix(p@, s@),
{
    if p.len() > s.len() {
        return false;
    }
    let offset = s.len() - p.len();
    let mut i: usize = 0;
    while i < p.len()
        invariant
            offset == s@.len() - p@.len(),
            offset + p@.len() == s@.len(),
            s@.len() <= usize::MAX,
            i <= p@.len() <= s@.len(),
            forall|j: int| 0 <= j < i ==> p@[j] == s@[offset + j],
        decreases p@.len() - i,
    {
        if p[i] != s[offset + i] {
            assert(s@.skip(offset as int)[i as int] != p@[i as int]);
            return false;
        }
        i = i + 1;
    }
    assert(s@.skip(offset as int) =~= p@);
    true
}

/// Whether `p` occurs in `s`.
pub open spec fn contains_chars(s: Seq<char>, p: Seq<char>) -> bool {
    exists|i: int| 0 <= i <= s.len() - p.len() && #[trigger] s.subrange(i, i + p.len()) == p
}

pub fn contains_chars_exec(s: &[char], p: &[char]) -> (r: bool)
    ensures
        r == contains_chars(s@, p@),
{
    if p.len() > s.len() {
        return false;
    }
    let mut i: usize = 0;
    while i <= s.len() - p.len()
        invariant
            p@.len() <= s@.len(),
            i <= s@.len() - p@.len() + 1,
            forall|k: int| 0 <= k < i ==> #[trigger] s@.subrange(k, k + p@.len()) != p@,
        decreases s@.len() - p@.len() + 1 - i,
    {
        let mut j: usize = 0;
        let mut matched = true;
        while j < p.len()
            invariant
                i + p@.len() <= s@.len(),
                s@.len() <= usize::MAX,
                j <= p@.len(),
                matched == (forall|m: int| 0 <= m < j ==> p@[m] == s@[i + m]),
            decreases p@.len() - j,
        {
            if p[j] != s[i + j] {
                matched = false;
            }
            j = j + 1;
        }
        if matched {
            assert(s@.subrange(i as int, i + p@.len()) =~= p@);
            return true;
        } else {
            proof {
                let w = choose|m: int| 0 <= m < p@.len() && p@[m] != s@[i + m];
                assert(s@.subrange(i as int, i + p@.len())[w] != p@[w]);
            }
        }
        i = i + 1;
    }
    false
}

// ---------------------------------------------------------------------------
// Case and numbers
// ---------------------------------------------------------------------------

/// `s` with ASCII upper-case letters made lower-case.
pub open spec fn lower_all(s: Seq<char>) -> Seq<char> {
    s.map_values(|c: char| spec_lower(c))
}

pub fn lower_chars(s: &[char]) -> (v: Vec<char>)
    ensures
        v@ == lower_all(s@),
{
    let mut v: Vec<char> = Vec::new();
    let mut i: usize = 0;
    while i < s.len()
        invariant
            i <= s@.len(),
            v@ == lower_all(s@.take(i as int)),
        decreases s@.len() - i,
    {
        v.push(lower(s[i]));
        i = i + 1;
        assert(v@ =~= lower_all(s@.take(i as int)));
    }
    assert(s@.take(i as int) =~= s@);
    v
}

pub open spec fn is_digit(c: char) -> bool {
    '0' <= c && c <= '9'
}

/// The value of a string of decimal digits.
pub open spec fn digits_value(s: Seq<char>) -> nat
    decreases s.len(),
{
    if s.len() == 0 {
        0
    } else {
        digits_value(s.drop_last()) * 10 + ((s.last() as u32) - 48) as nat
    }
}

/// The digits that `str::parse` reads for an unsigned number: all of `s`, or what follows a
/// leading `+`.
pub open spec fn unsigned_digits(s: Seq<char>) -> Seq<char> {
    if s.len() > 1 && s[0] == '+' {
        s.drop_first()
    } else {
        s
    }
}

/// What `str::parse` gives for an unsigned integer type whose largest value is `max`: some
/// digits (after an optional `+`), whose value is at most `max`.
pub open spec fn parse_unsigned(s: Seq<char>, max: nat) -> Option<nat> {
    let d = unsigned_digits(s);
    if d.len() > 0 && (forall|i: int| 0 <= i < d.len() ==> #[trigger] is_digit(d[i])) && digits_value(d) <= max {
        Some(digits_value(d))
    } else {
        None
    }
}

proof fn lemma_digits_value_grows(s: Seq<char>, k: int)
    requires
        0 <= k <= s.len(),
        forall|i: int| 0 <= i < s.len() ==> #[trigger] is_digit(s[i]),
    ensures
        digits_value(s.take(k)) <= digits_value(s),
    decreases s.len() - k,
{
    if k < s.len() {
        lemma_digits_value_grows(s.drop_last(), k);
        assert(s.drop_last().take(k) =~= s.take(k));
    } else {
        assert(s.take(k) =~= s);
    }
}

/// Parses an unsigned decimal number no larger than `max`, as `str::parse` does.
pub fn parse_unsigned_chars(s: &[char], max: u64) -> (r: Option<u64>)
    ensures
        match parse_unsigned(s@, max as nat) {
            Some(v) => r == Some(v as u64),
            None => r is None,
        },
{
    let start: usize = if s.len() > 1 && s[0] == '+' { 1 } else { 0 };
    let ghost d = unsigned_digits(s@);
    assert(d =~= s@.skip(start as int));
    if start >= s.len() {
        return None;
    }
    let mut value: u64 = 0;
    let mut i: usize = start;
    while i < s.len()
        invariant
            start <= i <= s@.len(),
            d == s@.skip(start as int),
            d == unsigned_digits(s@),
            value <= max,
            forall|j: int| 0 <= j < i - start ==> #[trigger] is_digit(d[j]),
            value == digits_value(d.take(i - start)),
        decreases s@.len() - i,
    {
        let c = s[i];
        if !('0' <= c && c <= '9') {
            assert(!is_digit(d[i - start]));
            return None;
        }
        let digit = (c as u32 - 48) as u64;
        assert(d.take(i + 1 - start).drop_last() =~= d.take(i - start));
        if digit > max || value > (max - digit) / 10 {
            proof {
                assert(digits_value(d.take(i + 1 - start)) == value * 10 + digit);
                if digit <= max {
                    assert(value * 10 + digit > max) by (nonlinear_arith)
                        requires
                            value > (max - digit) / 10,
                            digit <= max,
                    ;
                }
                if forall|j: int| 0 <= j < d.len() ==> #[trigger] is_digit(d[j]) {
                    lemma_digits_value_grows(d, i + 1 - start);
                }
            }
            return None;
        }
        value = value * 10 + digit;
        i = i + 1;
    }
    assert(d.take(i - start) =~= d);
    Some(value)
}

// ---------------------------------------------------------------------------
// Words
// ---------------------------------------------------------------------------

/// The whitespace-separated words of `s` (what `str::split_whitespace` gives).
pub open spec fn words(s: Seq<char>) -> Seq<Seq<char>>
    decreases s.len(),
{
    proof {
        lemma_leading_bound(s);
    }
    let t = s.skip(leading_spaces(s) as int);
    if t.len() == 0 {
        seq![]
    } else {
        proof {
            lemma_find_space(t);
        }
        match find_space(t) {
            None => seq![t],
            Some(i) => if 0 < i {
                seq![t.take(i)] + words(t.skip(i))
            } else {
                seq![]
            },
        }
    }
}

/// Skipping whitespace from `pos` up to `p1`, where a word or the end starts.
proof fn lemma_words_skip(s: Seq<char>, pos: int, p1: int)
    requires
        0 <= pos <= p1 <= s.len(),
        forall|j: int| pos <= j < p1 ==> is_space(#[trigger] s[j]),
        p1 < s.len() ==> !is_space(s[p1]),
    ensures
        s.skip(pos).skip(leading_spaces(s.skip(pos)) as int) == s.skip(p1),
{
    let u = s.skip(pos);
    assert forall|j: int| 0 <= j < p1 - pos implies is_space(u[j]) by {
        assert(u[j] == s[pos + j]);
    }
    lemma_leading_spaces(u, p1 - pos);
    assert(u.skip(p1 - pos) =~= s.skip(p1));
    if p1 < s.len() {
        assert(s.skip(p1)[0] == s[p1]);
    }
    assert(leading_spaces(s.skip(p1)) == 0);
}

/// The word that starts at `p1` runs up to `p2`.
proof fn lemma_words_word(s: Seq<char>, p1: int, p2: int)
    requires
        0 <= p1 < p2 <= s.len(),
        forall|j: int| p1 <= j < p2 ==> !is_space(#[trigger] s[j]),
        p2 < s.len() ==> is_space(s[p2]),
    ensures
        p2 < s.len() ==> find_space(s.skip(p1)) == Some(p2 - p1),
        p2 == s.len() ==> find_space(s.skip(p1)) is None,
{
    let t = s.skip(p1);
    lemma_find_space(t);
    assert forall|j: int| 0 <= j < p2 - p1 implies !is_space(#[trigger] t[j]) by {
        assert(t[j] == s[p1 + j]);
    }
    if p2 < s.len() {
        assert(t[p2 - p1] == s[p2]);
    }
}

/// The whitespace-separated words of `s`.
pub fn words_of(s: &[char]) -> (v: Vec<Vec<char>>)
    ensures
        v@.map_values(|w: Vec<char>| w@) == words(s@),
{
    let mut v: Vec<Vec<char>> = Vec::new();
    let mut pos: usize = 0;
    assert(s@.skip(0) =~= s@);
    while pos < s.len()
        invariant
            pos <= s@.len(),
            words(s@) == v@.map_values(|w: Vec<char>| w@) + words(s@.skip(pos as int)),
        decreases s@.len() - pos,
    {
        let mut p1: usize = pos;
        while p1 < s.len() && is_space_char(s[p1])
            invariant
                pos <= p1 <= s@.len(),
                forall|j: int| pos <= j < p1 ==> is_space(#[trigger] s@[j]),
            decreases s@.len() - p1,
        {
            p1 = p1 + 1;
        }
        proof {
            lemma_words_skip(s@, pos as int, p1 as int);
        }
        let ghost before = v@.map_values(|w: Vec<char>| w@);
        if p1 == s.len() {
            assert(s@.skip(p1 as int).len() == 0);
            assert(words(s@.skip(pos as int)) =~= Seq::<Seq<char>>::empty());
            pos = p1;
            assert(words(s@.skip(pos as int)) =~= Seq::<Seq<char>>::empty());
            assert(words(s@) =~= v@.map_values(|w: Vec<char>| w@) + words(s@.skip(pos as int)));
        } else {
            let mut p2: usize = p1 + 1;
            while p2 < s.len() && !is_space_char(s[p2])
                invariant
                    p1 < p2 <= s@.len(),
                    !is_space(s@[p1 as int]),
                    forall|j: int| p1 <= j < p2 ==> !is_space(#[trigger] s@[j]),
                decreases s@.len() - p2,
            {
                p2 = p2 + 1;
            }
            proof {
                lemma_words_word(s@, p1 as int, p2 as int);
            }
            let ghost t = s@.skip(p1 as int);
            let word = copy_chars(s, p1, p2);
            assert(word@ =~= t.take(p2 - p1));
            assert(t.skip(p2 - p1) =~= s@.skip(p2 as int));
            if p2 == s.len() {
                assert(t.take(p2 - p1) =~= t);
                assert(words(s@.skip(p2 as int)) =~= Seq::<Seq<char>>::empty());
            }
            assert(words(s@.skip(pos as int)) =~= seq![word@] + words(s@.skip(p2 as int)));
            v.push(word);
            assert(v@.map_values(|w: Vec<char>| w@) =~= before.push(word@));
            pos = p2;
            assert(words(s@) =~= v@.map_values(|w: Vec<char>| w@) + words(s@.skip(pos as int)));
        }
    }
    assert(s@.skip(pos as int).len() == 0);
    assert(words(s@.skip(pos as int)) =~= Seq::<Seq<char>>::empty());
    assert(words(s@) =~= v@.map_values(|w: Vec<char>| w@));
    v
}

// ---------------------------------------------------------------------------
// Lines
// ---------------------------------------------------------------------------

/// `line` without a final carriage return.
pub open spec fn without_cr(line: Seq<char>) -> Seq<char> {
    if line.len() > 0 && line.last() == '\r' {
        line.drop_last()
    } else {
        line
    }
}

/// The lines of `s` (what `str::lines` gives): split at `\n`, each without a `\r` before its
/// `\n`; no empty line after a final `\n`.
pub open spec fn lines(s: Seq<char>) -> Seq<Seq<char>>
    decreases s.len(),
{
    if s.len() == 0 {
        seq![]
    } else {
        match find_char(s, '\n') {
            None => seq![s],
            Some(i) => {
                proof {
                    lemma_find_char(s, '\n');
                }
                seq![without_cr(s.take(i))] + lines(s.skip(i + 1))
            },
        }
    }
}

pub fn lines_of(s: &[char]) -> (v: Vec<Vec<char>>)
    ensures
        v@.map_values(|l: Vec<char>| l@) == lines(s@),
{
    let mut v: Vec<Vec<char>> = Vec::new();
    let mut start: usize = 0;
    assert(s@.skip(0) =~= s@);
    while start < s.len()
        invariant
            start <= s@.len(),
            lines(s@) == v@.map_values(|l: Vec<char>| l@) + lines(s@.skip(start as int)),
        decreases s@.len() - start,
    {
        let ghost rest = s@.skip(start as int);
        let tail = copy_chars(s, start, s.len());
        assert(tail@ =~= rest);
        let ghost before = v@;
        match find_char_index(tail.as_slice(), '\n') {
            None => {
                v.push(tail);
                assert(v@.map_values(|l: Vec<char>| l@) =~= before.map_values(|l: Vec<char>| l@) + lines(rest));
                start = s.len();
                assert(s@.skip(start as int) =~= Seq::<char>::empty());
            },
            Some(i) => {
                proof {
                    lemma_find_char(rest, '\n');
                }
                let mut end = start + i;
                if end > start && s[end - 1] == '\r' {
                    end = end - 1;
                }
                let line = copy_chars(s, start, end);
                assert(line@ =~= without_cr(rest.take(i as int)));
                v.push(line);
                assert(rest.skip(i + 1) =~= s@.skip(start + i + 1));
                assert(v@.map_values(|l: Vec<char>| l@) =~= before.map_values(|l: Vec<char>| l@) + seq![without_cr(rest.take(i as int))]);
                start = start + i + 1;
            },
        }
    }
    assert(s@.skip(start as int) =~= Seq::<char>::empty());
    assert(v@.map_values(|l: Vec<char>| l@) + Seq::<Seq<char>>::empty() =~= v@.map_values(|l: Vec<char>| l@));
    v
}

} // verus!
