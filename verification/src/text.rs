//! Character-level string helpers shared by the rest of the crate: the UTF-8
//! byte length of a character sequence, decimal rendering of integers, and
//! the few string operations that are built up character by character.
use vstd::prelude::*;

verus! {

/// Number of bytes that `c` takes in UTF-8 (what `char::len_utf8` returns).
pub open spec fn utf8_width(c: char) -> nat {
    if (c as u32) <= 0x7f {
        1
    } else if (c as u32) <= 0x7ff {
        2
    } else if (c as u32) <= 0xffff {
        3
    } else {
        4
    }
}

/// Number of bytes of the UTF-8 encoding of `s` (what `str::len` returns).
pub open spec fn byte_len(s: Seq<char>) -> nat
    decreases s.len(),
{
    if s.len() == 0 {
        0
    } else {
        utf8_width(s[0]) + byte_len(s.drop_first())
    }
}

/// `k` is a byte offset of `s` at which a character starts (or the end of `s`):
/// slicing a `str` at `k` does not panic.
pub open spec fn is_byte_boundary(s: Seq<char>, k: int) -> bool {
    exists|j: int| 0 <= j <= s.len() && #[trigger] byte_len(s.take(j)) == k
}

pub proof fn lemma_byte_len_concat(a: Seq<char>, b: Seq<char>)
    ensures
        byte_len(a + b) == byte_len(a) + byte_len(b),
    decreases a.len(),
{
    if a.len() == 0 {
        assert(a + b =~= b);
    } else {
        assert((a + b).drop_first() =~= a.drop_first() + b);
        lemma_byte_len_concat(a.drop_first(), b);
    }
}

pub proof fn lemma_byte_len_push(s: Seq<char>, c: char)
    ensures
        byte_len(s.push(c)) == byte_len(s) + utf8_width(c),
{
    lemma_byte_len_concat(s, seq![c]);
    assert(s + seq![c] =~= s.push(c));
    assert(seq![c].drop_first() =~= Seq::<char>::empty());
    assert(byte_len(Seq::<char>::empty()) == 0);
    assert(byte_len(seq![c]) == utf8_width(c));
}

/// The byte length of the first `j + 1` characters grows by the width of character `j`.
pub proof fn lemma_byte_len_take_step(s: Seq<char>, j: int)
    requires
        0 <= j < s.len(),
    ensures
        byte_len(s.take(j + 1)) == byte_len(s.take(j)) + utf8_width(s[j]),
{
    assert(s.take(j + 1) =~= s.take(j).push(s[j]));
    lemma_byte_len_push(s.take(j), s[j]);
}

/// Prefix byte lengths are strictly increasing in the number of characters.
pub proof fn lemma_byte_len_take_mono(s: Seq<char>, i: int, j: int)
    requires
        0 <= i <= j <= s.len(),
    ensures
        byte_len(s.take(i)) + (j - i) <= byte_len(s.take(j)),
    decreases j - i,
{
    if i < j {
        lemma_byte_len_take_mono(s, i, j - 1);
        lemma_byte_len_take_step(s, j - 1);
    }
}

/// Number of UTF-8 bytes of `c`.
pub fn char_width(c: char) -> (w: usize)
    ensures
        w == utf8_width(c),
{
    let u = c as u32;
    if u <= 0x7f {
        1
    } else if u <= 0x7ff {
        2
    } else if u <= 0xffff {
        3
    } else {
        4
    }
}

/// Calls `String::push`. Claimed, as std documents it: afterwards the string
/// is the one before with `c` appended.
#[verifier::external_body]
pub(crate) fn push_char(s: &mut String, c: char)
    ensures
        final(s)@ == old(s)@.push(c),
{
    s.push(c);
}

/// The characters of `s`, in order.
pub fn chars_of(s: &str) -> (v: Vec<char>)
    ensures
        v@ == s@,
{
    let mut v: Vec<char> = Vec::new();
    for c in it: s.chars()
        invariant
            it.seq() == s@,
            v@ == it.seq().take(it.index()),
    {
        v.push(c);
        assert(v@ == it.seq().take(it.index() + 1));
    }
    v
}

/// A `String` holding the characters `v[from..to]`.
pub fn string_from_range(v: &Vec<char>, from: usize, to: usize) -> (s: String)
    requires
        from <= to <= v.len(),
    ensures
        s@ == v@.subrange(from as int, to as int),
{
    let mut s = String::new();
    let mut i = from;
    while i < to
        invariant
            from <= i <= to <= v.len(),
            s@ == v@.subrange(from as int, i as int),
        decreases to - i,
    {
        push_char(&mut s, v[i]);
        i = i + 1;
        assert(s@ =~= v@.subrange(from as int, i as int));
    }
    s
}

/// A `String` holding the characters `v`.
pub fn string_from_chars(v: &Vec<char>) -> (s: String)
    ensures
        s@ == v@,
{
    let s = string_from_range(v, 0, v.len());
    assert(v@.subrange(0, v@.len() as int) =~= v@);
    s
}

/// Character-wise equality of two strings.
pub fn str_eq(a: &str, b: &str) -> (r: bool)
    ensures
        r == (a@ == b@),
{
    let va = chars_of(a);
    let vb = chars_of(b);
    if va.len() != vb.len() {
        return false;
    }
    let mut i: usize = 0;
    while i < va.len()
        invariant
            va@ == a@,
            vb@ == b@,
            va.len() == vb.len(),
            i <= va.len(),
            forall|k: int| 0 <= k < i ==> va@[k] == vb@[k],
        decreases va.len() - i,
    {
        if va[i] != vb[i] {
            return false;
        }
        i = i + 1;
    }
    assert(va@ =~= vb@);
    true
}

/// Whether `s` starts with `prefix`.
pub open spec fn starts_with(s: Seq<char>, prefix: Seq<char>) -> bool {
    prefix.len() <= s.len() && s.take(prefix.len() as int) == prefix
}

/// Whether `s` ends with `suffix`.
pub open spec fn ends_with(s: Seq<char>, suffix: Seq<char>) -> bool {
    suffix.len() <= s.len() && s.skip(s.len() - suffix.len()) == suffix
}

/// `str::starts_with` for a string prefix.
pub fn str_starts_with(s: &str, prefix: &str) -> (r: bool)
    ensures
        r == starts_with(s@, prefix@),
{
    let vs = chars_of(s);
    let vp = chars_of(prefix);
    if vp.len() > vs.len() {
        return false;
    }
    let mut i: usize = 0;
    while i < vp.len()
        invariant
            vs@ == s@,
            vp@ == prefix@,
            vp.len() <= vs.len(),
            i <= vp.len(),
            forall|k: int| 0 <= k < i ==> vs@[k] == vp@[k],
        decreases vp.len() - i,
    {
        if vs[i] != vp[i] {
            assert(s@.take(prefix@.len() as int)[i as int] != prefix@[i as int]);
            return false;
        }
        i = i + 1;
    }
    assert(s@.take(prefix@.len() as int) =~= prefix@);
    true
}

/// `str::ends_with` for a string suffix.
pub fn str_ends_with(s: &str, suffix: &str) -> (r: bool)
    ensures
        r == ends_with(s@, suffix@),
{
    let vs = chars_of(s);
    let vp = chars_of(suffix);
    if vp.len() > vs.len() {
        return false;
    }
    let off = vs.len() - vp.len();
    let mut i: usize = 0;
    while i < vp.len()
        invariant
            vs@ == s@,
            vp@ == suffix@,
            vp.len() <= vs.len(),
            off == vs.len() - vp.len(),
            i <= vp.len(),
            forall|k: int| 0 <= k < i ==> vs@[off + k] == vp@[k],
        decreases vp.len() - i,
    {
        if vs[off + i] != vp[i] {
            assert(s@.skip(off as int)[i as int] != suffix@[i as int]);
            return false;
        }
        i = i + 1;
    }
    assert(s@.skip(off as int) =~= suffix@);
    true
}

/// Number of UTF-8 bytes of the characters `v`.
pub fn byte_length(v: &Vec<char>) -> (n: u128)
    ensures
        n == byte_len(v@),
{
    let mut j: usize = 0;
    let mut acc: u128 = 0;
    while j < v.len()
        invariant
            j <= v.len(),
            acc == byte_len(v@.take(j as int)),
            acc <= 4 * j,
        decreases v.len() - j,
    {
        proof {
            lemma_byte_len_take_step(v@, j as int);
        }
        acc = acc + char_width(v[j]) as u128;
        j = j + 1;
    }
    assert(v@.take(v@.len() as int) =~= v@);
    acc
}

/// The character index `j` at which the first `j` characters of `v` take
/// exactly `k` bytes, or `None` when `k` is not a character boundary.
pub fn char_index_at_byte(v: &Vec<char>, k: u128) -> (r: Option<usize>)
    ensures
        r matches Some(j) ==> j <= v@.len() && byte_len(v@.take(j as int)) == k,
        r is None ==> !is_byte_boundary(v@, k as int),
{
    let mut j: usize = 0;
    let mut acc: u128 = 0;
    while j < v.len() && acc < k
        invariant
            j <= v.len(),
            acc == byte_len(v@.take(j as int)),
            acc <= 4 * j,
            j > 0 ==> byte_len(v@.take(j as int - 1)) < k,
        decreases v.len() - j,
    {
        proof {
            lemma_byte_len_take_step(v@, j as int);
        }
        acc = acc + char_width(v[j]) as u128;
        j = j + 1;
    }
    if acc == k {
        Some(j)
    } else {
        proof {
            assert forall|i: int| 0 <= i <= v@.len() implies #[trigger] byte_len(v@.take(i)) != k by {
                if i < j {
                    lemma_byte_len_take_mono(v@, i, j as int - 1);
                } else if i > j {
                    lemma_byte_len_take_mono(v@, j as int, i);
                }
            }
        }
        None
    }
}

/// The number of characters of `t` that take exactly `k` bytes.
pub open spec fn chars_in_bytes(t: Seq<char>, k: int) -> int {
    choose|j: int| 0 <= j <= t.len() && #[trigger] byte_len(t.take(j)) == k
}

/// The character count that `chars_in_bytes` picks is the only one.
pub proof fn lemma_chars_in_bytes_unique(t: Seq<char>, k: int, j: int)
    requires
        0 <= j <= t.len(),
        byte_len(t.take(j)) == k,
    ensures
        chars_in_bytes(t, k) == j,
{
    let jj = chars_in_bytes(t, k);
    assert(0 <= jj <= t.len() && byte_len(t.take(jj)) == k);
    if jj < j {
        lemma_byte_len_take_mono(t, jj, j);
    } else if j < jj {
        lemma_byte_len_take_mono(t, j, jj);
    }
}

/// The decimal digit character for `d < 10`.
pub open spec fn digit_char(d: nat) -> char {
    ((d + 48) as u32) as char
}

/// Decimal representation of a natural number, without leading zeros.
pub open spec fn decimal(n: nat) -> Seq<char>
    decreases n,
{
    if n < 10 {
        seq![digit_char(n)]
    } else {
        decimal(n / 10).push(digit_char(n % 10))
    }
}

/// Decimal representation of an integer, with a leading `-` when negative.
pub open spec fn signed_decimal(n: int) -> Seq<char> {
    if n < 0 {
        seq!['-'] + decimal((-n) as nat)
    } else {
        decimal(n as nat)
    }
}

fn digit(d: u64) -> (c: char)
    requires
        d < 10,
    ensures
        c == digit_char(d as nat),
{
    if d == 0 { '0' }
    else if d == 1 { '1' }
    else if d == 2 { '2' }
    else if d == 3 { '3' }
    else if d == 4 { '4' }
    else if d == 5 { '5' }
    else if d == 6 { '6' }
    else if d == 7 { '7' }
    else if d == 8 { '8' }
    else { '9' }
}

/// Appends the decimal representation of `n` to `s`.
pub fn push_decimal(s: &mut String, n: u64)
    ensures
        final(s)@ == old(s)@ + decimal(n as nat),
    decreases n,
{
    if n < 10 {
        push_char(s, digit(n));
        assert(old(s)@.push(digit_char(n as nat)) =~= old(s)@ + decimal(n as nat));
    } else {
        push_decimal(s, n / 10);
        push_char(s, digit(n % 10));
        assert(old(s)@ + decimal(n as nat) =~= old(s)@ + decimal((n / 10) as nat) + seq![
            digit_char((n % 10) as nat),
        ]);
    }
}

/// Decimal representation of `n` (`n.to_string()`).
pub fn u64_to_decimal(n: u64) -> (s: String)
    ensures
        s@ == decimal(n as nat),
{
    let mut s = String::new();
    push_decimal(&mut s, n);
    assert(Seq::<char>::empty() + decimal(n as nat) =~= decimal(n as nat));
    s
}

/// Decimal representation of `n` (`n.to_string()`).
pub fn i64_to_decimal(n: i64) -> (s: String)
    ensures
        s@ == signed_decimal(n as int),
{
    let mut s = String::new();
    if n < 0 {
        push_char(&mut s, '-');
        let m: u64 = if n == i64::MIN {
            9223372036854775808u64
        } else {
            (-n) as u64
        };
        push_decimal(&mut s, m);
    } else {
        push_decimal(&mut s, n as u64);
        assert(Seq::<char>::empty() + decimal(n as nat) =~= decimal(n as nat));
    }
    s
}

pub open spec fn is_digit_char(c: char) -> bool {
    '0' <= c <= '9'
}

/// The value of a string of decimal digits.
pub open spec fn digits_value(s: Seq<char>) -> int
    decreases s.len(),
{
    if s.len() == 0 {
        0
    } else {
        digits_value(s.drop_last()) * 10 + (s.last() as int - '0' as int)
    }
}

/// `s` is a non-empty string of ASCII decimal digits.
pub open spec fn all_digits(s: Seq<char>) -> bool {
    s.len() > 0 && forall|i: int| 0 <= i < s.len() ==> is_digit_char(#[trigger] s[i])
}

/// What `str::parse::<i64>` gives for `s`: an optional sign and at least one
/// ASCII digit, within the range of `i64`; `None` otherwise.
pub open spec fn parsed_i64(s: Seq<char>) -> Option<i64> {
    let neg = s.len() > 0 && s[0] == '-';
    let body = if s.len() > 0 && (s[0] == '-' || s[0] == '+') {
        s.drop_first()
    } else {
        s
    };
    let v = if neg {
        -digits_value(body)
    } else {
        digits_value(body)
    };
    if all_digits(body) && i64::MIN <= v <= i64::MAX {
        Some(v as i64)
    } else {
        None
    }
}

proof fn lemma_digits_value_grows(s: Seq<char>, k: int)
    requires
        0 <= k <= s.len(),
        forall|i: int| 0 <= i < s.len() ==> is_digit_char(#[trigger] s[i]),
    ensures
        digits_value(s.take(k)) <= digits_value(s),
        0 <= digits_value(s.take(k)),
    decreases s.len() - k,
{
    if k < s.len() {
        lemma_digits_value_grows(s, k + 1);
        assert(s.take(k + 1).drop_last() =~= s.take(k));
    } else {
        assert(s.take(k) =~= s);
        lemma_digits_value_nonneg(s);
    }
}

proof fn lemma_digits_value_nonneg(s: Seq<char>)
    requires
        forall|i: int| 0 <= i < s.len() ==> is_digit_char(#[trigger] s[i]),
    ensures
        0 <= digits_value(s),
    decreases s.len(),
{
    if s.len() > 0 {
        lemma_digits_value_nonneg(s.drop_last());
    }
}

/// `str::parse::<i64>` (see `parsed_i64`).
pub fn parse_i64(s: &str) -> (r: Option<i64>)
    ensures
        r == parsed_i64(s@),
{
    let v = chars_of(s);
    let n = v.len();
    let mut start: usize = 0;
    let mut neg = false;
    if n > 0 && (v[0] == '-' || v[0] == '+') {
        neg = v[0] == '-';
        start = 1;
    }
    let ghost body = if s@.len() > 0 && (s@[0] == '-' || s@[0] == '+') {
        s@.drop_first()
    } else {
        s@
    };
    assert(body =~= v@.subrange(start as int, n as int));
    if start == n {
        assert(body.len() == 0);
        assert(!all_digits(body));
        return None;
    }
    let mut acc: i128 = 0;
    let mut i: usize = start;
    while i < n
        invariant
            start <= i <= n,
            n == v@.len(),
            v@ == s@,
            body == v@.subrange(start as int, n as int),
            body == if s@.len() > 0 && (s@[0] == '-' || s@[0] == '+') {
                s@.drop_first()
            } else {
                s@
            },
            neg == (s@.len() > 0 && s@[0] == '-'),
            forall|k: int| start <= k < i ==> is_digit_char(#[trigger] v@[k]),
            acc == digits_value(body.take(i - start)),
            0 <= acc <= 9223372036854775808,
        decreases n - i,
    {
        let c = v[i];
        if !('0' <= c && c <= '9') {
            assert(!all_digits(body)) by {
                assert(body[i - start] == c);
                assert(!is_digit_char(body[i - start]));
            }
            return None;
        }
        let d = (c as u32 - '0' as u32) as i128;
        assert(body.take(i + 1 - start).drop_last() =~= body.take(i - start));
        acc = acc * 10 + d;
        i = i + 1;
        if acc > 9223372036854775808 {
            proof {
                if all_digits(body) {
                    lemma_digits_value_grows(body, i - start);
                }
            }
            return None;
        }
    }
    assert(body.take(n - start) =~= body);
    assert(all_digits(body));
    if neg {
        Some((-acc) as i64)
    } else if acc <= 9223372036854775807 {
        Some(acc as i64)
    } else {
        None
    }
}

/// How many leading characters of `s` fit in `k` bytes.
pub open spec fn fit_count(s: Seq<char>, k: int) -> nat
    decreases s.len(),
{
    if s.len() == 0 || utf8_width(s[0]) > k {
        0
    } else {
        1 + fit_count(s.drop_first(), k - utf8_width(s[0]))
    }
}

/// The longest prefix of `s` that takes at most `k` bytes: `s` cut at the
/// last character boundary not past byte `k`.
pub open spec fn prefix_within(s: Seq<char>, k: int) -> Seq<char> {
    s.take(fit_count(s, k) as int)
}

/// The prefix fits, and it holds at least one character when a character
/// fits at all.
pub proof fn lemma_prefix_within(s: Seq<char>, k: int)
    requires
        k >= 0,
    ensures
        fit_count(s, k) <= s.len(),
        byte_len(prefix_within(s, k)) <= k,
        s.len() > 0 && k >= 4 ==> fit_count(s, k) >= 1,
    decreases s.len(),
{
    if s.len() > 0 && utf8_width(s[0]) <= k {
        lemma_prefix_within(s.drop_first(), k - utf8_width(s[0]));
        let f = fit_count(s, k);
        let p = s.take(f as int);
        assert(p.drop_first() =~= s.drop_first().take(f - 1));
        assert(p[0] == s[0]);
    } else {
        assert(s.take(0) =~= Seq::<char>::empty());
    }
}

/// The number of leading characters of `v` that fit in `k` bytes.
pub fn fit_prefix(v: &Vec<char>, k: u128) -> (j: usize)
    ensures
        j == fit_count(v@, k as int),
{
    let mut j: usize = 0;
    let mut left: u128 = k;
    assert(v@.skip(0) =~= v@);
    while j < v.len() && (char_width(v[j]) as u128) <= left
        invariant
            j <= v.len(),
            left <= k,
            fit_count(v@, k as int) == j + fit_count(v@.skip(j as int), left as int),
        decreases v.len() - j,
    {
        let w = char_width(v[j]) as u128;
        proof {
            let r = v@.skip(j as int);
            assert(r[0] == v@[j as int]);
            assert(r.drop_first() =~= v@.skip(j + 1));
        }
        left = left - w;
        j = j + 1;
    }
    proof {
        let r = v@.skip(j as int);
        if j < v.len() {
            assert(r[0] == v@[j as int]);
        } else {
            assert(r.len() == 0);
        }
    }
    j
}

} // verus!
