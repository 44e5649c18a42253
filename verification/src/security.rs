//! Guards on what comes from outside: file names from Telegram, bot tokens
//! and URLs.
use vstd::prelude::*;

use crate::text::{
    byte_len, byte_length, chars_of, fit_count, fit_prefix, lemma_byte_len_concat,
    lemma_byte_len_take_mono, lemma_prefix_within, prefix_within, push_char, starts_with,
    str_starts_with, string_from_chars, string_from_range,
};

verus! {

/// `name` with every NUL character removed.
pub open spec fn remove_nul(s: Seq<char>) -> Seq<char>
    decreases s.len(),
{
    if s.len() == 0 {
        s
    } else if s.last() == '\0' {
        remove_nul(s.drop_last())
    } else {
        remove_nul(s.drop_last()).push(s.last())
    }
}

/// Index of the last occurrence of `c` in `s`, or -1.
pub open spec fn last_index_of(s: Seq<char>, c: char) -> int
    decreases s.len(),
{
    if s.len() == 0 {
        -1
    } else if s.last() == c {
        s.len() - 1
    } else {
        last_index_of(s.drop_last(), c)
    }
}

pub proof fn lemma_last_index_of_bounds(s: Seq<char>, c: char)
    ensures
        -1 <= last_index_of(s, c) < s.len(),
        last_index_of(s, c) >= 0 ==> s[last_index_of(s, c)] == c,
        forall|k: int| last_index_of(s, c) < k < s.len() ==> s[k] != c,
    decreases s.len(),
{
    if s.len() > 0 && s.last() != c {
        lemma_last_index_of_bounds(s.drop_last(), c);
        assert forall|k: int| last_index_of(s, c) < k < s.len() implies s[k] != c by {
            if k < s.len() - 1 {
                assert(s[k] == s.drop_last()[k]);
            }
        }
    }
}

/// If `s[start - 1]` is `c` (or `start` is 0) and `c` does not occur in
/// `s[start..]`, the last `c` is at `start - 1`.
pub proof fn lemma_last_index_of_at(s: Seq<char>, c: char, start: int)
    requires
        0 <= start <= s.len(),
        start == 0 || s[start - 1] == c,
        forall|k: int| start <= k < s.len() ==> s[k] != c,
    ensures
        last_index_of(s, c) == start - 1,
    decreases s.len(),
{
    if s.len() > 0 && start < s.len() {
        lemma_last_index_of_at(s.drop_last(), c, start);
    }
}

/// The final component of a path written with `/` separators, as
/// `Path::file_name` gives it on Unix: trailing separators and `.`
/// components are skipped; a final `..`, or no component at all, gives `None`.
pub open spec fn last_component(s: Seq<char>) -> Option<Seq<char>>
    decreases s.len(),
{
    if s.len() == 0 {
        None
    } else if s.last() == '/' {
        last_component(s.drop_last())
    } else {
        let start = last_index_of(s, '/') + 1;
        let seg = s.subrange(start, s.len() as int);
        if seg == seq!['.'] {
            proof {
                lemma_last_index_of_bounds(s, '/');
            }
            last_component(s.take(start))
        } else if seg == seq!['.', '.'] {
            None
        } else {
            Some(seg)
        }
    }
}

/// Characters that may not appear in a file name written to disk.
pub open spec fn is_forbidden(c: char) -> bool {
    c == '/' || c == '\\' || c == ':' || c == '*' || c == '?' || c == '"' || c == '<' || c
        == '>' || c == '|' || c == '\0'
}

pub open spec fn replace_forbidden(c: char) -> char {
    if is_forbidden(c) {
        '_'
    } else {
        c
    }
}

/// `s` with every forbidden character replaced by `_`.
pub open spec fn replace_all_forbidden(s: Seq<char>) -> Seq<char> {
    s.map_values(|c: char| replace_forbidden(c))
}

/// `s` without leading `.` characters.
pub open spec fn trim_leading_dots(s: Seq<char>) -> Seq<char>
    decreases s.len(),
{
    if s.len() > 0 && s[0] == '.' {
        trim_leading_dots(s.drop_first())
    } else {
        s
    }
}

/// `s` without trailing `.` characters.
pub open spec fn trim_trailing_dots(s: Seq<char>) -> Seq<char>
    decreases s.len(),
{
    if s.len() > 0 && s.last() == '.' {
        trim_trailing_dots(s.drop_last())
    } else {
        s
    }
}

/// `s.trim_matches('.')`.
pub open spec fn trim_dots(s: Seq<char>) -> Seq<char> {
    trim_trailing_dots(trim_leading_dots(s))
}

pub open spec fn unnamed() -> Seq<char> {
    seq!['u', 'n', 'n', 'a', 'm', 'e', 'd']
}

/// The name before shortening: NULs removed, final path component taken
/// (or `unnamed`), forbidden characters replaced, dots trimmed at both ends.
pub open spec fn cleaned_name(name: Seq<char>) -> Seq<char> {
    let base = match last_component(remove_nul(name)) {
        Some(c) => c,
        None => unnamed(),
    };
    trim_dots(replace_all_forbidden(base))
}

/// The extension that `Path::extension` finds in a name that neither starts
/// nor ends with a dot: what follows the last dot, or nothing.
pub open spec fn extension_of(t: Seq<char>) -> Seq<char> {
    let i = last_index_of(t, '.');
    if i < 0 {
        Seq::empty()
    } else {
        t.subrange(i + 1, t.len() as int)
    }
}

/// Whether a name over 200 bytes keeps its extension when cut: it has one,
/// of at most 10 bytes.
pub open spec fn keeps_ext(t: Seq<char>) -> bool {
    let e = extension_of(t);
    e.len() > 0 && byte_len(e) <= 10
}

/// How many bytes of a name over 200 bytes are kept before its extension:
/// 199 less the extension's length, counted up to 10 bytes.
pub open spec fn stem_budget(t: Seq<char>) -> int {
    let e = byte_len(extension_of(t));
    199 - (if e < 10 {
        e as int
    } else {
        10
    })
}

/// What `sanitize_filename` returns for `name`.
pub open spec fn sanitized(name: Seq<char>) -> Seq<char> {
    let t = cleaned_name(name);
    if t.len() == 0 {
        unnamed()
    } else if byte_len(t) <= 200 {
        t
    } else {
        shortened(t)
    }
}

/// A name over 200 bytes cut to fit: its longest prefix of `stem_budget`
/// bytes (cut between characters), then `.` and the extension when it is
/// kept; otherwise that prefix alone, without trailing dots.
pub open spec fn shortened(t: Seq<char>) -> Seq<char> {
    let stem = prefix_within(t, stem_budget(t));
    if keeps_ext(t) {
        stem + seq!['.'] + extension_of(t)
    } else {
        trim_trailing_dots(stem)
    }
}

fn remove_nul_chars(v: &Vec<char>) -> (w: Vec<char>)
    ensures
        w@ == remove_nul(v@),
{
    let mut w: Vec<char> = Vec::new();
    let mut i: usize = 0;
    while i < v.len()
        invariant
            i <= v.len(),
            w@ == remove_nul(v@.take(i as int)),
        decreases v.len() - i,
    {
        assert(v@.take(i as int + 1).drop_last() =~= v@.take(i as int));
        if v[i] != '\0' {
            w.push(v[i]);
        }
        i = i + 1;
    }
    assert(v@.take(v@.len() as int) =~= v@);
    w
}

/// The character range of the final path component of `v`.
fn last_component_range(v: &Vec<char>) -> (r: Option<(usize, usize)>)
    ensures
        match r {
            Some((a, b)) => a <= b <= v@.len() && last_component(v@) == Some(
                v@.subrange(a as int, b as int),
            ),
            None => last_component(v@) is None,
        },
{
    let mut end: usize = v.len();
    assert(v@.take(end as int) =~= v@);
    loop
        invariant
            end <= v@.len(),
            last_component(v@.take(end as int)) == last_component(v@),
        decreases end,
    {
        let ghost t = v@.take(end as int);
        if end == 0 {
            return None;
        }
        if v[end - 1] == '/' {
            assert(t.drop_last() =~= v@.take(end - 1));
            end = end - 1;
            continue;
        }
        let mut start: usize = end;
        while start > 0 && v[start - 1] != '/'
            invariant
                start <= end <= v@.len(),
                forall|k: int| start <= k < end ==> v@[k] != '/',
            decreases start,
        {
            start = start - 1;
        }
        proof {
            lemma_last_index_of_at(t, '/', start as int);
        }
        let ghost seg = t.subrange(start as int, end as int);
        assert(seg =~= v@.subrange(start as int, end as int));
        if end - start == 1 && v[start] == '.' {
            assert(seg =~= seq!['.']);
            assert(t.take(start as int) =~= v@.take(start as int));
            end = start;
            continue;
        }
        if end - start == 2 && v[start] == '.' && v[start + 1] == '.' {
            assert(seg =~= seq!['.', '.']);
            return None;
        }
        assert(seg != seq!['.']) by {
            if end - start == 1 {
                assert(seg[0] != '.');
            }
        }
        assert(seg != seq!['.', '.']) by {
            if end - start == 2 {
                assert(seg[0] != '.' || seg[1] != '.');
            }
        }
        return Some((start, end));
    }
}

fn copy_range(v: &Vec<char>, a: usize, b: usize) -> (w: Vec<char>)
    requires
        a <= b <= v.len(),
    ensures
        w@ == v@.subrange(a as int, b as int),
{
    let mut w: Vec<char> = Vec::new();
    let mut i = a;
    while i < b
        invariant
            a <= i <= b <= v.len(),
            w@ == v@.subrange(a as int, i as int),
        decreases b - i,
    {
        w.push(v[i]);
        i = i + 1;
        assert(w@ =~= v@.subrange(a as int, i as int));
    }
    w
}

fn unnamed_chars() -> (v: Vec<char>)
    ensures
        v@ == unnamed(),
{
    let v = vec!['u', 'n', 'n', 'a', 'm', 'e', 'd'];
    assert(v@ =~= unnamed());
    v
}

fn replace_forbidden_chars(v: &Vec<char>) -> (w: Vec<char>)
    ensures
        w@ == replace_all_forbidden(v@),
{
    let mut w: Vec<char> = Vec::new();
    let mut i: usize = 0;
    while i < v.len()
        invariant
            i <= v.len(),
            w@ == replace_all_forbidden(v@.take(i as int)),
        decreases v.len() - i,
    {
        let c = v[i];
        let d = if c == '/' || c == '\\' || c == ':' || c == '*' || c == '?' || c == '"' || c
            == '<' || c == '>' || c == '|' || c == '\0' {
            '_'
        } else {
            c
        };
        w.push(d);
        i = i + 1;
        assert(w@ =~= replace_all_forbidden(v@.take(i as int)));
    }
    assert(v@.take(v@.len() as int) =~= v@);
    w
}

proof fn lemma_trim_leading(s: Seq<char>, a: int)
    requires
        0 <= a <= s.len(),
        forall|k: int| 0 <= k < a ==> s[k] == '.',
        a == s.len() || s[a] != '.',
    ensures
        trim_leading_dots(s) == s.subrange(a, s.len() as int),
    decreases a,
{
    if a == 0 {
        assert(s.subrange(0, s.len() as int) =~= s);
    } else {
        lemma_trim_leading(s.drop_first(), a - 1);
        assert(s.drop_first().subrange(a - 1, s.len() - 1) =~= s.subrange(a, s.len() as int));
    }
}

proof fn lemma_trim_trailing(s: Seq<char>, b: int)
    requires
        0 <= b <= s.len(),
        forall|k: int| b <= k < s.len() ==> s[k] == '.',
        b == 0 || s[b - 1] != '.',
    ensures
        trim_trailing_dots(s) == s.take(b),
    decreases s.len() - b,
{
    if b == s.len() {
        assert(s.take(b) =~= s);
    } else {
        lemma_trim_trailing(s.drop_last(), b);
        assert(s.drop_last().take(b) =~= s.take(b));
    }
}

/// Bounds `a <= b` such that `v[a..b]` is `v` with dots trimmed at both ends.
fn trim_dot_bounds(v: &Vec<char>) -> (r: (usize, usize))
    ensures
        r.0 <= r.1 <= v@.len(),
        v@.subrange(r.0 as int, r.1 as int) == trim_dots(v@),
{
    let mut a: usize = 0;
    while a < v.len() && v[a] == '.'
        invariant
            a <= v.len(),
            forall|k: int| 0 <= k < a ==> v@[k] == '.',
        decreases v.len() - a,
    {
        a = a + 1;
    }
    let mut b: usize = v.len();
    while b > a && v[b - 1] == '.'
        invariant
            a <= b <= v.len(),
            forall|k: int| b <= k < v.len() ==> v@[k] == '.',
        decreases b,
    {
        b = b - 1;
    }
    proof {
        lemma_trim_leading(v@, a as int);
        let s = v@.subrange(a as int, v@.len() as int);
        lemma_trim_trailing(s, b - a);
        assert(s.take(b - a) =~= v@.subrange(a as int, b as int));
    }
    (a, b)
}

/// Index of the last `c` in `v`.
fn last_index(v: &Vec<char>, c: char) -> (r: Option<usize>)
    ensures
        match r {
            Some(i) => last_index_of(v@, c) == i,
            None => last_index_of(v@, c) == -1,
        },
{
    let mut i: usize = v.len();
    while i > 0 && v[i - 1] != c
        invariant
            i <= v.len(),
            forall|k: int| i <= k < v.len() ==> v@[k] != c,
        decreases i,
    {
        i = i - 1;
    }
    proof {
        lemma_last_index_of_at(v@, c, i as int);
    }
    if i == 0 {
        None
    } else {
        Some(i - 1)
    }
}

/// `shortened(t)`.
fn shorten(t_vec: &Vec<char>) -> (r: String)
    ensures
        r@ == shortened(t_vec@),
{
    let ghost t = t_vec@;
    proof {
        lemma_last_index_of_bounds(t, '.');
    }
    let (ext_from, has_ext) = match last_index(t_vec, '.') {
        Some(i) => {
            let n = t_vec.len();
            assert(last_index_of(t, '.') == i && i < n);
            (i + 1, true)
        },
        None => (t_vec.len(), false),
    };
    let ext = copy_range(t_vec, ext_from, t_vec.len());
    assert(has_ext ==> ext@ == extension_of(t));
    assert(!has_ext ==> ext@ =~= extension_of(t));
    let ext_bytes = byte_length(&ext);
    let capped: u128 = if ext_bytes < 10 {
        ext_bytes
    } else {
        10
    };
    let budget: u128 = 199 - capped;
    let j = fit_prefix(t_vec, budget);
    proof {
        lemma_prefix_within(t, budget as int);
    }
    if ext.len() > 0 && ext_bytes <= 10 {
        let mut out = string_from_range(t_vec, 0, j);
        assert(t_vec@.subrange(0, j as int) =~= t.take(j as int));
        push_char(&mut out, '.');
        let mut k: usize = 0;
        while k < ext.len()
            invariant
                k <= ext.len(),
                out@ == t.take(j as int) + seq!['.'] + ext@.take(k as int),
            decreases ext.len() - k,
        {
            push_char(&mut out, ext[k]);
            k = k + 1;
            assert(out@ =~= t.take(j as int) + seq!['.'] + ext@.take(k as int));
        }
        assert(ext@.take(ext@.len() as int) =~= ext@);
        out
    } else {
        let mut b: usize = j;
        while b > 0 && t_vec[b - 1] == '.'
            invariant
                b <= j <= t_vec.len(),
                forall|k: int| b <= k < j ==> t_vec@[k] == '.',
            decreases b,
        {
            b = b - 1;
        }
        proof {
            let stem = t.take(j as int);
            assert forall|k: int| b <= k < stem.len() implies stem[k] == '.' by {
                assert(stem[k] == t_vec@[k]);
            }
            if b > 0 {
                assert(stem[b - 1] == t_vec@[b - 1]);
            }
            lemma_trim_trailing(stem, b as int);
            assert(stem.take(b as int) =~= t_vec@.subrange(0, b as int));
        }
        string_from_range(t_vec, 0, b)
    }
}

/// A file name from Telegram made safe to write: NULs removed, only the final
/// path component kept, separators and other reserved characters replaced by
/// `_`, dots trimmed at both ends, `unnamed` when nothing is left, and a name
/// over 200 bytes cut between characters to fit in 200 bytes, keeping an
/// extension of at most 10 bytes.
pub fn sanitize_filename(name: &str) -> (r: String)
    ensures
        r@ == sanitized(name@),
{
    let v = chars_of(name);
    let w = remove_nul_chars(&v);
    let base = match last_component_range(&w) {
        Some((a, b)) => copy_range(&w, a, b),
        None => unnamed_chars(),
    };
    let m = replace_forbidden_chars(&base);
    let (a, b) = trim_dot_bounds(&m);
    let ghost t = cleaned_name(name@);
    assert(m@.subrange(a as int, b as int) == t);
    if a == b {
        let u = unnamed_chars();
        return string_from_chars(&u);
    }
    let t_vec = copy_range(&m, a, b);
    let n = byte_length(&t_vec);
    if n <= 200 {
        return string_from_chars(&t_vec);
    }
    shorten(&t_vec)
}

/// The mask shown in place of a bot token: its first and last four
/// characters around an ellipsis, or `****` for a token of at most 10
/// characters.
pub open spec fn masked(t: Seq<char>) -> Seq<char> {
    if t.len() <= 10 {
        seq!['*', '*', '*', '*']
    } else {
        t.take(4) + seq!['\u{2026}'] + t.skip(t.len() - 4)
    }
}

/// A bot token masked for display in logs and errors: the first and last four
/// characters around `…`, or `****` for a token of at most 10 characters.
pub fn mask_token(token: &str) -> (r: String)
    ensures
        r@ == masked(token@),
{
    let v = chars_of(token);
    if v.len() <= 10 {
        let s = String::from_str("****");
        proof {
            reveal_strlit("****");
        }
        assert(s@ =~= seq!['*', '*', '*', '*']);
        return s;
    }
    let mut s = string_from_range(&v, 0, 4);
    push_char(&mut s, '\u{2026}');
    let rest = string_from_range(&v, v.len() - 4, v.len());
    s.append(rest.as_str());
    assert(v@.subrange(0, 4) =~= v@.take(4));
    assert(v@.subrange(v@.len() - 4, v@.len() as int) =~= v@.skip(v@.len() - 4));
    s
}

/// `https://`.
pub open spec fn https_scheme() -> Seq<char> {
    seq!['h', 't', 't', 'p', 's', ':', '/', '/']
}

/// Whether `url` uses HTTPS.
pub fn validate_https_url(url: &str) -> (r: bool)
    ensures
        r == starts_with(url@, https_scheme()),
{
    proof {
        reveal_strlit("https://");
    }
    assert("https://"@ =~= https_scheme());
    str_starts_with(url, "https://")
}

pub open spec fn is_ascii_digit(c: char) -> bool {
    '0' <= c <= '9'
}

/// Characters allowed in the secret half of a bot token.
pub open spec fn is_secret_char(c: char) -> bool {
    ('0' <= c <= '9') || ('a' <= c <= 'z') || ('A' <= c <= 'Z') || c == '-' || c == '_'
}

/// `t` splits at `i` into a bot id and a secret: the id `t[..i]` is one or
/// more ASCII digits, `t[i]` is a colon, and the secret after it is non-empty
/// and made of ASCII letters, digits, `-` and `_`.
pub open spec fn token_split_at(t: Seq<char>, i: int) -> bool {
    &&& 0 < i
    &&& i + 1 < t.len()
    &&& t[i] == ':'
    &&& forall|k: int| 0 <= k < i ==> is_ascii_digit(t[k])
    &&& forall|k: int| i < k < t.len() ==> is_secret_char(t[k])
}

/// A bot token has the form `<digits>:<secret>` (see `token_split_at`).
pub open spec fn valid_token(t: Seq<char>) -> bool {
    exists|i: int| #[trigger] token_split_at(t, i)
}

/// Whether `token` has the shape of a bot token (`123456:ABCdef-_123`).
pub fn validate_token_format(token: &str) -> (r: bool)
    ensures
        r == valid_token(token@),
{
    let v = chars_of(token);
    let mut i: usize = 0;
    while i < v.len() && v[i] != ':'
        invariant
            i <= v.len(),
            v@ == token@,
            forall|k: int| 0 <= k < i ==> v@[k] != ':',
        decreases v.len() - i,
    {
        i = i + 1;
    }
    // Any split is at the first colon, since the id holds no colon.
    assert forall|w: int| #[trigger] token_split_at(token@, w) implies w == i by {
        if w < i {
            assert(v@[w] != ':');
        } else if w > i {
            assert(is_ascii_digit(token@[i as int]));
        }
    }
    if i == v.len() || i == 0 || i + 1 == v.len() {
        assert(!valid_token(token@)) by {
            if valid_token(token@) {
                let w = choose|w: int| token_split_at(token@, w);
                assert(w == i);
            }
        }
        return false;
    }
    let mut k: usize = 0;
    while k < i
        invariant
            k <= i < v.len(),
            v@ == token@,
            forall|w: int| #[trigger] token_split_at(token@, w) ==> w == i,
            forall|m: int| 0 <= m < k ==> is_ascii_digit(v@[m]),
        decreases i - k,
    {
        if !('0' <= v[k] && v[k] <= '9') {
            assert(!valid_token(token@)) by {
                if valid_token(token@) {
                    let w = choose|w: int| token_split_at(token@, w);
                    assert(w == i);
                    assert(is_ascii_digit(token@[k as int]));
                }
            }
            return false;
        }
        k = k + 1;
    }
    let mut k: usize = i + 1;
    while k < v.len()
        invariant
            i < k <= v.len(),
            v@ == token@,
            forall|w: int| #[trigger] token_split_at(token@, w) ==> w == i,
            forall|m: int| 0 <= m < i ==> is_ascii_digit(v@[m]),
            forall|m: int| i < m < k ==> is_secret_char(v@[m]),
        decreases v.len() - k,
    {
        let c = v[k];
        if !(('0' <= c && c <= '9') || ('a' <= c && c <= 'z') || ('A' <= c && c <= 'Z') || c
            == '-' || c == '_') {
            assert(!valid_token(token@)) by {
                if valid_token(token@) {
                    let w = choose|w: int| token_split_at(token@, w);
                    assert(w == i);
                    assert(is_secret_char(token@[k as int]));
                }
            }
            return false;
        }
        k = k + 1;
    }
    assert(token_split_at(token@, i as int));
    true
}

/// No character of `s` is one that may not appear in a file name.
pub open spec fn no_forbidden(s: Seq<char>) -> bool {
    forall|k: int| 0 <= k < s.len() ==> !is_forbidden(#[trigger] s[k])
}

/// A name that stays inside the directory it is written to: not empty, free
/// of separators, NUL and the other reserved characters, and neither starting
/// nor ending with a dot (so neither `.` nor `..`).
pub open spec fn is_safe_name(s: Seq<char>) -> bool {
    &&& s.len() > 0
    &&& no_forbidden(s)
    &&& s[0] != '.'
    &&& s.last() != '.'
}

proof fn lemma_trim_leading_dots_shape(s: Seq<char>)
    ensures
        trim_leading_dots(s).len() <= s.len(),
        trim_leading_dots(s) == s.subrange(s.len() - trim_leading_dots(s).len(), s.len() as int),
        trim_leading_dots(s).len() > 0 ==> trim_leading_dots(s)[0] != '.',
    decreases s.len(),
{
    if s.len() > 0 && s[0] == '.' {
        lemma_trim_leading_dots_shape(s.drop_first());
        let r = trim_leading_dots(s.drop_first());
        assert(s.drop_first().subrange(s.len() - 1 - r.len(), s.len() - 1) =~= s.subrange(
            s.len() - r.len(),
            s.len() as int,
        ));
    } else {
        assert(s.subrange(0, s.len() as int) =~= s);
    }
}

proof fn lemma_trim_trailing_dots_shape(s: Seq<char>)
    ensures
        trim_trailing_dots(s).len() <= s.len(),
        trim_trailing_dots(s) == s.take(trim_trailing_dots(s).len() as int),
        trim_trailing_dots(s).len() > 0 ==> trim_trailing_dots(s).last() != '.',
    decreases s.len(),
{
    if s.len() > 0 && s.last() == '.' {
        lemma_trim_trailing_dots_shape(s.drop_last());
        let r = trim_trailing_dots(s.drop_last());
        assert(s.drop_last().take(r.len() as int) =~= s.take(r.len() as int));
    } else {
        assert(s.take(s.len() as int) =~= s);
    }
}

proof fn lemma_trim_dots_safe(s: Seq<char>)
    requires
        no_forbidden(s),
    ensures
        trim_dots(s).len() > 0 ==> is_safe_name(trim_dots(s)),
{
    lemma_trim_leading_dots_shape(s);
    let l = trim_leading_dots(s);
    let a = s.len() - l.len();
    assert forall|k: int| 0 <= k < l.len() implies !is_forbidden(#[trigger] l[k]) by {
        assert(l[k] == s[a + k]);
    }
    lemma_trim_trailing_dots_shape(l);
    let t = trim_trailing_dots(l);
    assert forall|k: int| 0 <= k < t.len() implies !is_forbidden(#[trigger] t[k]) by {
        assert(t[k] == l[k]);
    }
    if t.len() > 0 {
        assert(t[0] == l[0]);
    }
}

proof fn lemma_replace_no_forbidden(s: Seq<char>)
    ensures
        no_forbidden(replace_all_forbidden(s)),
{
    let r = replace_all_forbidden(s);
    assert forall|k: int| 0 <= k < r.len() implies !is_forbidden(#[trigger] r[k]) by {
        assert(r[k] == replace_forbidden(s[k]));
    }
}

proof fn lemma_unnamed_safe()
    ensures
        is_safe_name(unnamed()),
        byte_len(unnamed()) == 7,
{
    let u = unnamed();
    assert forall|k: int| 0 <= k < u.len() implies (#[trigger] u[k] as u32) <= 0x7f by {
        assert(u[k] == 'u' || u[k] == 'n' || u[k] == 'a' || u[k] == 'm' || u[k] == 'e' || u[k]
            == 'd');
    }
    lemma_ascii_byte_len(u);
    assert forall|k: int| 0 <= k < u.len() implies !is_forbidden(#[trigger] u[k]) by {
        assert(u[k] == 'u' || u[k] == 'n' || u[k] == 'a' || u[k] == 'm' || u[k] == 'e' || u[k]
            == 'd');
    }
}

/// A name that does not start with a dot keeps at least one character when
/// its trailing dots go.
proof fn lemma_trim_trailing_keeps_first(s: Seq<char>)
    requires
        s.len() > 0,
        s[0] != '.',
    ensures
        trim_trailing_dots(s).len() > 0,
    decreases s.len(),
{
    if s.last() == '.' {
        assert(s.len() > 1);
        assert(s.drop_last()[0] == s[0]);
        lemma_trim_trailing_keeps_first(s.drop_last());
    }
}

proof fn lemma_shortened_safe(t: Seq<char>)
    requires
        is_safe_name(t),
        byte_len(t) > 200,
    ensures
        is_safe_name(shortened(t)),
        byte_len(shortened(t)) <= 200,
{
    let budget = stem_budget(t);
    lemma_prefix_within(t, budget);
    let j = fit_count(t, budget);
    let stem = prefix_within(t, budget);
    assert(j >= 1);
    assert forall|k: int| 0 <= k < stem.len() implies !is_forbidden(#[trigger] stem[k]) by {
        assert(stem[k] == t[k]);
    }
    lemma_last_index_of_bounds(t, '.');
    let i = last_index_of(t, '.');
    let ext = extension_of(t);
    if keeps_ext(t) {
        assert(i >= 0);
        assert(i < t.len() - 1);
        let r = stem + seq!['.'] + ext;
        assert(shortened(t) == r);
        assert forall|k: int| 0 <= k < r.len() implies !is_forbidden(#[trigger] r[k]) by {
            if k < j {
                assert(r[k] == stem[k]);
            } else if k == j {
                assert(r[k] == '.');
            } else {
                assert(r[k] == t[i + 1 + (k - j - 1)]);
            }
        }
        assert(r[0] == t[0]);
        assert(r.last() == t.last());
        let dot = seq!['.'];
        assert(dot.drop_first() =~= Seq::<char>::empty());
        assert(byte_len(dot) == 1) by {
            reveal_with_fuel(byte_len, 2);
        }
        lemma_byte_len_concat(stem, dot);
        lemma_byte_len_concat(stem + dot, ext);
    } else {
        let r = trim_trailing_dots(stem);
        assert(shortened(t) == r);
        lemma_trim_trailing_dots_shape(stem);
        assert(stem[0] == t[0]);
        lemma_trim_trailing_keeps_first(stem);
        assert forall|k: int| 0 <= k < r.len() implies !is_forbidden(#[trigger] r[k]) by {
            assert(r[k] == stem[k]);
        }
        assert(r[0] == stem[0]);
        assert(stem.take(stem.len() as int) =~= stem);
        lemma_byte_len_take_mono(stem, r.len() as int, stem.len() as int);
    }
}

/// Whatever name Telegram sends, the name `sanitize_filename` makes of it is
/// safe to write inside the output directory: it is not empty, holds no path
/// separator, NUL or other reserved character, neither starts nor ends with a
/// dot (so it is neither `.` nor `..`), and takes at most 200 bytes.
pub proof fn lemma_sanitized_is_safe(name: Seq<char>)
    ensures
        is_safe_name(sanitized(name)),
        byte_len(sanitized(name)) <= 200,
{
    let base = match last_component(remove_nul(name)) {
        Some(c) => c,
        None => unnamed(),
    };
    lemma_replace_no_forbidden(base);
    lemma_trim_dots_safe(replace_all_forbidden(base));
    let t = cleaned_name(name);
    if t.len() == 0 {
        lemma_unnamed_safe();
    } else if byte_len(t) > 200 {
        lemma_shortened_safe(t);
    }
}

proof fn lemma_remove_nul_identity(s: Seq<char>)
    requires
        no_forbidden(s),
    ensures
        remove_nul(s) == s,
    decreases s.len(),
{
    if s.len() > 0 {
        let d = s.drop_last();
        assert forall|k: int| 0 <= k < d.len() implies !is_forbidden(#[trigger] d[k]) by {
            assert(d[k] == s[k]);
        }
        lemma_remove_nul_identity(d);
        assert(!is_forbidden(s[s.len() - 1]));
        assert(d.push(s.last()) =~= s);
    }
}

/// A safe name comes out of the cleaning steps unchanged.
proof fn lemma_safe_name_clean(s: Seq<char>)
    requires
        is_safe_name(s),
    ensures
        cleaned_name(s) == s,
{
    lemma_remove_nul_identity(s);
    assert(!is_forbidden(s[s.len() - 1]));
    assert forall|k: int| 0 <= k < s.len() implies s[k] != '/' by {
        assert(!is_forbidden(s[k]));
    }
    lemma_last_index_of_at(s, '/', 0);
    assert(s.subrange(0, s.len() as int) =~= s);
    assert(s != seq!['.']) by {
        if s == seq!['.'] {
            assert(s[0] == '.');
        }
    }
    assert(s != seq!['.', '.']) by {
        if s == seq!['.', '.'] {
            assert(s[0] == '.');
        }
    }
    assert(last_component(s) == Some(s));
    assert(replace_all_forbidden(s) =~= s) by {
        assert forall|k: int| 0 <= k < s.len() implies replace_all_forbidden(s)[k] == s[k] by {
            assert(!is_forbidden(s[k]));
        }
    }
}

/// Sanitizing a name that `sanitize_filename` already gave back changes
/// nothing.
pub proof fn lemma_sanitize_idempotent(name: Seq<char>)
    ensures
        sanitized(sanitized(name)) == sanitized(name),
{
    lemma_sanitized_is_safe(name);
    lemma_safe_name_clean(sanitized(name));
}

/// `PathBuf::join` with `/` as the separator: an absolute `b` replaces `a`;
/// otherwise `b` follows `a`, with a `/` between them unless `a` is empty or
/// already ends with one.
pub open spec fn path_join(a: Seq<char>, b: Seq<char>) -> Seq<char> {
    if b.len() > 0 && b[0] == '/' {
        b
    } else if a.len() == 0 || a.last() == '/' {
        a + b
    } else {
        a + seq!['/'] + b
    }
}

/// Where `safe_output_path` puts `filename`: `output_dir/subdir/<name>`,
/// with `<name>` the sanitized file name.
pub open spec fn output_path(output_dir: Seq<char>, subdir: Seq<char>, filename: Seq<char>) -> Seq<
    char,
> {
    path_join(path_join(output_dir, subdir), sanitized(filename))
}

/// `a` joined with `b` as a path.
pub fn join_path(a: &str, b: &str) -> (r: String)
    ensures
        r@ == path_join(a@, b@),
{
    let vb = chars_of(b);
    if vb.len() > 0 && vb[0] == '/' {
        return string_from_chars(&vb);
    }
    let va = chars_of(a);
    let mut out = string_from_chars(&va);
    if va.len() > 0 && va[va.len() - 1] != '/' {
        push_char(&mut out, '/');
    }
    out.append(b);
    out
}

/// The path a file named `filename` is written to: the sanitized name inside
/// `output_dir/subdir`. A sanitized name is a single safe component, so the
/// path never leaves that directory.
pub fn safe_output_path(output_dir: &str, subdir: &str, filename: &str) -> (r: String)
    ensures
        r@ == output_path(output_dir@, subdir@, filename@),
{
    let safe_name = sanitize_filename(filename);
    let dir = join_path(output_dir, subdir);
    join_path(dir.as_str(), safe_name.as_str())
}

/// A file always lands directly inside `output_dir/subdir`, under its
/// sanitized name, which is a safe name of at most 200 bytes: it holds no
/// separator and is neither `.` nor `..`, so it names one entry of that
/// directory.
pub proof fn lemma_output_path_stays_in_dir(
    output_dir: Seq<char>,
    subdir: Seq<char>,
    filename: Seq<char>,
)
    ensures
        output_path(output_dir, subdir, filename) == path_join(
            path_join(output_dir, subdir),
            sanitized(filename),
        ),
        is_safe_name(sanitized(filename)),
        byte_len(sanitized(filename)) <= 200,
{
    lemma_sanitized_is_safe(filename);
}

/// Every character of `s` is ASCII.
pub open spec fn all_ascii(s: Seq<char>) -> bool {
    forall|k: int| 0 <= k < s.len() ==> (#[trigger] s[k] as u32) <= 0x7f
}

proof fn lemma_ascii_byte_len(s: Seq<char>)
    requires
        all_ascii(s),
    ensures
        byte_len(s) == s.len(),
    decreases s.len(),
{
    if s.len() > 0 {
        let d = s.drop_first();
        assert forall|k: int| 0 <= k < d.len() implies (#[trigger] d[k] as u32) <= 0x7f by {
            assert(d[k] == s[k + 1]);
        }
        lemma_ascii_byte_len(d);
        assert((s[0] as u32) <= 0x7f);
    }
}

/// The mask reveals at most eight characters of the token: a token of at
/// most 10 characters shows none (`****`); a longer one shows its first four
/// and last four, around `…`, and nothing in between.
pub proof fn lemma_mask_reveals_eight_chars(t: Seq<char>)
    ensures
        t.len() <= 10 ==> masked(t) == seq!['*', '*', '*', '*'],
        t.len() > 10 ==> masked(t).len() == 9,
        t.len() > 10 ==> forall|k: int|
            0 <= k < 9 ==> (#[trigger] masked(t)[k] == if k < 4 {
                t[k]
            } else if k == 4 {
                '\u{2026}'
            } else {
                t[t.len() - 9 + k]
            }),
{
}

/// Sanitizing changes only what it must: a name that is already one safe
/// component (not empty, at most 200 bytes, neither starting nor ending with
/// a dot, and free of `/`, `\`, `:`, `*`, `?`, `"`, `<`, `>`, `|` and NUL)
/// comes back unchanged; spaces and every other character are kept.
pub proof fn lemma_sanitize_keeps_safe_names(name: Seq<char>)
    requires
        name.len() > 0,
        byte_len(name) <= 200,
        name[0] != '.',
        name.last() != '.',
        forall|k: int|
            0 <= k < name.len() ==> {
                let c = #[trigger] name[k];
                c != '/' && c != '\\' && c != ':' && c != '*' && c != '?' && c != '"' && c != '<'
                    && c != '>' && c != '|' && c != '\0'
            },
    ensures
        sanitized(name) == name,
{
    assert forall|k: int| 0 <= k < name.len() implies !is_forbidden(#[trigger] name[k]) by {}
    lemma_safe_name_clean(name);
}

} // verus!
