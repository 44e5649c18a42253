//! One indexed file and how it is shown.
use vstd::prelude::*;

use crate::files::filter::FileType;
use crate::security::{sanitize_filename, sanitized};
use crate::text::{decimal, digit_char, push_char, push_decimal};

verus! {

/// A file found in a chat, as the index keeps it.
#[derive(Debug, Clone)]
pub struct FileEntry {
    pub file_id: String,
    pub file_unique_id: String,
    pub file_type: FileType,
    pub file_name: Option<String>,
    pub file_size: Option<u64>,
    pub mime_type: Option<String>,
    pub chat_id: i64,
    pub message_id: i64,
    pub date: i64,
    pub caption: Option<String>,
    pub downloaded: bool,
}

/// A `FileEntry` with its strings taken as character sequences.
pub struct EntryView {
    pub file_id: Seq<char>,
    pub file_unique_id: Seq<char>,
    pub file_type: FileType,
    pub file_name: Option<Seq<char>>,
    pub file_size: Option<u64>,
    pub mime_type: Option<Seq<char>>,
    pub chat_id: i64,
    pub message_id: i64,
    pub date: i64,
    pub caption: Option<Seq<char>>,
    pub downloaded: bool,
}

pub open spec fn opt_view(o: Option<String>) -> Option<Seq<char>> {
    match o {
        Some(s) => Some(s@),
        None => None,
    }
}

impl View for FileEntry {
    type V = EntryView;

    open spec fn view(&self) -> EntryView {
        EntryView {
            file_id: self.file_id@,
            file_unique_id: self.file_unique_id@,
            file_type: self.file_type,
            file_name: opt_view(self.file_name),
            file_size: self.file_size,
            mime_type: opt_view(self.mime_type),
            chat_id: self.chat_id,
            message_id: self.message_id,
            date: self.date,
            caption: opt_view(self.caption),
            downloaded: self.downloaded,
        }
    }
}

/// A copy of an optional string.
pub fn copy_opt(o: &Option<String>) -> (r: Option<String>)
    ensures
        r == *o,
{
    match o {
        Some(s) => Some(s.clone()),
        None => None,
    }
}

/// The extension given to a file of a kind that arrived without a name.
pub open spec fn default_ext_of(t: FileType) -> Seq<char> {
    match t {
        FileType::Pdf => seq!['p', 'd', 'f'],
        FileType::Image => seq!['j', 'p', 'g'],
        FileType::Video => seq!['m', 'p', '4'],
        FileType::Audio => seq!['m', 'p', '3'],
        FileType::Document => seq!['b', 'i', 'n'],
        FileType::Animation => seq!['g', 'i', 'f'],
        FileType::Voice => seq!['o', 'g', 'g'],
    }
}

/// The name an entry is shown and saved under, before sanitizing: its own
/// name, or `<file_unique_id>.<default extension>`.
pub open spec fn raw_name(e: EntryView) -> Seq<char> {
    match e.file_name {
        Some(n) => n,
        None => e.file_unique_id + seq!['.'] + default_ext_of(e.file_type),
    }
}


/// `n / d` rounded to the nearest integer, ties to even.
pub open spec fn div_round_even(n: nat, d: nat) -> nat
    recommends
        d > 0,
{
    let q = n / d;
    let r = n % d;
    if 2 * r > d || (2 * r == d && q % 2 == 1) {
        q + 1
    } else {
        q
    }
}

/// How many low bits `b` loses when converted to `f64` (53 significant bits).
pub open spec fn f64_shift(b: nat) -> nat
    decreases b,
{
    if b < 9007199254740992 {
        0
    } else {
        1 + f64_shift(b / 2)
    }
}

pub open spec fn pow2(k: nat) -> nat
    decreases k,
{
    if k == 0 {
        1
    } else {
        2 * pow2((k - 1) as nat)
    }
}

/// The value of `b as f64`: `b` rounded to 53 significant bits, ties to even.
pub open spec fn as_f64(b: nat) -> nat {
    let s = f64_shift(b);
    div_round_even(b, pow2(s)) * pow2(s)
}

/// `b / unit` as `{:.1}` prints it, counted in tenths: the exact quotient
/// rounded to one decimal, ties to even.
pub open spec fn tenths(b: nat, unit: nat) -> nat {
    div_round_even(as_f64(b) * 10, unit)
}

/// `t` tenths written with one decimal, such as `2.0`.
pub open spec fn one_decimal(t: nat) -> Seq<char> {
    decimal(t / 10) + seq!['.', digit_char(t % 10)]
}

/// A byte count for people: whole bytes below 1 KiB, otherwise KB, MB or GB
/// (powers of 1024) with one decimal.
pub open spec fn size_text(b: nat) -> Seq<char> {
    if b >= 1073741824 {
        one_decimal(tenths(b, 1073741824)) + seq![' ', 'G', 'B']
    } else if b >= 1048576 {
        one_decimal(tenths(b, 1048576)) + seq![' ', 'M', 'B']
    } else if b >= 1024 {
        one_decimal(tenths(b, 1024)) + seq![' ', 'K', 'B']
    } else {
        decimal(b) + seq![' ', 'B']
    }
}

pub proof fn lemma_pow2_pos(k: nat)
    ensures
        pow2(k) >= 1,
    decreases k,
{
    if k > 0 {
        lemma_pow2_pos((k - 1) as nat);
    }
}

fn round_even(n: u128, d: u128) -> (r: u128)
    requires
        d > 0,
        n / d < u128::MAX,
    ensures
        r == div_round_even(n as nat, d as nat),
        r <= n / d + 1,
{
    let q = n / d;
    let rem = n % d;
    if rem > d - rem || (rem == d - rem && q % 2 == 1) {
        q + 1
    } else {
        q
    }
}

/// `b as f64`, as an integer.
fn f64_value(b: u64) -> (r: u128)
    ensures
        r == as_f64(b as nat),
        r <= 18446744073709555712,
{
    let mut s: u32 = 0;
    let mut p: u128 = 1;
    let mut q: u64 = b;
    assert(b as nat / 1 == b as nat) by (nonlinear_arith);
    assert(pow2(0) == 1);
    while q >= 9007199254740992
        invariant
            q == b as nat / (p as nat),
            p == pow2(s as nat),
            p >= 1,
            f64_shift(b as nat) == s + f64_shift(q as nat),
            q as nat * p <= b,
            p < 4096,
            s < 64,
        decreases q,
    {
        proof {
            vstd::arithmetic::div_mod::lemma_div_denominator(b as int, p as int, 2);
        }
        assert(p < 2048) by (nonlinear_arith)
            requires
                q as nat * p <= b,
                q >= 9007199254740992,
                b <= 18446744073709551615,
        {};
        assert(s < 63) by {
            if s >= 63 {
                lemma_pow2_ge(s as nat, 11);
                reveal_with_fuel(pow2, 12);
            }
        };
        q = q / 2;
        s = s + 1;
        p = p * 2;
        assert(q as nat * p <= b) by (nonlinear_arith)
            requires
                q == b as nat / (p as nat),
                p >= 1,
        {};
    }
    proof {
        assert(f64_shift(q as nat) == 0);
    }
    assert(b as nat / (p as nat) <= b as nat) by (nonlinear_arith)
        requires
            p >= 1,
    {};
    let r = round_even(b as u128, p);
    assert(r * p <= 18446744073709555712) by (nonlinear_arith)
        requires
            r <= b as nat / (p as nat) + 1,
            p >= 1,
            b <= 18446744073709551615,
            p < 4096,
    {};
    r * p
}

proof fn lemma_pow2_ge(s: nat, k: nat)
    requires
        s >= k,
    ensures
        pow2(s) >= pow2(k),
    decreases s,
{
    if s > k {
        lemma_pow2_ge((s - 1) as nat, k);
        lemma_pow2_pos((s - 1) as nat);
    }
}

/// Writes `t` tenths as `<whole>.<tenth>` followed by `unit`.
fn push_tenths(out: &mut String, t: u128)
    requires
        t <= u64::MAX,
    ensures
        final(out)@ == old(out)@ + one_decimal(t as nat),
{
    let whole = (t / 10) as u64;
    push_decimal(out, whole);
    push_char(out, '.');
    let d = (t % 10) as u64;
    let mut one = String::new();
    push_decimal(&mut one, d);
    assert(decimal(d as nat) =~= seq![digit_char(d as nat)]);
    push_char(out, one.as_str().get_char(0));
    assert(final(out)@ =~= old(out)@ + one_decimal(t as nat));
}

/// Formats a byte count with one decimal in the largest fitting unit among
/// KB, MB and GB (powers of 1024), or as whole bytes below 1 KiB.
pub fn format_size(bytes: u64) -> (r: String)
    ensures
        r@ == size_text(bytes as nat),
{
    let mut out = String::new();
    if bytes < 1024 {
        push_decimal(&mut out, bytes);
        out.append(" B");
        proof {
            reveal_strlit(" B");
        }
        assert(out@ =~= size_text(bytes as nat));
        return out;
    }
    let v = f64_value(bytes);
    let unit: u128 = if bytes >= 1073741824 {
        1073741824
    } else if bytes >= 1048576 {
        1048576
    } else {
        1024
    };
    assert((v * 10) as int / (unit as int) < u128::MAX) by (nonlinear_arith)
        requires
            v <= 18446744073709555712,
            unit >= 1024,
    {};
    let t = round_even(v * 10, unit);
    assert(t <= u64::MAX) by (nonlinear_arith)
        requires
            t <= (v * 10) as int / (unit as int) + 1,
            v <= 18446744073709555712,
            unit >= 1024,
    {};
    push_tenths(&mut out, t);
    if bytes >= 1073741824 {
        out.append(" GB");
        proof {
            reveal_strlit(" GB");
        }
    } else if bytes >= 1048576 {
        out.append(" MB");
        proof {
            reveal_strlit(" MB");
        }
    } else {
        out.append(" KB");
        proof {
            reveal_strlit(" KB");
        }
    }
    assert(out@ =~= size_text(bytes as nat));
    out
}

impl FileEntry {
    /// A copy of the entry.
    pub fn duplicate(&self) -> (r: FileEntry)
        ensures
            r == *self,
    {
        FileEntry {
            file_id: self.file_id.clone(),
            file_unique_id: self.file_unique_id.clone(),
            file_type: self.file_type,
            file_name: copy_opt(&self.file_name),
            file_size: self.file_size,
            mime_type: copy_opt(&self.mime_type),
            chat_id: self.chat_id,
            message_id: self.message_id,
            date: self.date,
            caption: copy_opt(&self.caption),
            downloaded: self.downloaded,
        }
    }

    /// The extension for a file of this kind that arrived without a name.
    pub fn default_ext(&self) -> (r: &'static str)
        ensures
            r@ == default_ext_of(self.file_type),
    {
        match self.file_type {
            FileType::Pdf => {
                proof {
                    reveal_strlit("pdf");
                }
                "pdf"
            },
            FileType::Image => {
                proof {
                    reveal_strlit("jpg");
                }
                "jpg"
            },
            FileType::Video => {
                proof {
                    reveal_strlit("mp4");
                }
                "mp4"
            },
            FileType::Audio => {
                proof {
                    reveal_strlit("mp3");
                }
                "mp3"
            },
            FileType::Document => {
                proof {
                    reveal_strlit("bin");
                }
                "bin"
            },
            FileType::Animation => {
                proof {
                    reveal_strlit("gif");
                }
                "gif"
            },
            FileType::Voice => {
                proof {
                    reveal_strlit("ogg");
                }
                "ogg"
            },
        }
    }

    /// The name before sanitizing (see `raw_name`).
    pub fn raw_display_name(&self) -> (r: String)
        ensures
            r@ == raw_name(self@),
    {
        match &self.file_name {
            Some(n) => n.clone(),
            None => {
                let mut s = self.file_unique_id.clone();
                s.append(".");
                s.append(self.default_ext());
                proof {
                    reveal_strlit(".");
                }
                assert(s@ =~= raw_name(self@));
                s
            },
        }
    }

    /// The name the file is shown and saved under: its own name, or
    /// `<file_unique_id>.<default extension>`, sanitized.
    pub fn display_name(&self) -> (r: String)
        ensures
            r@ == sanitized(raw_name(self@)),
    {
        let raw = self.raw_display_name();
        sanitize_filename(raw.as_str())
    }

    /// The size for people (`format_size`), or `unknown`.
    pub fn display_size(&self) -> (r: String)
        ensures
            r@ == match self.file_size {
                Some(b) => size_text(b as nat),
                None => seq!['u', 'n', 'k', 'n', 'o', 'w', 'n'],
            },
    {
        match self.file_size {
            Some(size) => format_size(size),
            None => {
                let s = String::from_str("unknown");
                proof {
                    reveal_strlit("unknown");
                }
                assert(s@ =~= seq!['u', 'n', 'k', 'n', 'o', 'w', 'n']);
                s
            },
        }
    }
}

} // verus!
