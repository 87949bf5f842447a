//! Publication timestamps from the Arch Linux Archive.
//!
//! The authoritative publication date of a version is the day it first
//! appeared in the archive, i.e. the earliest `/repos/YYYY/MM/DD/` snapshot
//! containing it. Probing daily snapshots would cost many requests per
//! package, so instead we read the package pool index
//! (`/packages/<first-letter>/<name>/`), whose per-file timestamps record
//! exactly when each version file entered the archive — the same date as its
//! first snapshot. One request per package.

use vstd::prelude::*;
use vstd::string::StringSliceAdditionalSpecFns;
use vstd::utf8::{decode_utf8, encode_utf8, valid_utf8};

use crate::date::{epoch_fits, epoch_from_date_time, epoch_spec, civil_steps, trunc_div, trunc_rem};
use crate::error::{Error, Result};
use crate::http::{FetchOutcome, HttpClient};
use crate::model::{Publication, PublicationBasis, UpgradeCandidate};
use crate::text::{chars_of, ends_with, ends_with_exec, push_char, push_str, starts_with,
    starts_with_exec, string_from_chars, string_of};

use super::PublicationSource;

verus! {

pub const DEFAULT_BASE_URL: &'static str = "https://archive.archlinux.org";

// ---------------------------------------------------------------------------
// Byte search
// ---------------------------------------------------------------------------

/// Whether `p` occurs in `s` at byte position `i`.
pub open spec fn occurs_at_bytes(s: Seq<u8>, p: Seq<u8>, i: int) -> bool {
    0 <= i && i + p.len() <= s.len() && s.subrange(i, i + p.len()) == p
}

/// `i` is the first position at or after `from` where `p` occurs in `s`.
pub open spec fn first_from(s: Seq<u8>, p: Seq<u8>, from: int, i: int) -> bool {
    &&& from <= i
    &&& occurs_at_bytes(s, p, i)
    &&& forall|k: int| from <= k < i ==> !occurs_at_bytes(s, p, k)
}

/// The first position at or after `from` where `p` occurs in `s`.
pub open spec fn find_bytes_spec(s: Seq<u8>, p: Seq<u8>, from: int) -> Option<int> {
    if exists|i: int| first_from(s, p, from, i) {
        Some(choose|i: int| first_from(s, p, from, i))
    } else {
        None
    }
}

proof fn lemma_first_from_unique(s: Seq<u8>, p: Seq<u8>, from: int, i: int, j: int)
    requires
        first_from(s, p, from, i),
        first_from(s, p, from, j),
    ensures
        i == j,
{
}

fn occurs_at_bytes_exec(s: &[u8], p: &Vec<u8>, i: usize) -> (r: bool)
    ensures
        r == occurs_at_bytes(s@, p@, i as int),
{
    if i > s.len() || p.len() > s.len() - i {
        return false;
    }
    let n = p.len();
    let sl = s.len();
    for j in 0..n
        invariant
            n == p@.len(),
            sl == s@.len(),
            i + n <= sl,
            forall|k: int| 0 <= k < j ==> s@[i + k] == p@[k],
    {
        if s[i + j] != p[j] {
            assert(s@.subrange(i as int, i + n)[j as int] != p@[j as int]);
            return false;
        }
    }
    assert(s@.subrange(i as int, i + n) =~= p@);
    true
}

/// The first position at or after `from` where `p` occurs in `s`.
fn find_bytes(s: &[u8], p: &Vec<u8>, from: usize) -> (r: Option<usize>)
    ensures
        match r {
            Some(i) => find_bytes_spec(s@, p@, from as int) == Some(i as int),
            None => find_bytes_spec(s@, p@, from as int) is None,
        },
{
    if from > s.len() {
        assert forall|k: int| !first_from(s@, p@, from as int, k) by {}
        return None;
    }
    let mut i = from;
    loop
        invariant
            from <= i <= s@.len(),
            forall|k: int| from <= k < i ==> !occurs_at_bytes(s@, p@, k),
        decreases s@.len() - i,
    {
        if occurs_at_bytes_exec(s, p, i) {
            assert(first_from(s@, p@, from as int, i as int));
            proof {
                let c = choose|k: int| first_from(s@, p@, from as int, k);
                lemma_first_from_unique(s@, p@, from as int, i as int, c);
            }
            return Some(i);
        }
        if i == s.len() {
            assert forall|k: int| !first_from(s@, p@, from as int, k) by {
                if first_from(s@, p@, from as int, k) {
                    assert(k <= i);
                }
            }
            return None;
        }
        i = i + 1;
    }
}

/// The bytes `s[lo..hi]`.
fn copy_bytes(s: &[u8], lo: usize, hi: usize) -> (r: Vec<u8>)
    requires
        lo <= hi <= s@.len(),
    ensures
        r@ == s@.subrange(lo as int, hi as int),
{
    let mut r: Vec<u8> = Vec::new();
    let mut i = lo;
    while i < hi
        invariant
            lo <= i <= hi <= s@.len(),
            r@ == s@.subrange(lo as int, i as int),
        decreases hi - i,
    {
        r.push(s[i]);
        i = i + 1;
    }
    r
}

// ---------------------------------------------------------------------------
// Percent-decoding
// ---------------------------------------------------------------------------

/// The value of an ASCII hex digit (`char::to_digit(16)`).
pub open spec fn hex_value(b: u8) -> Option<u8> {
    if 48 <= b <= 57 {
        Some((b - 48) as u8)
    } else if 97 <= b <= 102 {
        Some((b - 87) as u8)
    } else if 65 <= b <= 70 {
        Some((b - 55) as u8)
    } else {
        None
    }
}

fn hex_value_exec(b: u8) -> (r: Option<u8>)
    ensures
        r == hex_value(b),
{
    if 48 <= b && b <= 57 {
        Some(b - 48)
    } else if 97 <= b && b <= 102 {
        Some(b - 87)
    } else if 65 <= b && b <= 70 {
        Some(b - 55)
    } else {
        None
    }
}

/// Every `%XX` with two hex digits replaced by the byte it encodes; any
/// other byte, including a `%` not followed by two hex digits, kept.
pub open spec fn percent_decode_bytes(s: Seq<u8>) -> Seq<u8>
    decreases s.len(),
{
    if s.len() == 0 {
        seq![]
    } else if s[0] == 37 && s.len() > 2 && hex_value(s[1]) is Some && hex_value(s[2]) is Some {
        seq![(hex_value(s[1])->0 * 16 + hex_value(s[2])->0) as u8] + percent_decode_bytes(
            s.skip(3),
        )
    } else {
        seq![s[0]] + percent_decode_bytes(s.drop_first())
    }
}

/// The text `String::from_utf8_lossy` makes of `b`: invalid sequences
/// become U+FFFD.
pub uninterp spec fn utf8_lossy(b: Seq<u8>) -> Seq<char>;

/// `String::from_utf8_lossy`, owned. For valid UTF-8 the text is exactly
/// what the bytes encode (as its documentation states).
#[verifier::external_body]
fn string_from_utf8_lossy(b: &[u8]) -> (r: String)
    ensures
        r@ == utf8_lossy(b@),
        valid_utf8(b@) ==> r@ == decode_utf8(b@),
{
    String::from_utf8_lossy(b).into_owned()
}

/// The decoded form of an index href.
pub open spec fn decoded_href(b: Seq<u8>) -> Seq<char> {
    utf8_lossy(percent_decode_bytes(b))
}

/// Minimal percent-decoding for index hrefs; invalid sequences pass through.
fn percent_decode(input: &[u8]) -> (r: String)
    ensures
        r@ == decoded_href(input@),
{
    let n = input.len();
    let mut out: Vec<u8> = Vec::new();
    let mut i: usize = 0;
    assert(input@.skip(0) == input@);
    while i < n
        invariant
            n == input@.len(),
            i <= n,
            out@ + percent_decode_bytes(input@.skip(i as int)) == percent_decode_bytes(input@),
        decreases n - i,
    {
        let ghost rest = input@.skip(i as int);
        if input[i] == 37 && n - i > 2 {
            let hi = hex_value_exec(input[i + 1]);
            let lo = hex_value_exec(input[i + 2]);
            match (hi, lo) {
                (Some(h), Some(l)) => {
                    assert(rest[1] == input@[i + 1] && rest[2] == input@[i + 2]);
                    assert(rest.skip(3) == input@.skip(i + 3));
                    let ghost before = out@;
                    out.push(h * 16 + l);
                    assert(out@ == before + seq![(h * 16 + l) as u8]);
                    i = i + 3;
                    continue ;
                },
                _ => {},
            }
        }
        assert(rest.drop_first() == input@.skip(i + 1));
        assert(rest[0] == input@[i as int]);
        out.push(input[i]);
        i = i + 1;
    }
    assert(input@.skip(n as int) == Seq::<u8>::empty());
    assert(out@ == percent_decode_bytes(input@));
    string_from_utf8_lossy(out.as_slice())
}

// ---------------------------------------------------------------------------
// Timestamps
// ---------------------------------------------------------------------------

pub open spec fn is_digit_byte(b: u8) -> bool {
    48 <= b <= 57
}

/// The two-digit decimal number at `w[i..i + 2]`.
pub open spec fn num2(w: Seq<u8>, i: int) -> Option<int> {
    if 0 <= i && i + 2 <= w.len() && is_digit_byte(w[i]) && is_digit_byte(w[i + 1]) {
        Some(10 * (w[i] - 48) + (w[i + 1] - 48))
    } else {
        None
    }
}

/// The four-digit decimal number at `w[i..i + 4]`.
pub open spec fn num4(w: Seq<u8>, i: int) -> Option<int> {
    if 0 <= i && i + 4 <= w.len() && is_digit_byte(w[i]) && is_digit_byte(w[i + 1])
        && is_digit_byte(w[i + 2]) && is_digit_byte(w[i + 3]) {
        Some(
            1000 * (w[i] - 48) + 100 * (w[i + 1] - 48) + 10 * (w[i + 2] - 48) + (w[i + 3] - 48),
        )
    } else {
        None
    }
}

/// Whether byte `i` of `w` is `c`.
pub open spec fn sep_at(w: Seq<u8>, i: int, c: u8) -> bool {
    0 <= i < w.len() && w[i] == c
}

fn num2_exec(w: &[u8], i: usize) -> (r: Option<i64>)
    ensures
        match r {
            Some(v) => num2(w@, i as int) == Some(v as int),
            None => num2(w@, i as int) is None,
        },
{
    if i <= w.len() && 2 <= w.len() - i && 48 <= w[i] && w[i] <= 57 && 48 <= w[i + 1] && w[i + 1]
        <= 57 {
        Some(10 * (w[i] - 48) as i64 + (w[i + 1] - 48) as i64)
    } else {
        None
    }
}

fn num4_exec(w: &[u8], i: usize) -> (r: Option<i64>)
    ensures
        match r {
            Some(v) => num4(w@, i as int) == Some(v as int),
            None => num4(w@, i as int) is None,
        },
{
    if i <= w.len() && 4 <= w.len() - i && 48 <= w[i] && w[i] <= 57 && 48 <= w[i + 1] && w[i + 1]
        <= 57 && 48 <= w[i + 2] && w[i + 2] <= 57 && 48 <= w[i + 3] && w[i + 3] <= 57 {
        Some(
            1000 * (w[i] - 48) as i64 + 100 * (w[i + 1] - 48) as i64 + 10 * (w[i + 2] - 48) as i64
                + (w[i + 3] - 48) as i64,
        )
    } else {
        None
    }
}

fn sep_at_exec(w: &[u8], i: usize, c: u8) -> (r: bool)
    ensures
        r == sep_at(w@, i as int, c),
{
    i < w.len() && w[i] == c
}

/// Every date this parser can read converts without overflow.
proof fn lemma_small_date_fits(y: int, m: int, d: int, h: int, mi: int)
    requires
        0 <= y <= 9999,
        1 <= m <= 12,
        1 <= d <= 31,
        0 <= h <= 23,
        0 <= mi <= 59,
    ensures
        epoch_fits(y, m, d, h, mi),
        -1_000_000_000_000 <= epoch_spec(y, m, d, h, mi) <= 1_000_000_000_000,
{
    let (y1, era, yoe, mp, doy, doe, r) = civil_steps(y, m, d);
    assert(-1 <= y1 <= 9999);
    assert(-1 <= era <= 24) by (nonlinear_arith)
        requires
            era == y1 / 400,
            -1 <= y1 <= 9999,
    ;
    assert(0 <= yoe < 400) by (nonlinear_arith)
        requires
            era == y1 / 400,
            yoe == y1 - era * 400,
    ;
    assert(0 <= mp <= 11);
    assert(0 <= trunc_div(153 * mp + 2, 5) <= 337);
    assert(0 <= doy <= 400);
    assert(0 <= doe <= 200_000) by (nonlinear_arith)
        requires
            doe == yoe * 365 + yoe / 4 - yoe / 100 + doy,
            0 <= yoe < 400,
            0 <= doy <= 400,
    ;
    assert(-200_000 <= era * 146_097 <= 4_000_000) by (nonlinear_arith)
        requires
            -1 <= era <= 24,
    ;
    let days = r;
    assert(-1_000_000 <= days <= 5_000_000);
    assert(-100_000_000_000 <= days * 86_400 <= 500_000_000_000) by (nonlinear_arith)
        requires
            -1_000_000 <= days <= 5_000_000,
    ;
}

/// `YYYY-MM-DD HH:MM` at the start of `w`, as epoch seconds.
pub open spec fn iso_prefix(w: Seq<u8>) -> Option<int> {
    match (num4(w, 0), num2(w, 5), num2(w, 8), num2(w, 11), num2(w, 14)) {
        (Some(year), Some(month), Some(day), Some(hour), Some(minute)) => {
            if sep_at(w, 4, 45) && sep_at(w, 7, 45) && sep_at(w, 10, 32) && sep_at(w, 13, 58) && 1
                <= month <= 12 && 1 <= day <= 31 && hour <= 23 && minute <= 59 {
                Some(epoch_spec(year, month, day, hour, minute))
            } else {
                None
            }
        },
        _ => None,
    }
}

/// `YYYY-MM-DD HH:MM`.
fn parse_iso_prefix(text: &[u8]) -> (r: Option<i64>)
    ensures
        match r {
            Some(v) => iso_prefix(text@) == Some(v as int),
            None => iso_prefix(text@) is None,
        },
{
    let w = text;
    let year = match num4_exec(w, 0) {
        Some(v) => v,
        None => return None,
    };
    if !sep_at_exec(w, 4, 45) {
        return None;
    }
    let month = match num2_exec(w, 5) {
        Some(v) => v,
        None => return None,
    };
    if !sep_at_exec(w, 7, 45) {
        return None;
    }
    let day = match num2_exec(w, 8) {
        Some(v) => v,
        None => return None,
    };
    if !sep_at_exec(w, 10, 32) {
        return None;
    }
    let hour = match num2_exec(w, 11) {
        Some(v) => v,
        None => return None,
    };
    if !sep_at_exec(w, 13, 58) {
        return None;
    }
    let minute = match num2_exec(w, 14) {
        Some(v) => v,
        None => return None,
    };
    if !(1 <= month && month <= 12) || !(1 <= day && day <= 31) || hour > 23 || minute > 59 {
        return None;
    }
    proof {
        lemma_small_date_fits(year as int, month as int, day as int, hour as int, minute as int);
    }
    Some(epoch_from_date_time(year, month, day, hour, minute))
}

/// The month number (1-based) of a three-letter English month
/// abbreviation.
pub open spec fn month_number(a: u8, b: u8, c: u8) -> Option<int> {
    if (a, b, c) == (74u8, 97u8, 110u8) {
        Some(1)
    } else if (a, b, c) == (70u8, 101u8, 98u8) {
        Some(2)
    } else if (a, b, c) == (77u8, 97u8, 114u8) {
        Some(3)
    } else if (a, b, c) == (65u8, 112u8, 114u8) {
        Some(4)
    } else if (a, b, c) == (77u8, 97u8, 121u8) {
        Some(5)
    } else if (a, b, c) == (74u8, 117u8, 110u8) {
        Some(6)
    } else if (a, b, c) == (74u8, 117u8, 108u8) {
        Some(7)
    } else if (a, b, c) == (65u8, 117u8, 103u8) {
        Some(8)
    } else if (a, b, c) == (83u8, 101u8, 112u8) {
        Some(9)
    } else if (a, b, c) == (79u8, 99u8, 116u8) {
        Some(10)
    } else if (a, b, c) == (78u8, 111u8, 118u8) {
        Some(11)
    } else if (a, b, c) == (68u8, 101u8, 99u8) {
        Some(12)
    } else {
        None
    }
}

/// The English month abbreviations, in calendar order, three letters each.
pub open spec fn month_abbreviations() -> Seq<char> {
    "JanFebMarAprMayJunJulAugSepOctNovDec"@
}

/// Letter `k` (0, 1 or 2) of the abbreviation of month `m`, as a byte.
pub open spec fn abbreviation_byte(m: int, k: int) -> u8 {
    month_abbreviations()[3 * (m - 1) + k] as u8
}

/// The month table is the calendar: the three letters `a b c` name month
/// `m` exactly when `m` is between 1 and 12 and they are the English
/// abbreviation of the `m`-th month (`Jan` is 1, `Sep` 9, `Dec` 12).
pub proof fn lemma_month_numbers_follow_the_calendar(a: u8, b: u8, c: u8, m: int)
    ensures
        month_number(a, b, c) == Some(m) <==> (1 <= m <= 12 && a == abbreviation_byte(m, 0) && b
            == abbreviation_byte(m, 1) && c == abbreviation_byte(m, 2)),
{
    reveal_strlit("JanFebMarAprMayJunJulAugSepOctNovDec");
    assert(month_abbreviations().len() == 36);
    if 1 <= m <= 12 {
        assert(abbreviation_byte(m, 0) == month_abbreviations()[3 * m - 3] as u8);
    }
}

/// The two layouts an index page may date its rows in agree: a
/// `DD-Mon-YYYY HH:MM` stamp and a `YYYY-MM-DD HH:MM` stamp with the same
/// day, year, hour and minute digits, whose month is named by the
/// abbreviation in the first and written as two digits in the second, give
/// the same time (or both none, when a field is out of range).
pub proof fn lemma_date_layouts_agree(w: Seq<u8>, v: Seq<u8>, m: int)
    requires
        w.len() >= 17,
        v.len() >= 16,
        1 <= m <= 12,
        w[3] == abbreviation_byte(m, 0),
        w[4] == abbreviation_byte(m, 1),
        w[5] == abbreviation_byte(m, 2),
        v[5] == 48 + m / 10,
        v[6] == 48 + m % 10,
        w[0] == v[8] && w[1] == v[9],
        w[7] == v[0] && w[8] == v[1] && w[9] == v[2] && w[10] == v[3],
        w[12] == v[11] && w[13] == v[12],
        w[15] == v[14] && w[16] == v[15],
        w[2] == 45 && w[6] == 45 && w[11] == 32 && w[14] == 58,
        v[4] == 45 && v[7] == 45 && v[10] == 32 && v[13] == 58,
    ensures
        nginx_prefix(w) == iso_prefix(v),
{
    lemma_month_numbers_follow_the_calendar(w[3], w[4], w[5], m);
    assert(num2(v, 5) == Some(m));
    assert(num2(w, 0) == num2(v, 8));
    assert(num4(w, 7) == num4(v, 0));
    assert(num2(w, 12) == num2(v, 11));
    assert(num2(w, 15) == num2(v, 14));
}

/// `Jan` .. `Dec` as month numbers.
fn month_number_exec(a: u8, b: u8, c: u8) -> (r: Option<i64>)
    ensures
        match r {
            Some(v) => month_number(a, b, c) == Some(v as int),
            None => month_number(a, b, c) is None,
        },
{
    if a == 74 && b == 97 && c == 110 {
        Some(1)
    } else if a == 70 && b == 101 && c == 98 {
        Some(2)
    } else if a == 77 && b == 97 && c == 114 {
        Some(3)
    } else if a == 65 && b == 112 && c == 114 {
        Some(4)
    } else if a == 77 && b == 97 && c == 121 {
        Some(5)
    } else if a == 74 && b == 117 && c == 110 {
        Some(6)
    } else if a == 74 && b == 117 && c == 108 {
        Some(7)
    } else if a == 65 && b == 117 && c == 103 {
        Some(8)
    } else if a == 83 && b == 101 && c == 112 {
        Some(9)
    } else if a == 79 && b == 99 && c == 116 {
        Some(10)
    } else if a == 78 && b == 111 && c == 118 {
        Some(11)
    } else if a == 68 && b == 101 && c == 99 {
        Some(12)
    } else {
        None
    }
}

/// `DD-Mon-YYYY HH:MM` at the start of `w`, as epoch seconds.
pub open spec fn nginx_prefix(w: Seq<u8>) -> Option<int> {
    if w.len() < 16 {
        None
    } else {
        match (num2(w, 0), num4(w, 7), num2(w, 12), num2(w, 15)) {
            (Some(day), Some(year), Some(hour), Some(minute)) => {
                match month_number(w[3], w[4], w[5]) {
                    Some(month) => if sep_at(w, 2, 45) && sep_at(w, 6, 45) && sep_at(w, 11, 32)
                        && sep_at(w, 14, 58) && 1 <= day <= 31 && hour <= 23 && minute <= 59 {
                        Some(epoch_spec(year, month, day, hour, minute))
                    } else {
                        None
                    },
                    None => None,
                }
            },
            _ => None,
        }
    }
}

/// `DD-Mon-YYYY HH:MM`, e.g. `27-Mar-2024 15:44`.
fn parse_nginx_prefix(text: &[u8]) -> (r: Option<i64>)
    ensures
        match r {
            Some(v) => nginx_prefix(text@) == Some(v as int),
            None => nginx_prefix(text@) is None,
        },
{
    let w = text;
    if w.len() < 16 {
        return None;
    }
    let day = match num2_exec(w, 0) {
        Some(v) => v,
        None => return None,
    };
    if !sep_at_exec(w, 2, 45) {
        return None;
    }
    let month = match month_number_exec(w[3], w[4], w[5]) {
        Some(m) => m,
        None => return None,
    };
    if !sep_at_exec(w, 6, 45) {
        return None;
    }
    let year = match num4_exec(w, 7) {
        Some(v) => v,
        None => return None,
    };
    if !sep_at_exec(w, 11, 32) {
        return None;
    }
    let hour = match num2_exec(w, 12) {
        Some(v) => v,
        None => return None,
    };
    if !sep_at_exec(w, 14, 58) {
        return None;
    }
    let minute = match num2_exec(w, 15) {
        Some(v) => v,
        None => return None,
    };
    if !(1 <= day && day <= 31) || hour > 23 || minute > 59 {
        return None;
    }
    proof {
        lemma_small_date_fits(year as int, month as int, day as int, hour as int, minute as int);
    }
    Some(epoch_from_date_time(year, month, day, hour, minute))
}

/// A timestamp in either layout at the start of `w`.
pub open spec fn window_timestamp(w: Seq<u8>) -> Option<int> {
    match iso_prefix(w) {
        Some(t) => Some(t),
        None => nginx_prefix(w),
    }
}

/// Whether byte position `i` starts a character of the text (or ends it):
/// the test `str::is_char_boundary` makes.
pub open spec fn char_start(t: Seq<u8>, i: int) -> bool {
    i == 0 || i == t.len() || (0 <= i < t.len() && !(0x80 <= t[i] < 0xC0))
}

/// The first timestamp found at a start position in `from..t.len() - 15`;
/// positions inside a multi-byte character (where no ASCII timestamp can
/// start) are skipped.
pub open spec fn scan_from(t: Seq<u8>, from: int) -> Option<int>
    decreases t.len() - from,
{
    if from < 0 || from >= t.len() - 15 {
        None
    } else if !char_start(t, from) {
        scan_from(t, from + 1)
    } else {
        match window_timestamp(t.skip(from)) {
            Some(ts) => Some(ts),
            None => scan_from(t, from + 1),
        }
    }
}

/// Scan a line for the first timestamp pattern and convert it to epoch
/// seconds (UTC). Handles both `YYYY-MM-DD HH:MM` (Apache) and
/// `DD-Mon-YYYY HH:MM` (nginx autoindex, used by archive.archlinux.org).
/// Positions inside a multi-byte character, as in a non-ASCII anchor text,
/// are passed over.
fn scan_timestamp(text: &[u8]) -> (r: Option<i64>)
    ensures
        opt_int(r) == scan_from(text@, 0),
{
    let n = text.len();
    let stop: usize = if n > 15 {
        n - 15
    } else {
        0
    };
    let mut start: usize = 0;
    while start < stop
        invariant
            n == text@.len(),
            stop == (if n > 15 {
                n - 15
            } else {
                0
            }),
            start <= stop,
            scan_from(text@, 0) == scan_from(text@, start as int),
        decreases stop - start,
    {
        if start > 0 && 0x80 <= text[start] && text[start] < 0xC0 {
            start = start + 1;
            continue;
        }
        let window = copy_bytes(text, start, n);
        assert(window@ == text@.skip(start as int));
        match parse_iso_prefix(window.as_slice()) {
            Some(ts) => {
                return Some(ts);
            },
            None => {},
        }
        match parse_nginx_prefix(window.as_slice()) {
            Some(ts) => {
                return Some(ts);
            },
            None => {},
        }
        start = start + 1;
    }
    None
}

// ---------------------------------------------------------------------------
// Index pages
// ---------------------------------------------------------------------------

/// The bytes of `href="`.
pub open spec fn href_marker() -> Seq<u8> {
    seq![104u8, 114u8, 101u8, 102u8, 61u8, 34u8]
}

/// The smaller of two optional timestamps.
pub open spec fn earlier(a: Option<int>, b: Option<int>) -> Option<int> {
    match (a, b) {
        (Some(x), Some(y)) => Some(if x <= y {
            x
        } else {
            y
        }),
        (Some(x), None) => Some(x),
        (None, _) => b,
    }
}

/// The earliest timestamp of a matching file at or after byte `from` of the
/// page `h`, if any.
pub open spec fn index_walk(h: Seq<u8>, from: int, prefix: Seq<char>) -> Option<int>
    decreases h.len() - from,
{
    if from < 0 || from > h.len() {
        None
    } else {
        match find_bytes_spec(h, href_marker(), from) {
            None => None,
            Some(pos) => match find_bytes_spec(h, seq![34u8], pos + 6) {
                None => None,
                Some(end) => {
                    let d = decoded_href(h.subrange(pos + 6, end));
                    if end <= from {
                        None
                    } else if !starts_with(d, prefix) || ends_with(d, ".sig"@) {
                        index_walk(h, end, prefix)
                    } else {
                        let line_end = match find_bytes_spec(h, seq![10u8], end) {
                            Some(k) => k,
                            None => h.len() as int,
                        };
                        earlier(scan_from(h.subrange(end, line_end), 0), index_walk(h, end, prefix))
                    }
                },
            },
        }
    }
}

/// The text after the last `:` of `v` (all of `v` when there is none):
/// the version without its epoch.
pub open spec fn after_last_colon(v: Seq<char>) -> Seq<char>
    decreases v.len(),
{
    if v.len() == 0 {
        v
    } else if v.last() == ':' {
        seq![]
    } else {
        after_last_colon(v.drop_last()).push(v.last())
    }
}

/// `{name}-{version without epoch}-{arch}.pkg.tar.`
pub open spec fn file_prefix(name: Seq<char>, version: Seq<char>, arch: Seq<char>) -> Seq<char> {
    name + seq!['-'] + after_last_colon(version) + seq!['-'] + arch + ".pkg.tar."@
}

pub(crate) fn after_last_colon_exec(v: &Vec<char>) -> (r: Vec<char>)
    ensures
        r@ == after_last_colon(v@),
{
    let mut r: Vec<char> = Vec::new();
    let n = v.len();
    for i in 0..n
        invariant
            n == v@.len(),
            r@ == after_last_colon(v@.take(i as int)),
    {
        assert(v@.take(i + 1).drop_last() == v@.take(i as int));
        if v[i] == ':' {
            r = Vec::new();
        } else {
            r.push(v[i]);
        }
    }
    assert(v@.take(n as int) == v@);
    r
}

fn file_prefix_exec(name: &str, version: &str, arch: &str) -> (r: Vec<char>)
    ensures
        r@ == file_prefix(name@, version@, arch@),
{
    let mut s = string_of(name);
    push_char(&mut s, '-');
    let fv = after_last_colon_exec(&chars_of(version));
    let fvs = string_from_chars(&fv);
    push_str(&mut s, fvs.as_str());
    push_char(&mut s, '-');
    push_str(&mut s, arch);
    push_str(&mut s, ".pkg.tar.");
    chars_of(s.as_str())
}

/// One step of the index walk from `cursor`.
enum WalkStep {
    /// No further link.
    End,
    /// The next link ends at the first position; the second is the
    /// timestamp it contributes, if any.
    Next(usize, Option<i64>),
}

fn walk_step(h: &[u8], cursor: usize, prefix_chars: &Vec<char>) -> (r: WalkStep)
    requires
        cursor <= h@.len(),
    ensures
        match r {
            WalkStep::End => index_walk(h@, cursor as int, prefix_chars@) == None::<int>,
            WalkStep::Next(end, found) => cursor < end <= h@.len() && index_walk(
                h@,
                cursor as int,
                prefix_chars@,
            ) == earlier(opt_int(found), index_walk(h@, end as int, prefix_chars@)),
        },
{
    let ghost hb = h@;
    let ghost prefix = prefix_chars@;
    let sig = chars_of(".sig");
    let marker: Vec<u8> = vec![104, 114, 101, 102, 61, 34];
    let quote: Vec<u8> = vec![34];
    let newline: Vec<u8> = vec![10];
    assert(marker@ == href_marker());
    assert(quote@ == seq![34u8]);
    assert(newline@ == seq![10u8]);
    let pos = match find_bytes(h, &marker, cursor) {
        Some(p) => p,
        None => {
            return WalkStep::End;
        },
    };
    assert(first_from(hb, href_marker(), cursor as int, pos as int));
    assert(href_marker().len() == 6);
    let hl = h.len();
    assert(pos + 6 <= hl);
    let start = pos + 6;
    let end = match find_bytes(h, &quote, start) {
        Some(e) => e,
        None => {
            return WalkStep::End;
        },
    };
    assert(first_from(hb, seq![34u8], start as int, end as int));
    let href = copy_bytes(h, start, end);
    let decoded = percent_decode(href.as_slice());
    let dchars = chars_of(decoded.as_str());
    if !starts_with_exec(&dchars, &prefix_chars) || ends_with_exec(&dchars, &sig) {
        return WalkStep::Next(end, None);
    }
    let line_end = match find_bytes(h, &newline, end) {
        Some(k) => k,
        None => h.len(),
    };
    proof {
        if find_bytes_spec(hb, seq![10u8], end as int) is Some {
            let c = choose|i: int| first_from(hb, seq![10u8], end as int, i);
            assert(first_from(hb, seq![10u8], end as int, c));
        }
    }
    let line = copy_bytes(h, end, line_end);
    let found = scan_timestamp(line.as_slice());
    WalkStep::Next(end, found)
}

/// Walk the index page for the earliest matching timestamp.
fn walk_index(html: &str, name: &str, version: &str, arch: &str) -> (r: Option<i64>)
    ensures
        index_walk(html.spec_bytes(), 0, file_prefix(name@, version@, arch@)) == opt_int(r),
{
    let h = html.as_bytes();
    let ghost hb = html.spec_bytes();
    let ghost prefix = file_prefix(name@, version@, arch@);
    let prefix_chars = file_prefix_exec(name, version, arch);
    let mut earliest: Option<i64> = None;
    let mut cursor: usize = 0;
    loop
        invariant
            h@ == hb,
            hb == html.spec_bytes(),
            prefix == file_prefix(name@, version@, arch@),
            prefix_chars@ == prefix,
            cursor <= hb.len(),
            index_walk(hb, 0, prefix) == earlier(opt_int(earliest), index_walk(hb, cursor as int, prefix)),
        ensures
            index_walk(hb, 0, prefix) == opt_int(earliest),
        decreases hb.len() - cursor,
    {
        match walk_step(h, cursor, &prefix_chars) {
            WalkStep::End => {
                break ;
            },
            WalkStep::Next(end, found) => {
                if let Some(ts) = found {
                    earliest = match earliest {
                        Some(e) => Some(
                            if e <= ts {
                                e
                            } else {
                                ts
                            },
                        ),
                        None => Some(ts),
                    };
                }
                cursor = end;
            },
        }
    }
    earliest
}

/// An optional `i64` as an optional integer.
pub open spec fn opt_int(o: Option<i64>) -> Option<int> {
    match o {
        Some(v) => Some(v as int),
        None => None,
    }
}

/// Find the earliest index timestamp for `name-version` in an Apache-style
/// directory listing of the archive package pool.
///
/// Rows look like:
/// `<a href="linux-6.8.2.arch1-2-x86_64.pkg.tar.zst">...</a>  2024-03-27 15:44  227M`
///
/// Package file names omit the epoch, so `1:2.0-1` matches `2.0-1`.
pub fn parse_package_index(html: &str, name: &str, version: &str, arch: &str) -> (r: Option<i64>)
    ensures
        index_walk(html.spec_bytes(), 0, file_prefix(name@, version@, arch@)) == opt_int(r),
{
    walk_index(html, name, version, arch)
}

/// The publication an index page gives `name` at `version`: the earliest
/// matching file's time, unknown when the page is missing or lists no such
/// file.
pub open spec fn page_publication(page: FetchOutcome, name: Seq<char>, version: Seq<char>, arch: Seq<char>) -> Publication {
    match page {
        FetchOutcome::NotFound => Publication::unknown_spec(),
        FetchOutcome::Body(html) => match index_walk(encode_utf8(html@), 0, file_prefix(name, version, arch)) {
            None => Publication::unknown_spec(),
            Some(t) => Publication { published_at: Some(t as i64), basis: PublicationBasis::Archive },
        },
    }
}

/// [`page_publication`] of a fetched index page.
pub fn publication_from_page(page: &FetchOutcome, name: &str, version: &str, arch: &str) -> (r:
    Publication)
    ensures
        r == page_publication(*page, name@, version@, arch@),
{
    match page {
        FetchOutcome::NotFound => Publication::unknown(),
        FetchOutcome::Body(html) => match walk_index(html.as_str(), name, version, arch) {
            None => Publication::unknown(),
            Some(ts) => Publication::known(ts, PublicationBasis::Archive),
        },
    }
}

pub struct ArchivePublicationSource<'a, H: HttpClient> {
    pub http: &'a H,
    pub base_url: String,
    pub arch: String,
}

/// `{base_url}/packages/{first character of name, or _}/{name}/`.
pub open spec fn index_url(base_url: Seq<char>, name: Seq<char>) -> Seq<char> {
    base_url + "/packages/"@ + seq![
        if name.len() > 0 {
            name[0]
        } else {
            '_'
        },
    ] + "/"@ + name + "/"@
}

impl<'a, H: HttpClient> ArchivePublicationSource<'a, H> {
    /// A source for the official archive, for packages built for `arch`.
    pub fn new(http: &'a H, arch: &str) -> (r: Self)
        ensures
            r.base_url@ == DEFAULT_BASE_URL@,
            r.arch@ == arch@,
    {
        ArchivePublicationSource { http, base_url: string_of(DEFAULT_BASE_URL), arch: string_of(arch) }
    }

    /// A source for an archive at `base_url`, for `x86_64` packages.
    pub fn with_base_url(http: &'a H, base_url: &str) -> (r: Self)
        ensures
            r.base_url@ == base_url@,
            r.arch@ == "x86_64"@,
    {
        ArchivePublicationSource { http, base_url: string_of(base_url), arch: string_of("x86_64") }
    }

    /// The index page of `name` under this source's base URL.
    pub fn url_for(&self, name: &str) -> (r: String)
        ensures
            r@ == index_url(self.base_url@, name@),
    {
        let chars = chars_of(name);
        let first = if chars.len() > 0 {
            chars[0]
        } else {
            '_'
        };
        let mut url = string_of(self.base_url.as_str());
        push_str(&mut url, "/packages/");
        push_char(&mut url, first);
        push_str(&mut url, "/");
        push_str(&mut url, name);
        push_str(&mut url, "/");
        url
    }
}

impl<'a, H: HttpClient> PublicationSource for ArchivePublicationSource<'a, H> {
    /// Fetch the candidate's index page and read the candidate version's
    /// publication from it (see [`publication_from_page`]).
    fn publication(&self, candidate: &UpgradeCandidate) -> (r: Result<Publication>)
        ensures
            r matches Ok(p) ==> (p.basis == PublicationBasis::Archive && p.published_at is Some)
                || p == Publication::unknown_spec(),
            r matches Ok(p) ==> exists|page: FetchOutcome|
                #[trigger] self.http.answered(index_url(self.base_url@, candidate.name@), Ok(page))
                    && p == page_publication(
                    page,
                    candidate.name@,
                    candidate.candidate_version@,
                    self.arch@,
                ),
            r matches Err(e) ==> self.http.answered(
                index_url(self.base_url@, candidate.name@),
                Err(e),
            ),
    {
        let url = self.url_for(candidate.name.as_str());
        let page = match self.http.get(url.as_str()) {
            Ok(p) => p,
            Err(e) => {
                return Err(e);
            },
        };
        let r = Ok(publication_from_page(
            &page,
            candidate.name.as_str(),
            candidate.candidate_version.as_str(),
            self.arch.as_str(),
        ));
        proof {
            if let FetchOutcome::Body(html) = &page {
                let h = encode_utf8(html@);
                let _ = index_walk(
                    h,
                    0,
                    file_prefix(candidate.name@, candidate.candidate_version@, self.arch@),
                );
            }
            assert(r->Ok_0 == page_publication(
                page,
                candidate.name@,
                candidate.candidate_version@,
                self.arch@,
            ));
        }
        r
    }
}

} // verus!
