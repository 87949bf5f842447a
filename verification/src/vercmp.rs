//! Package version comparison compatible with libalpm's `alpm_pkg_vercmp`.
//!
//! Versions have the form `[epoch:]upstream[-pkgrel]`. Epochs compare
//! numerically and dominate; upstream and pkgrel use the RPM-style segment
//! comparison that pacman inherited (`rpmvercmp`). All comparisons work on
//! the UTF-8 bytes of the versions.

use std::cmp::Ordering;
use vstd::prelude::*;
use vstd::string::StringSliceAdditionalSpecFns;

verus! {

/// `x` as a mathematical integer.
pub open spec fn int_of(x: usize) -> int {
    x as int
}

/// Bytes `x[lo..hi)`.
pub open spec fn bytes_between(x: Seq<u8>, lo: usize, hi: usize) -> Seq<u8> {
    x.subrange(lo as int, hi as int)
}

/// Bytes of `x` from `k` on.
pub open spec fn bytes_from(x: Seq<u8>, k: usize) -> Seq<u8> {
    x.skip(k as int)
}

pub open spec fn is_ascii_digit(b: u8) -> bool {
    48 <= b <= 57
}

pub open spec fn is_ascii_alpha(b: u8) -> bool {
    (65 <= b <= 90) || (97 <= b <= 122)
}

pub open spec fn is_ascii_alnum(b: u8) -> bool {
    is_ascii_digit(b) || is_ascii_alpha(b)
}

/// First index at or after `i` holding an ASCII alphanumeric byte, or
/// `s.len()` when there is none.
pub open spec fn skip_separators(s: Seq<u8>, i: int) -> int
    decreases s.len() - i,
{
    if i >= s.len() {
        s.len() as int
    } else if is_ascii_alnum(s[i]) {
        i
    } else {
        skip_separators(s, i + 1)
    }
}

/// Whether `b` belongs to a digit run (`digits`) or to a letter run.
pub open spec fn in_run(b: u8, digits: bool) -> bool {
    if digits {
        is_ascii_digit(b)
    } else {
        is_ascii_alpha(b)
    }
}

/// End of the run of digits (or of letters) that starts at `i`.
pub open spec fn run_end(s: Seq<u8>, i: int, digits: bool) -> int
    decreases s.len() - i,
{
    if i >= s.len() {
        s.len() as int
    } else if in_run(s[i], digits) {
        run_end(s, i + 1, digits)
    } else {
        i
    }
}

/// Skipping separators stays inside the text and stops at an alphanumeric.
pub proof fn lemma_skip_separators_bounds(s: Seq<u8>, i: int)
    requires
        0 <= i <= s.len(),
    ensures
        i <= skip_separators(s, i) <= s.len(),
        skip_separators(s, i) < s.len() ==> is_ascii_alnum(s[skip_separators(s, i)]),
    decreases s.len() - i,
{
    if i < s.len() && !is_ascii_alnum(s[i]) {
        lemma_skip_separators_bounds(s, i + 1);
    }
}

/// A run ends inside the text, and a run that starts is not empty.
pub proof fn lemma_run_end_bounds(s: Seq<u8>, i: int, digits: bool)
    requires
        0 <= i <= s.len(),
    ensures
        i <= run_end(s, i, digits) <= s.len(),
        i < s.len() && in_run(s[i], digits) ==> i < run_end(s, i, digits),
    decreases s.len() - i,
{
    if i < s.len() && in_run(s[i], digits) {
        lemma_run_end_bounds(s, i + 1, digits);
    }
}

/// Lexicographic byte order; a proper prefix sorts first.
pub open spec fn lex_order(x: Seq<u8>, y: Seq<u8>) -> Ordering
    decreases x.len(),
{
    if x.len() == 0 {
        if y.len() == 0 {
            Ordering::Equal
        } else {
            Ordering::Less
        }
    } else if y.len() == 0 {
        Ordering::Greater
    } else if x[0] < y[0] {
        Ordering::Less
    } else if x[0] > y[0] {
        Ordering::Greater
    } else {
        lex_order(x.drop_first(), y.drop_first())
    }
}

/// `s` without leading `'0'` bytes.
pub open spec fn strip_leading_zeros(s: Seq<u8>) -> Seq<u8>
    decreases s.len(),
{
    if s.len() > 0 && s[0] == 48 {
        strip_leading_zeros(s.drop_first())
    } else {
        s
    }
}

/// Order of two digit runs: leading zeros ignored, then the longer run is
/// larger, then byte order.
pub open spec fn number_order(x: Seq<u8>, y: Seq<u8>) -> Ordering {
    let sx = strip_leading_zeros(x);
    let sy = strip_leading_zeros(y);
    if sx.len() < sy.len() {
        Ordering::Less
    } else if sx.len() > sy.len() {
        Ordering::Greater
    } else {
        lex_order(sx, sy)
    }
}

/// Outcome once one side has run out of segments: the side that still has
/// bytes left is newer.
pub open spec fn remainder_order(a: Seq<u8>, b: Seq<u8>, one: int, two: int) -> Ordering {
    if one < a.len() && !(two < b.len()) {
        Ordering::Greater
    } else if !(one < a.len()) && two < b.len() {
        Ordering::Less
    } else {
        Ordering::Equal
    }
}

/// The rpm segment comparison of `a` from `one` on against `b` from `two`
/// on. Separator runs are skipped; a side that skips fewer separators is
/// newer; where one side's segment is a number and the other's a word, the
/// word is newer (`1.0 < 1.a`); otherwise the segments compare as numbers
/// (leading zeros ignored) or as bytes.
pub open spec fn segments_order(a: Seq<u8>, b: Seq<u8>, one: int, two: int) -> Ordering
    decreases a.len() - one,
{
    if 0 <= one < a.len() && 0 <= two < b.len() {
        let s1 = skip_separators(a, one);
        let s2 = skip_separators(b, two);
        if s1 >= a.len() || s2 >= b.len() {
            remainder_order(a, b, s1, s2)
        } else if s1 - one != s2 - two {
            if s1 - one < s2 - two {
                Ordering::Less
            } else {
                Ordering::Greater
            }
        } else if is_ascii_digit(a[s1]) != is_ascii_digit(b[s2]) {
            if is_ascii_digit(a[s1]) {
                Ordering::Less
            } else {
                Ordering::Greater
            }
        } else {
            let digits = is_ascii_digit(a[s1]);
            let e1 = run_end(a, s1, digits);
            let e2 = run_end(b, s2, digits);
            let c = if digits {
                number_order(a.subrange(s1, e1), b.subrange(s2, e2))
            } else {
                lex_order(a.subrange(s1, e1), b.subrange(s2, e2))
            };
            if c != Ordering::Equal {
                c
            } else {
                proof {
                    lemma_skip_separators_bounds(a, one);
                    lemma_skip_separators_bounds(b, two);
                    lemma_run_end_bounds(a, s1, digits);
                    lemma_run_end_bounds(b, s2, digits);
                }
                segments_order(a, b, e1, e2)
            }
        }
    } else {
        remainder_order(a, b, one, two)
    }
}

/// `rpmvercmp(a, b)`.
pub open spec fn rpm_order(a: Seq<u8>, b: Seq<u8>) -> Ordering {
    segments_order(a, b, 0, 0)
}

/// Index of the first byte equal to `x` at or after `i`, or -1.
pub open spec fn find_byte(s: Seq<u8>, x: u8, i: int) -> int
    decreases s.len() - i,
{
    if i >= s.len() {
        -1
    } else if s[i] == x {
        i
    } else {
        find_byte(s, x, i + 1)
    }
}

/// Index of the last byte equal to `x` before `i`, or -1.
pub open spec fn rfind_byte(s: Seq<u8>, x: u8, i: int) -> int
    decreases i,
{
    if i <= 0 {
        -1
    } else if s[i - 1] == x {
        i - 1
    } else {
        rfind_byte(s, x, i - 1)
    }
}

pub open spec fn all_ascii_digits(s: Seq<u8>) -> bool {
    forall|i: int| 0 <= i < s.len() ==> is_ascii_digit(#[trigger] s[i])
}

/// Value of a run of ASCII digits.
pub open spec fn ascii_digits_value(s: Seq<u8>) -> nat
    decreases s.len(),
{
    if s.len() == 0 {
        0
    } else {
        (ascii_digits_value(s.drop_last()) * 10 + (s.last() - 48)) as nat
    }
}

/// Position of the epoch separator: the first `:`, when it is preceded by
/// one or more digits only.
pub open spec fn epoch_colon(v: Seq<u8>) -> int {
    let c = find_byte(v, 58, 0);
    if c > 0 && all_ascii_digits(v.take(c)) {
        c
    } else {
        -1
    }
}

/// The epoch of a version: 0 when absent, and 0 when its digits overflow a
/// `u64` (`parse().unwrap_or(0)`).
pub open spec fn epoch_of(v: Seq<u8>) -> nat {
    let c = epoch_colon(v);
    if c > 0 && ascii_digits_value(v.take(c)) <= u64::MAX {
        ascii_digits_value(v.take(c))
    } else {
        0
    }
}

/// The `version[-release]` part after the epoch.
pub open spec fn after_epoch(v: Seq<u8>) -> Seq<u8> {
    let c = epoch_colon(v);
    if c > 0 {
        v.skip(c + 1)
    } else {
        v
    }
}

/// Upstream version: everything before the last `-`.
pub open spec fn upstream_of(v: Seq<u8>) -> Seq<u8> {
    let rest = after_epoch(v);
    let d = rfind_byte(rest, 45, rest.len() as int);
    if d >= 0 {
        rest.take(d)
    } else {
        rest
    }
}

/// Release: everything after the last `-`, when there is one.
pub open spec fn release_of(v: Seq<u8>) -> Option<Seq<u8>> {
    let rest = after_epoch(v);
    let d = rfind_byte(rest, 45, rest.len() as int);
    if d >= 0 {
        Some(rest.skip(d + 1))
    } else {
        None
    }
}

/// Order of two versions given as UTF-8 bytes, the way pacman orders them.
pub open spec fn version_order(a: Seq<u8>, b: Seq<u8>) -> Ordering {
    if a == b {
        Ordering::Equal
    } else if epoch_of(a) < epoch_of(b) {
        Ordering::Less
    } else if epoch_of(a) > epoch_of(b) {
        Ordering::Greater
    } else {
        let c = rpm_order(upstream_of(a), upstream_of(b));
        if c != Ordering::Equal {
            c
        } else {
            match (release_of(a), release_of(b)) {
                (Some(ra), Some(rb)) => rpm_order(ra, rb),
                _ => Ordering::Equal,
            }
        }
    }
}

/// The opposite order.
pub open spec fn reversed(o: Ordering) -> Ordering {
    match o {
        Ordering::Less => Ordering::Greater,
        Ordering::Equal => Ordering::Equal,
        Ordering::Greater => Ordering::Less,
    }
}

proof fn lemma_lex_order_antisymmetric(x: Seq<u8>, y: Seq<u8>)
    ensures
        lex_order(y, x) == reversed(lex_order(x, y)),
    decreases x.len(),
{
    if x.len() > 0 && y.len() > 0 && x[0] == y[0] {
        lemma_lex_order_antisymmetric(x.drop_first(), y.drop_first());
    }
}

proof fn lemma_number_order_antisymmetric(x: Seq<u8>, y: Seq<u8>)
    ensures
        number_order(y, x) == reversed(number_order(x, y)),
{
    lemma_lex_order_antisymmetric(strip_leading_zeros(x), strip_leading_zeros(y));
}

proof fn lemma_segments_antisymmetric(a: Seq<u8>, b: Seq<u8>, one: int, two: int)
    requires
        0 <= one <= a.len(),
        0 <= two <= b.len(),
    ensures
        segments_order(b, a, two, one) == reversed(segments_order(a, b, one, two)),
    decreases a.len() - one,
{
    if one < a.len() && two < b.len() {
        let s1 = skip_separators(a, one);
        let s2 = skip_separators(b, two);
        lemma_skip_separators_bounds(a, one);
        lemma_skip_separators_bounds(b, two);
        if s1 >= a.len() || s2 >= b.len() {
        } else if s1 - one != s2 - two {
        } else if is_ascii_digit(a[s1]) != is_ascii_digit(b[s2]) {
        } else {
            let d = is_ascii_digit(a[s1]);
            lemma_run_end_bounds(a, s1, d);
            lemma_run_end_bounds(b, s2, d);
            let e1 = run_end(a, s1, d);
            let e2 = run_end(b, s2, d);
            lemma_number_order_antisymmetric(a.subrange(s1, e1), b.subrange(s2, e2));
            lemma_lex_order_antisymmetric(a.subrange(s1, e1), b.subrange(s2, e2));
            lemma_segments_antisymmetric(a, b, e1, e2);
        }
    }
}

/// Every version compares equal to itself.
pub proof fn lemma_vercmp_reflexive(a: Seq<u8>)
    ensures
        version_order(a, a) == Ordering::Equal,
{
}

/// Version comparison is antisymmetric: comparing the other way round
/// gives the opposite order (and equal versions stay equal), so `vercmp` is
/// consistent whichever version comes first.
pub proof fn lemma_vercmp_antisymmetric(a: Seq<u8>, b: Seq<u8>)
    ensures
        version_order(b, a) == reversed(version_order(a, b)),
{
    lemma_segments_antisymmetric(upstream_of(a), upstream_of(b), 0, 0);
    match (release_of(a), release_of(b)) {
        (Some(ra), Some(rb)) => {
            lemma_segments_antisymmetric(ra, rb, 0, 0);
        },
        _ => {},
    }
}

/// If `a` is older than `b`, then `b` is newer than `a`.
pub proof fn lemma_vercmp_less_reverses(a: Seq<u8>, b: Seq<u8>)
    requires
        version_order(a, b) == Ordering::Less,
    ensures
        version_order(b, a) == Ordering::Greater,
{
    lemma_vercmp_antisymmetric(a, b);
}

/// `10` to the power `n`.
pub open spec fn pow10(n: nat) -> nat
    decreases n,
{
    if n == 0 {
        1
    } else {
        10 * pow10((n - 1) as nat)
    }
}

/// The order of two natural numbers.
pub open spec fn compare_nat(x: nat, y: nat) -> Ordering {
    if x < y {
        Ordering::Less
    } else if x > y {
        Ordering::Greater
    } else {
        Ordering::Equal
    }
}

proof fn lemma_pow10_positive(n: nat)
    ensures
        pow10(n) >= 1,
    decreases n,
{
    if n > 0 {
        lemma_pow10_positive((n - 1) as nat);
    }
}

proof fn lemma_pow10_monotone(m: nat, n: nat)
    requires
        m <= n,
    ensures
        pow10(m) <= pow10(n),
    decreases n,
{
    if m < n {
        lemma_pow10_monotone(m, (n - 1) as nat);
        lemma_pow10_positive((n - 1) as nat);
    }
}

/// The value of a digit run read from its first digit: the first digit
/// times the place value of its position, plus the value of the rest.
proof fn lemma_value_from_front(s: Seq<u8>)
    requires
        s.len() > 0,
        all_ascii_digits(s),
    ensures
        ascii_digits_value(s) == (s[0] - 48) * pow10(s.drop_first().len()) + ascii_digits_value(
            s.drop_first(),
        ),
    decreases s.len(),
{
    assert(is_ascii_digit(s[s.len() - 1]));
    if s.len() == 1 {
        assert(s.drop_last().len() == 0);
        assert(ascii_digits_value(s.drop_last()) == 0);
        assert(s.drop_first().len() == 0);
        assert(ascii_digits_value(s.drop_first()) == 0);
        assert(s.last() == s[0]);
        assert(pow10(0) == 1);
    } else {
        let t = s.drop_last();
        assert(all_ascii_digits(t)) by {
            assert forall|i: int| 0 <= i < t.len() implies is_ascii_digit(#[trigger] t[i]) by {
                assert(t[i] == s[i]);
            }
        }
        lemma_value_from_front(t);
        assert(t[0] == s[0]);
        assert(t.drop_first() =~= s.drop_first().drop_last());
        assert(s.drop_first().last() == s.last());
        let d: int = s[0] - 48;
        let p = pow10(t.drop_first().len());
        let rest = ascii_digits_value(t.drop_first());
        let l: int = s.last() - 48;
        assert(s.drop_first().len() == t.drop_first().len() + 1);
        assert(pow10(s.drop_first().len()) == 10 * p);
        assert(ascii_digits_value(s) == ascii_digits_value(t) * 10 + l);
        assert(ascii_digits_value(s.drop_first()) == rest * 10 + l);
        assert((d * p + rest) * 10 + l == d * (10 * p) + (rest * 10 + l)) by (nonlinear_arith);
    }
}

/// A run of `n` digits is worth less than `10^n`.
proof fn lemma_value_below(s: Seq<u8>)
    requires
        all_ascii_digits(s),
    ensures
        ascii_digits_value(s) < pow10(s.len()),
    decreases s.len(),
{
    if s.len() > 0 {
        let t = s.drop_last();
        assert(all_ascii_digits(t)) by {
            assert forall|i: int| 0 <= i < t.len() implies is_ascii_digit(#[trigger] t[i]) by {
                assert(t[i] == s[i]);
            }
        }
        lemma_value_below(t);
        let v = ascii_digits_value(t);
        let p = pow10(t.len());
        let l: int = s.last() - 48;
        assert(is_ascii_digit(s[s.len() - 1]));
        assert(v * 10 + l < 10 * p) by (nonlinear_arith)
            requires
                v < p,
                0 <= l <= 9,
        ;
    }
}

/// A run of `n` digits that does not start with `0` is worth at least
/// `10^(n-1)`.
proof fn lemma_value_at_least(s: Seq<u8>)
    requires
        all_ascii_digits(s),
        s.len() > 0,
        s[0] != 48,
    ensures
        ascii_digits_value(s) >= pow10(s.drop_first().len()),
{
    lemma_value_from_front(s);
    let d: int = s[0] - 48;
    let p = pow10(s.drop_first().len());
    assert(d * p >= p) by (nonlinear_arith)
        requires
            d >= 1,
            p >= 0,
    ;
}

/// Leading zeros add nothing to a digit run's value.
proof fn lemma_strip_keeps_value(s: Seq<u8>)
    requires
        all_ascii_digits(s),
    ensures
        all_ascii_digits(strip_leading_zeros(s)),
        ascii_digits_value(strip_leading_zeros(s)) == ascii_digits_value(s),
        strip_leading_zeros(s).len() > 0 ==> strip_leading_zeros(s)[0] != 48,
    decreases s.len(),
{
    if s.len() > 0 && s[0] == 48 {
        let t = s.drop_first();
        assert(all_ascii_digits(t)) by {
            assert forall|i: int| 0 <= i < t.len() implies is_ascii_digit(#[trigger] t[i]) by {
                assert(t[i] == s[i + 1]);
            }
        }
        lemma_strip_keeps_value(t);
        lemma_value_from_front(s);
        assert((s[0] - 48) * pow10(s.drop_first().len()) == 0);
    }
}

/// Byte order of two digit runs of the same length is their numeric order.
proof fn lemma_lex_is_numeric(x: Seq<u8>, y: Seq<u8>)
    requires
        all_ascii_digits(x),
        all_ascii_digits(y),
        x.len() == y.len(),
    ensures
        lex_order(x, y) == compare_nat(ascii_digits_value(x), ascii_digits_value(y)),
    decreases x.len(),
{
    if x.len() > 0 {
        let xt = x.drop_first();
        let yt = y.drop_first();
        assert(all_ascii_digits(xt)) by {
            assert forall|i: int| 0 <= i < xt.len() implies is_ascii_digit(#[trigger] xt[i]) by {
                assert(xt[i] == x[i + 1]);
            }
        }
        assert(all_ascii_digits(yt)) by {
            assert forall|i: int| 0 <= i < yt.len() implies is_ascii_digit(#[trigger] yt[i]) by {
                assert(yt[i] == y[i + 1]);
            }
        }
        lemma_value_from_front(x);
        lemma_value_from_front(y);
        lemma_value_below(xt);
        lemma_value_below(yt);
        let p = pow10(xt.len());
        let dx: int = x[0] - 48;
        let dy: int = y[0] - 48;
        let rx = ascii_digits_value(xt);
        let ry = ascii_digits_value(yt);
        assert(xt.len() == x.len() - 1);
        if x[0] < y[0] {
            assert(dx * p + rx < dy * p + ry) by (nonlinear_arith)
                requires
                    dx < dy,
                    0 <= rx < p,
                    0 <= ry,
            ;
        } else if x[0] > y[0] {
            assert(dx * p + rx > dy * p + ry) by (nonlinear_arith)
                requires
                    dx > dy,
                    0 <= ry < p,
                    0 <= rx,
            ;
        } else {
            lemma_lex_is_numeric(xt, yt);
        }
    }
}

/// Numeric segments compare by value: for two runs of digits, the order
/// `vercmp` gives them is the order of the numbers they write (leading
/// zeros ignored), so `19` is older than `20` and `010` equals `10`.
pub proof fn lemma_number_segments_compare_by_value(x: Seq<u8>, y: Seq<u8>)
    requires
        all_ascii_digits(x),
        all_ascii_digits(y),
    ensures
        number_order(x, y) == compare_nat(ascii_digits_value(x), ascii_digits_value(y)),
{
    let sx = strip_leading_zeros(x);
    let sy = strip_leading_zeros(y);
    lemma_strip_keeps_value(x);
    lemma_strip_keeps_value(y);
    lemma_value_below(sx);
    lemma_value_below(sy);
    if sx.len() < sy.len() {
        lemma_value_at_least(sy);
        lemma_pow10_monotone(sx.len(), sy.drop_first().len());
    } else if sx.len() > sy.len() {
        lemma_value_at_least(sx);
        lemma_pow10_monotone(sy.len(), sx.drop_first().len());
    } else {
        lemma_lex_is_numeric(sx, sy);
    }
}

/// The length of `s` as an integer.
pub open spec fn len_of(s: Seq<u8>) -> int {
    s.len() as int
}

proof fn lemma_digits_have_no_byte(s: Seq<u8>, x: u8, i: int, j: int)
    requires
        all_ascii_digits(s),
        !is_ascii_digit(x),
        0 <= i <= s.len(),
        0 <= j <= s.len(),
    ensures
        find_byte(s, x, i) == -1,
        rfind_byte(s, x, j) == -1,
    decreases s.len() - i + j,
{
    if i < s.len() {
        assert(is_ascii_digit(s[i]));
        lemma_digits_have_no_byte(s, x, i + 1, j);
    }
    if j > 0 {
        assert(is_ascii_digit(s[j - 1]));
        lemma_digits_have_no_byte(s, x, i, j - 1);
    }
}

proof fn lemma_digit_run_to_end(s: Seq<u8>, i: int)
    requires
        all_ascii_digits(s),
        0 <= i <= s.len(),
    ensures
        run_end(s, i, true) == s.len(),
    decreases s.len() - i,
{
    if i < s.len() {
        assert(is_ascii_digit(s[i]));
        lemma_digit_run_to_end(s, i + 1);
    }
}

/// Versions that are plain numbers compare as numbers: for two non-empty
/// runs of digits, `vercmp` gives the order of their values, so `19` is
/// older than `20`, `9` older than `10`, and `007` the same as `7`.
pub proof fn lemma_numeric_versions_compare_by_value(x: Seq<u8>, y: Seq<u8>)
    requires
        all_ascii_digits(x),
        all_ascii_digits(y),
        x.len() > 0,
        y.len() > 0,
    ensures
        version_order(x, y) == compare_nat(ascii_digits_value(x), ascii_digits_value(y)),
{
    lemma_number_segments_compare_by_value(x, y);
    if x != y {
        lemma_digits_have_no_byte(x, 58, 0, len_of(x));
        lemma_digits_have_no_byte(y, 58, 0, len_of(y));
        lemma_digits_have_no_byte(x, 45, 0, len_of(x));
        lemma_digits_have_no_byte(y, 45, 0, len_of(y));
        assert(epoch_colon(x) == -1);
        assert(epoch_colon(y) == -1);
        assert(after_epoch(x) == x);
        assert(after_epoch(y) == y);
        assert(upstream_of(x) == x);
        assert(upstream_of(y) == y);
        assert(release_of(x) is None);
        lemma_digit_run_to_end(x, 0);
        lemma_digit_run_to_end(y, 0);
        assert(is_ascii_digit(x[0]));
        assert(is_ascii_digit(y[0]));
        assert(skip_separators(x, 0) == 0);
        assert(skip_separators(y, 0) == 0);
        assert(x.subrange(0, len_of(x)) =~= x);
        assert(y.subrange(0, len_of(y)) =~= y);
        if number_order(x, y) == Ordering::Equal {
            assert(segments_order(x, y, len_of(x), len_of(y)) == Ordering::Equal);
        }
        assert(rpm_order(x, y) == number_order(x, y));
    } else {
        lemma_vercmp_reflexive(x);
    }
}

/// Compare two full package versions the way pacman does.
pub fn vercmp(a: &str, b: &str) -> (r: Ordering)
    ensures
        r == version_order(a.spec_bytes(), b.spec_bytes()),
{
    let a = a.as_bytes();
    let b = b.as_bytes();
    if bytes_equal(a, b) {
        return Ordering::Equal;
    }
    let (epoch_a, ver_a_lo, ver_a_hi, rel_a) = split_evr(a);
    let (epoch_b, ver_b_lo, ver_b_hi, rel_b) = split_evr(b);
    if epoch_a < epoch_b {
        return Ordering::Less;
    }
    if epoch_a > epoch_b {
        return Ordering::Greater;
    }
    let c = rpmvercmp(&a[ver_a_lo..ver_a_hi], &b[ver_b_lo..ver_b_hi]);
    match c {
        Ordering::Equal => {},
        _ => return c,
    }
    // libalpm only compares pkgrels when both are present.
    match (rel_a, rel_b) {
        (Some(ra), Some(rb)) => rpmvercmp(&a[ra..a.len()], &b[rb..b.len()]),
        _ => Ordering::Equal,
    }
}

fn bytes_equal(a: &[u8], b: &[u8]) -> (r: bool)
    ensures
        r == (a@ == b@),
{
    if a.len() != b.len() {
        return false;
    }
    let n = a.len();
    for i in 0..n
        invariant
            n == a@.len() == b@.len(),
            forall|j: int| 0 <= j < i ==> a@[j] == b@[j],
    {
        if a[i] != b[i] {
            return false;
        }
    }
    assert(a@ =~= b@);
    true
}

proof fn lemma_find_byte(s: Seq<u8>, x: u8, i: int)
    requires
        0 <= i <= s.len(),
    ensures
        find_byte(s, x, i) == -1 || (i <= find_byte(s, x, i) < s.len() && s[find_byte(s, x, i)]
            == x),
        forall|k: int|
            i <= k < s.len() && (find_byte(s, x, i) == -1 || k < find_byte(s, x, i)) ==> s[k] != x,
    decreases s.len() - i,
{
    if i < s.len() && s[i] != x {
        lemma_find_byte(s, x, i + 1);
    }
}

proof fn lemma_rfind_byte(s: Seq<u8>, x: u8, i: int)
    requires
        0 <= i <= s.len(),
    ensures
        rfind_byte(s, x, i) == -1 || (0 <= rfind_byte(s, x, i) < i && s[rfind_byte(s, x, i)] == x),
    decreases i,
{
    if i > 0 && s[i - 1] != x {
        lemma_rfind_byte(s, x, i - 1);
    }
}

proof fn lemma_ascii_digits_value_grows(s: Seq<u8>, i: int)
    requires
        0 <= i <= s.len(),
        all_ascii_digits(s),
    ensures
        ascii_digits_value(s.take(i)) <= ascii_digits_value(s),
    decreases s.len() - i,
{
    if i < s.len() {
        lemma_ascii_digits_value_grows(s, i + 1);
        assert(s.take(i + 1).drop_last() == s.take(i));
        assert(is_ascii_digit(s[i]));
    } else {
        assert(s.take(i) == s);
    }
}

/// Epoch value of the digit run `v[0..colon)`, 0 on overflow.
fn epoch_value(v: &[u8], colon: usize) -> (r: u64)
    requires
        0 < colon <= v@.len(),
        all_ascii_digits(v@.take(colon as int)),
    ensures
        r == (if ascii_digits_value(v@.take(colon as int)) <= u64::MAX {
            ascii_digits_value(v@.take(colon as int))
        } else {
            0
        }),
{
    let ghost d = v@.take(colon as int);
    let mut acc: u64 = 0;
    let mut i: usize = 0;
    while i < colon
        invariant
            i <= colon <= v@.len(),
            d == v@.take(colon as int),
            all_ascii_digits(d),
            acc == ascii_digits_value(d.take(i as int)),
        decreases colon - i,
    {
        let x = v[i];
        assert(d[i as int] == x);
        assert(d.take(i + 1).drop_last() == d.take(i as int));
        assert(d.take(i + 1).last() == x);
        assert(is_ascii_digit(x));
        let digit: u64 = (x - 48u8) as u64;
        if acc > (u64::MAX - digit) / 10 {
            proof {
                assert(ascii_digits_value(d.take(i + 1)) > u64::MAX) by (nonlinear_arith)
                    requires
                        ascii_digits_value(d.take(i + 1)) == acc * 10 + digit,
                        acc > (u64::MAX - digit) / 10,
                        digit <= 9,
                ;
                lemma_ascii_digits_value_grows(d, i + 1);
            }
            return 0;
        }
        proof {
            assert(acc * 10 + digit <= u64::MAX) by (nonlinear_arith)
                requires
                    acc <= (u64::MAX - digit) / 10,
                    digit <= 9,
            ;
        }
        acc = acc * 10 + digit;
        i = i + 1;
    }
    assert(d.take(colon as int) == d);
    acc
}

/// Split `[epoch:]version[-release]`: the epoch (0 when absent), the byte
/// range of the upstream version, and the start of the release if any.
fn split_evr(v: &[u8]) -> (r: (u64, usize, usize, Option<usize>))
    ensures
        r.0 == epoch_of(v@),
        r.1 <= r.2 <= v@.len(),
        v@.subrange(r.1 as int, r.2 as int) == upstream_of(v@),
        match r.3 {
            Some(x) => x <= v@.len() && release_of(v@) == Some(v@.skip(x as int)),
            None => release_of(v@) is None,
        },
{
    let n = v.len();
    // Find the first ':'.
    let mut colon: usize = 0;
    while colon < n && v[colon] != 58u8
        invariant
            colon <= n == v@.len(),
            find_byte(v@, 58, 0) == find_byte(v@, 58, colon as int),
        decreases n - colon,
    {
        colon = colon + 1;
    }
    proof {
        lemma_find_byte(v@, 58, 0);
    }
    let mut epoch: u64 = 0;
    let mut rest_lo: usize = 0;
    if colon < n && colon > 0 {
        let mut all_digits = true;
        let mut j: usize = 0;
        while j < colon
            invariant
                j <= colon < n == v@.len(),
                all_digits == all_ascii_digits(v@.take(colon as int).take(j as int)),
            decreases colon - j,
        {
            assert(v@.take(colon as int).take(j + 1) == v@.take(colon as int).take(j as int).push(
                v@[j as int],
            ));
            let ghost t = v@.take(colon as int).take(j as int);
            if !(48u8 <= v[j] && v[j] <= 57u8) {
                all_digits = false;
                assert(!is_ascii_digit(t.push(v@[j as int])[j as int]));
            } else {
                assert forall|k: int| 0 <= k < j + 1 && all_digits implies is_ascii_digit(
                    #[trigger] t.push(v@[j as int])[k],
                ) by {
                    if k < j {
                        assert(t.push(v@[j as int])[k] == t[k]);
                    }
                }
            }
            j = j + 1;
        }
        assert(v@.take(colon as int).take(colon as int) == v@.take(colon as int));
        if all_digits {
            epoch = epoch_value(v, colon);
            rest_lo = colon + 1;
        }
    }
    let ghost rest = v@.skip(rest_lo as int);
    assert(rest == after_epoch(v@));
    // The release is everything after the last '-'.
    let mut d: usize = n;
    while d > rest_lo && v[d - 1] != 45u8
        invariant
            rest_lo <= d <= n == v@.len(),
            rest == v@.skip(rest_lo as int),
            rfind_byte(rest, 45, rest.len() as int) == rfind_byte(rest, 45, d - rest_lo),
        decreases d,
    {
        assert(rest[d - 1 - rest_lo] == v@[d - 1]);
        d = d - 1;
    }
    if d > rest_lo {
        assert(rest[d - 1 - rest_lo] == v@[d - 1]);
        assert(rest.take(d - 1 - rest_lo) == v@.subrange(rest_lo as int, d - 1));
        assert(rest.skip(d - rest_lo) == v@.skip(d as int));
        (epoch, rest_lo, d - 1, Some(d))
    } else {
        assert(rest == v@.subrange(rest_lo as int, n as int));
        (epoch, rest_lo, n, None)
    }
}

/// First index at or after `i` with an ASCII alphanumeric byte.
fn skip_separators_exec(a: &[u8], i: usize) -> (r: usize)
    requires
        i <= a@.len(),
    ensures
        r == skip_separators(a@, i as int),
{
    let mut k = i;
    while k < a.len() && !is_ascii_alnum_exec(a[k])
        invariant
            i <= k <= a@.len(),
            skip_separators(a@, i as int) == skip_separators(a@, k as int),
        decreases a@.len() - k,
    {
        k = k + 1;
    }
    k
}

fn is_ascii_alnum_exec(b: u8) -> (r: bool)
    ensures
        r == is_ascii_alnum(b),
{
    (48u8 <= b && b <= 57u8) || (65u8 <= b && b <= 90u8) || (97u8 <= b && b <= 122u8)
}

fn in_run_exec(b: u8, digits: bool) -> (r: bool)
    ensures
        r == in_run(b, digits),
{
    if digits {
        48u8 <= b && b <= 57u8
    } else {
        (65u8 <= b && b <= 90u8) || (97u8 <= b && b <= 122u8)
    }
}

fn run_end_exec(a: &[u8], i: usize, digits: bool) -> (r: usize)
    requires
        i <= a@.len(),
    ensures
        r == run_end(a@, i as int, digits),
{
    let mut k = i;
    while k < a.len() && in_run_exec(a[k], digits)
        invariant
            i <= k <= a@.len(),
            run_end(a@, i as int, digits) == run_end(a@, k as int, digits),
        decreases a@.len() - k,
    {
        k = k + 1;
    }
    k
}

/// Lexicographic order of `x[xl..xh)` and `y[yl..yh)`.
fn lex_order_exec(x: &[u8], xl: usize, xh: usize, y: &[u8], yl: usize, yh: usize) -> (r: Ordering)
    requires
        xl <= xh <= x@.len(),
        yl <= yh <= y@.len(),
    ensures
        r == lex_order(bytes_between(x@, xl, xh), bytes_between(y@, yl, yh)),
{
    let ghost sx = bytes_between(x@, xl, xh);
    let ghost sy = bytes_between(y@, yl, yh);
    let mut k: usize = 0;
    assert(bytes_from(sx, k) == sx);
    assert(bytes_from(sy, k) == sy);
    loop
        invariant
            xl <= xh <= x@.len(),
            yl <= yh <= y@.len(),
            sx == bytes_between(x@, xl, xh),
            sy == bytes_between(y@, yl, yh),
            k <= xh - xl,
            k <= yh - yl,
            lex_order(sx, sy) == lex_order(bytes_from(sx, k), bytes_from(sy, k)),
        decreases xh - xl - k,
    {
        let ghost tx = bytes_from(sx, k);
        let ghost ty = bytes_from(sy, k);
        if k == xh - xl {
            assert(tx.len() == 0);
            if k == yh - yl {
                return Ordering::Equal;
            }
            return Ordering::Less;
        }
        if k == yh - yl {
            assert(ty.len() == 0);
            return Ordering::Greater;
        }
        assert(tx[0] == x@[xl + k]);
        assert(ty[0] == y@[yl + k]);
        if x[xl + k] < y[yl + k] {
            return Ordering::Less;
        }
        if x[xl + k] > y[yl + k] {
            return Ordering::Greater;
        }
        assert(tx.drop_first() == sx.skip(k + 1));
        assert(ty.drop_first() == sy.skip(k + 1));
        k = k + 1;
    }
}

proof fn lemma_strip_leading_zeros(s: Seq<u8>, i: int)
    requires
        0 <= i <= s.len(),
        forall|j: int| 0 <= j < i ==> #[trigger] s[j] == 48,
    ensures
        strip_leading_zeros(s) == strip_leading_zeros(s.skip(i)),
    decreases i,
{
    if i > 0 {
        assert(s.drop_first().skip(i - 1) == s.skip(i));
        assert forall|j: int| 0 <= j < i - 1 implies #[trigger] s.drop_first()[j] == 48 by {
            assert(s.drop_first()[j] == s[j + 1]);
        }
        lemma_strip_leading_zeros(s.drop_first(), i - 1);
    } else {
        assert(s.skip(0) == s);
    }
}

/// Start of `a[lo..hi)` after its leading zeros.
fn strip_zeros(a: &[u8], lo: usize, hi: usize) -> (r: usize)
    requires
        lo <= hi <= a@.len(),
    ensures
        lo <= r <= hi,
        a@.subrange(r as int, hi as int) == strip_leading_zeros(a@.subrange(lo as int, hi as int)),
{
    let ghost s = a@.subrange(lo as int, hi as int);
    let mut i = lo;
    while i < hi && a[i] == 48u8
        invariant
            lo <= i <= hi <= a@.len(),
            s == a@.subrange(lo as int, hi as int),
            forall|j: int| 0 <= j < i - lo ==> #[trigger] s[j] == 48,
        decreases hi - i,
    {
        assert(s[i - lo] == a@[i as int]);
        i = i + 1;
    }
    proof {
        lemma_strip_leading_zeros(s, i - lo);
        assert(s.skip(i - lo) == a@.subrange(i as int, hi as int));
        let t = s.skip(i - lo);
        if t.len() > 0 {
            assert(t[0] == a@[i as int]);
        }
    }
    i
}

/// libalpm's `rpmvercmp` algorithm (itself from RPM 4.0.4).
fn rpmvercmp(a: &[u8], b: &[u8]) -> (r: Ordering)
    ensures
        r == rpm_order(a@, b@),
{
    let mut one: usize = 0;
    let mut two: usize = 0;
    while one < a.len() && two < b.len()
        invariant
            one <= a@.len(),
            two <= b@.len(),
            segments_order(a@, b@, int_of(one), int_of(two)) == rpm_order(a@, b@),
        decreases a@.len() - one,
    {
        let seg_start_one = skip_separators_exec(a, one);
        let seg_start_two = skip_separators_exec(b, two);
        proof {
            lemma_skip_separators_bounds(a@, int_of(one));
            lemma_skip_separators_bounds(b@, int_of(two));
        }
        // Ran off the end of either string.
        if seg_start_one >= a.len() || seg_start_two >= b.len() {
            return remainder(a, b, seg_start_one, seg_start_two);
        }
        // Different numbers of separators skipped: the version with more
        // separators is older.
        let skipped_one = seg_start_one - one;
        let skipped_two = seg_start_two - two;
        if skipped_one != skipped_two {
            return if skipped_one < skipped_two {
                Ordering::Less
            } else {
                Ordering::Greater
            };
        }
        let isnum = 48u8 <= a[seg_start_one] && a[seg_start_one] <= 57u8;
        // A number against a word: the word is newer.
        let other_isnum = 48u8 <= b[seg_start_two] && b[seg_start_two] <= 57u8;
        if isnum != other_isnum {
            return if isnum {
                Ordering::Less
            } else {
                Ordering::Greater
            };
        }
        let end_one = run_end_exec(a, seg_start_one, isnum);
        let end_two = run_end_exec(b, seg_start_two, isnum);
        proof {
            lemma_run_end_bounds(a@, int_of(seg_start_one), isnum);
            lemma_run_end_bounds(b@, int_of(seg_start_two), isnum);
        }
        let c = if isnum {
            let s1 = strip_zeros(a, seg_start_one, end_one);
            let s2 = strip_zeros(b, seg_start_two, end_two);
            if end_one - s1 < end_two - s2 {
                Ordering::Less
            } else if end_one - s1 > end_two - s2 {
                Ordering::Greater
            } else {
                lex_order_exec(a, s1, end_one, b, s2, end_two)
            }
        } else {
            lex_order_exec(a, seg_start_one, end_one, b, seg_start_two, end_two)
        };
        match c {
            Ordering::Equal => {},
            _ => return c,
        }
        one = end_one;
        two = end_two;
    }
    remainder(a, b, one, two)
}

/// Whichever side still has bytes left is the newer version.
fn remainder(a: &[u8], b: &[u8], one: usize, two: usize) -> (r: Ordering)
    ensures
        r == remainder_order(a@, b@, int_of(one), int_of(two)),
{
    if one < a.len() && !(two < b.len()) {
        Ordering::Greater
    } else if !(one < a.len()) && two < b.len() {
        Ordering::Less
    } else {
        Ordering::Equal
    }
}

} // verus!
