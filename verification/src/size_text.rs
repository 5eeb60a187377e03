//! Human-readable size text: rendering byte counts and parsing such text
//! back into an ordering key.
//!
//! Rendering picks the largest binary unit (B, KiB, MiB, GiB, ...) and is
//! delegated to an outside formatter; its result is named by the
//! uninterpreted function [`format_binary_of`].
//!
//! Parsing goes the other way: the first whitespace-separated token is read
//! as a decimal number, the second as a unit. Only the units `B`, `KiB`,
//! `MiB` and `GiB` are recognized, case-sensitively; any other unit token
//! (`TiB` and beyond included) falls back to a multiplier of one, so very
//! large sizes deliberately parse as if they were raw byte counts. A numeric
//! token that is not a plain decimal (digits with an optional fraction)
//! degrades to zero. Neither failure is ever reported: the parse is total.
//!
//! The key is kept in hundredths of a byte, which represents exactly every
//! value the renderer can emit (it prints at most two fraction digits), so
//! no floating point is needed anywhere.

use vstd::prelude::*;
use vstd::string::StrSliceExecFns;

verus! {

/// The whitespace that separates the number from the unit.
pub open spec fn is_space(c: char) -> bool {
    c == ' ' || c == '\t' || c == '\n' || c == '\r'
}

/// ASCII decimal digit.
pub open spec fn is_digit(c: char) -> bool {
    48 <= c as u32 && c as u32 <= 57
}

/// Numeric value of a digit character.
pub open spec fn digit_val(c: char) -> nat {
    (c as u32 - 48) as nat
}

/// First index at or after `i` holding a non-space character (or the end).
pub open spec fn scan_nonspace(s: Seq<char>, i: int) -> int
    decreases s.len() - i,
{
    if i < s.len() && is_space(s[i]) {
        scan_nonspace(s, i + 1)
    } else {
        i
    }
}

/// First index at or after `i` holding a space character (or the end).
pub open spec fn scan_space(s: Seq<char>, i: int) -> int
    decreases s.len() - i,
{
    if i < s.len() && !is_space(s[i]) {
        scan_space(s, i + 1)
    } else {
        i
    }
}

/// Bounds of the first whitespace-separated token.
pub open spec fn tok0_start(s: Seq<char>) -> int {
    scan_nonspace(s, 0)
}

pub open spec fn tok0_end(s: Seq<char>) -> int {
    scan_space(s, tok0_start(s))
}

/// Bounds of the second whitespace-separated token.
pub open spec fn tok1_start(s: Seq<char>) -> int {
    scan_nonspace(s, tok0_end(s))
}

pub open spec fn tok1_end(s: Seq<char>) -> int {
    scan_space(s, tok1_start(s))
}

/// First index at or after `i` holding a dot (or the end).
pub open spec fn scan_dot(t: Seq<char>, i: int) -> int
    decreases t.len() - i,
{
    if i < t.len() && t[i] != '.' {
        scan_dot(t, i + 1)
    } else {
        i
    }
}

/// Every character of `t` is a decimal digit.
pub open spec fn digits_ok(t: Seq<char>) -> bool {
    forall|k: int| 0 <= k < t.len() ==> is_digit(#[trigger] t[k])
}

/// Value of a digit string, most significant first.
pub open spec fn digits_val(t: Seq<char>) -> nat
    decreases t.len(),
{
    if t.len() == 0 {
        0
    } else {
        digits_val(t.drop_last()) * 10 + digit_val(t.last())
    }
}

/// Hundredths contributed by a fraction part; digits beyond the second are
/// below the kept precision and do not count.
pub open spec fn frac_hundredths(t: Seq<char>) -> nat {
    if t.len() >= 2 {
        digit_val(t[0]) * 10 + digit_val(t[1])
    } else if t.len() == 1 {
        digit_val(t[0]) * 10
    } else {
        0
    }
}

/// Reads a numeric token as hundredths of a unit: digits, optionally
/// followed by a dot and further digits. Anything else is a parse failure.
pub open spec fn number_hundredths(t: Seq<char>) -> Option<nat> {
    let d = scan_dot(t, 0);
    if d == t.len() {
        if t.len() > 0 && digits_ok(t) {
            Some(digits_val(t) * 100)
        } else {
            None
        }
    } else {
        let ip = t.subrange(0, d);
        let fp = t.subrange(d + 1, t.len() as int);
        if d > 0 && digits_ok(ip) && digits_ok(fp) {
            Some(digits_val(ip) * 100 + frac_hundredths(fp))
        } else {
            None
        }
    }
}

/// A failed numeric parse silently degrades to zero.
pub open spec fn number_or_zero(t: Seq<char>) -> nat {
    match number_hundredths(t) {
        Some(v) => v,
        None => 0,
    }
}

/// Multiplier of a unit token. Only `B`, `KiB`, `MiB` and `GiB` are
/// recognized; every other token (a missing one included) multiplies by one.
pub open spec fn unit_multiplier(t: Seq<char>) -> nat {
    if t.len() == 1 && t[0] == 'B' {
        1
    } else if t.len() == 3 && t[0] == 'K' && t[1] == 'i' && t[2] == 'B' {
        1024
    } else if t.len() == 3 && t[0] == 'M' && t[1] == 'i' && t[2] == 'B' {
        1048576
    } else if t.len() == 3 && t[0] == 'G' && t[1] == 'i' && t[2] == 'B' {
        1073741824
    } else {
        1
    }
}

/// Saturation at the largest `u64`.
pub open spec fn sat64(n: nat) -> nat {
    if n <= u64::MAX {
        n
    } else {
        u64::MAX as nat
    }
}

/// The ordering key of a size string, in hundredths of a byte: the first
/// token read as a number (saturated), times the second token's multiplier.
pub open spec fn size_key_spec(s: Seq<char>) -> nat {
    let t0 = s.subrange(tok0_start(s), tok0_end(s));
    let t1 = s.subrange(tok1_start(s), tok1_end(s));
    sat64(number_or_zero(t0)) * unit_multiplier(t1)
}

/// What the outside renderer returns for a byte count; a pure function of
/// the count alone.
pub uninterp spec fn format_binary_of(n: nat) -> Seq<char>;

/// The digit character of a value below ten.
pub open spec fn digit_char(d: nat) -> char {
    if d == 0 {
        '0'
    } else if d == 1 {
        '1'
    } else if d == 2 {
        '2'
    } else if d == 3 {
        '3'
    } else if d == 4 {
        '4'
    } else if d == 5 {
        '5'
    } else if d == 6 {
        '6'
    } else if d == 7 {
        '7'
    } else if d == 8 {
        '8'
    } else {
        '9'
    }
}

/// Decimal rendering of a byte count, most significant digit first.
pub open spec fn dec_digits(n: nat) -> Seq<char>
    decreases n,
{
    if n < 10 {
        seq![digit_char(n)]
    } else {
        dec_digits(n / 10).push(digit_char(n % 10))
    }
}

/// Relies on humansize::format_size with its BINARY options: the rendering
/// is a pure function of the byte count, and a count below 1024 is printed
/// as its decimal digits followed by " B" (scale index zero, no fraction).
#[verifier::external_body]
pub(crate) fn format_binary(n: u64) -> (r: String)
    ensures
        r@ == format_binary_of(n as nat),
        n < 1024 ==> r@ == dec_digits(n as nat) + seq![' ', 'B'],
{
    humansize::format_size(n, humansize::BINARY)
}

fn is_space_x(c: char) -> (r: bool)
    ensures
        r == is_space(c),
{
    c == ' ' || c == '\t' || c == '\n' || c == '\r'
}

fn is_digit_x(c: char) -> (r: bool)
    ensures
        r == is_digit(c),
{
    48 <= c as u32 && c as u32 <= 57
}

/// Checks a window of a token for being all digits and reads its value,
/// saturated at `u64::MAX`.
fn digits_sat(t: &Vec<char>, a: usize, b: usize) -> (r: Option<u64>)
    requires
        a <= b <= t@.len(),
    ensures
        r is Some <==> digits_ok(t@.subrange(a as int, b as int)),
        r matches Some(v) ==> v == sat64(digits_val(t@.subrange(a as int, b as int))),
{
    let mut acc: u64 = 0;
    let mut k: usize = a;
    while k < b
        invariant
            a <= k <= b <= t@.len(),
            digits_ok(t@.subrange(a as int, k as int)),
            acc == sat64(digits_val(t@.subrange(a as int, k as int))),
        decreases b - k,
    {
        let c = t[k];
        if !is_digit_x(c) {
            proof {
                assert(t@.subrange(a as int, b as int)[k - a] == c);
            }
            return None;
        }
        let d: u64 = (c as u32 - 48) as u64;
        let wide: u128 = acc as u128 * 10 + d as u128;
        proof {
            let w = t@.subrange(a as int, k + 1);
            assert(w.drop_last() =~= t@.subrange(a as int, k as int));
            assert(w.last() == t@[k as int]);
        }
        acc = if wide > u64::MAX as u128 {
            u64::MAX
        } else {
            wide as u64
        };
        k = k + 1;
    }
    Some(acc)
}

/// Reads a numeric token as hundredths, with the silent-degradation policy:
/// a malformed token is worth zero.
fn token_hundredths(t: &Vec<char>) -> (v: u64)
    ensures
        v == sat64(number_or_zero(t@)),
{
    let n = t.len();
    let mut j: usize = 0;
    while j < n && t[j] != '.'
        invariant
            0 <= j <= n,
            n == t@.len(),
            scan_dot(t@, 0) == scan_dot(t@, j as int),
        decreases n - j,
    {
        j = j + 1;
    }
    if j == n {
        // no dot: the whole token must be digits
        match digits_sat(t, 0, n) {
            Some(ip) => {
                proof {
                    assert(t@.subrange(0, n as int) =~= t@);
                }
                if n == 0 {
                    0
                } else {
                    let wide: u128 = ip as u128 * 100;
                    if wide > u64::MAX as u128 {
                        u64::MAX
                    } else {
                        wide as u64
                    }
                }
            },
            None => {
                proof {
                    assert(t@.subrange(0, n as int) =~= t@);
                }
                0
            },
        }
    } else {
        // dot at j: integer part before it, fraction after it
        if j == 0 {
            0
        } else {
            let ip_ok = digits_sat(t, 0, j);
            let fp_ok = digits_sat(t, j + 1, n);
            match (ip_ok, fp_ok) {
                (Some(ip), Some(_)) => {
                    let ghost fp = t@.subrange(j + 1, n as int);
                    let flen = n - (j + 1);
                    let mut fr: u64 = 0;
                    if flen >= 1 {
                        proof {
                            assert(is_digit(fp[0]));
                        }
                        fr = ((t[j + 1] as u32 - 48) as u64) * 10;
                    }
                    if flen >= 2 {
                        proof {
                            assert(is_digit(fp[1]));
                        }
                        fr = fr + (t[j + 2] as u32 - 48) as u64;
                    }
                    proof {
                        assert(fr == frac_hundredths(fp));
                    }
                    let wide: u128 = ip as u128 * 100 + fr as u128;
                    if wide > u64::MAX as u128 {
                        u64::MAX
                    } else {
                        wide as u64
                    }
                },
                _ => 0,
            }
        }
    }
}

/// Reads a unit token's multiplier.
fn unit_mult(t: &Vec<char>) -> (m: u64)
    ensures
        m == unit_multiplier(t@),
{
    if t.len() == 1 && t[0] == 'B' {
        1
    } else if t.len() == 3 && t[0] == 'K' && t[1] == 'i' && t[2] == 'B' {
        1024
    } else if t.len() == 3 && t[0] == 'M' && t[1] == 'i' && t[2] == 'B' {
        1048576
    } else if t.len() == 3 && t[0] == 'G' && t[1] == 'i' && t[2] == 'B' {
        1073741824
    } else {
        1
    }
}

/// Parses a size string into its ordering key (hundredths of a byte).
/// Total: malformed numbers are worth zero and unknown units multiply by
/// one, exactly as [`size_key_spec`] states.
pub fn size_key(s: &str) -> (key: u128)
    ensures
        key == size_key_spec(s@),
{
    let n = s.unicode_len();
    let mut i: usize = 0;
    while i < n && is_space_x(s.get_char(i))
        invariant
            0 <= i <= n,
            n == s@.len(),
            scan_nonspace(s@, 0) == scan_nonspace(s@, i as int),
        decreases n - i,
    {
        i = i + 1;
    }
    let a0 = i;
    let mut tok0: Vec<char> = Vec::new();
    while i < n && !is_space_x(s.get_char(i))
        invariant
            a0 <= i <= n,
            n == s@.len(),
            scan_space(s@, a0 as int) == scan_space(s@, i as int),
            tok0@ =~= s@.subrange(a0 as int, i as int),
        decreases n - i,
    {
        tok0.push(s.get_char(i));
        i = i + 1;
    }
    let b0 = i;
    while i < n && is_space_x(s.get_char(i))
        invariant
            b0 <= i <= n,
            n == s@.len(),
            scan_nonspace(s@, b0 as int) == scan_nonspace(s@, i as int),
        decreases n - i,
    {
        i = i + 1;
    }
    let a1 = i;
    let mut tok1: Vec<char> = Vec::new();
    while i < n && !is_space_x(s.get_char(i))
        invariant
            a1 <= i <= n,
            n == s@.len(),
            scan_space(s@, a1 as int) == scan_space(s@, i as int),
            tok1@ =~= s@.subrange(a1 as int, i as int),
        decreases n - i,
    {
        tok1.push(s.get_char(i));
        i = i + 1;
    }
    proof {
        assert(a0 == tok0_start(s@));
        assert(b0 == tok0_end(s@));
        assert(a1 == tok1_start(s@));
        assert(i == tok1_end(s@));
    }
    let v = token_hundredths(&tok0);
    let m = unit_mult(&tok1);
    proof {
        assert(v as nat * m as nat <= u64::MAX as nat * 1073741824) by (nonlinear_arith)
            requires
                v <= u64::MAX,
                m <= 1073741824,
        ;
    }
    let key: u128 = v as u128 * m as u128;
    key
}

/// The key an exact byte count would carry: hundredths of a byte.
pub fn key_of_bytes(n: u64) -> (key: u128)
    ensures
        key == 100 * (n as nat),
{
    n as u128 * 100
}

/// The decimal rendering of a count is at least one character long, is all
/// digits, and reads back as the count itself.
proof fn lemma_dec_digits(n: nat)
    ensures
        dec_digits(n).len() >= 1,
        digits_ok(dec_digits(n)),
        digits_val(dec_digits(n)) == n,
    decreases n,
{
    if n < 10 {
        let d = dec_digits(n);
        assert(d.drop_last() =~= Seq::<char>::empty());
        assert(digits_val(Seq::<char>::empty()) == 0);
        assert(d.last() == digit_char(n));
        assert(is_digit(digit_char(n)));
        assert(digit_val(digit_char(n)) == n);
        assert(digits_val(d) == digits_val(d.drop_last()) * 10 + digit_val(d.last()));
    } else {
        lemma_dec_digits(n / 10);
        let d = dec_digits(n);
        assert(d.drop_last() =~= dec_digits(n / 10));
        assert(d.last() == digit_char(n % 10));
        assert(is_digit(digit_char(n % 10)));
        assert(digit_val(digit_char(n % 10)) == n % 10);
        assert(digits_val(d) == (n / 10) * 10 + n % 10);
        assert((n / 10) * 10 + n % 10 == n) by (nonlinear_arith);
    }
}

/// A run of non-space characters ending at a space (or at the end) is
/// exactly what `scan_space` skips.
proof fn lemma_scan_space_run(s: Seq<char>, i: int, t: int)
    requires
        0 <= i <= t <= s.len(),
        forall|k: int| i <= k < t ==> !is_space(#[trigger] s[k]),
        t == s.len() || is_space(s[t]),
    ensures
        scan_space(s, i) == t,
    decreases t - i,
{
    if i < t {
        lemma_scan_space_run(s, i + 1, t);
    }
}

/// A run of space characters ending at a non-space (or at the end) is
/// exactly what `scan_nonspace` skips.
proof fn lemma_scan_nonspace_run(s: Seq<char>, i: int, t: int)
    requires
        0 <= i <= t <= s.len(),
        forall|k: int| i <= k < t ==> is_space(#[trigger] s[k]),
        t == s.len() || !is_space(s[t]),
    ensures
        scan_nonspace(s, i) == t,
    decreases t - i,
{
    if i < t {
        lemma_scan_nonspace_run(s, i + 1, t);
    }
}

/// A dot-free window is scanned to its end.
proof fn lemma_scan_dot_none(t: Seq<char>, i: int)
    requires
        0 <= i <= t.len(),
        forall|k: int| i <= k < t.len() ==> #[trigger] t[k] != '.',
    ensures
        scan_dot(t, i) == t.len(),
    decreases t.len() - i,
{
    if i < t.len() {
        lemma_scan_dot_none(t, i + 1);
    }
}

/// Parsing the exact rendering of a count below 1 KiB — its decimal digits,
/// a space, and the unit `B` — recovers the count, in hundredths.
proof fn lemma_key_of_rendered_small(n: nat)
    requires
        n < 1024,
    ensures
        size_key_spec(dec_digits(n) + seq![' ', 'B']) == 100 * n,
{
    lemma_dec_digits(n);
    let d = dec_digits(n);
    let len = d.len() as int;
    let s = d + seq![' ', 'B'];
    assert forall|k: int| 0 <= k < len implies !is_space(#[trigger] s[k]) && s[k] != '.' by {
        assert(s[k] == d[k]);
        assert(is_digit(d[k]));
    }
    assert(s[len] == ' ' && is_space(s[len]));
    assert(s[len + 1] == 'B' && !is_space(s[len + 1]));
    lemma_scan_nonspace_run(s, 0, 0);
    assert(tok0_start(s) == 0);
    lemma_scan_space_run(s, 0, len);
    assert(tok0_end(s) == len);
    lemma_scan_nonspace_run(s, len, len + 1);
    assert(tok1_start(s) == len + 1);
    lemma_scan_space_run(s, len + 1, len + 2);
    assert(tok1_end(s) == len + 2);
    let t0 = s.subrange(0, len);
    let t1 = s.subrange(len + 1, len + 2);
    assert(t0 =~= d);
    assert(t1.len() == 1 && t1[0] == 'B');
    assert(unit_multiplier(t1) == 1);
    lemma_scan_dot_none(t0, 0);
    assert(number_hundredths(t0) == Some(digits_val(d) * 100));
    assert(number_or_zero(t0) == n * 100);
    assert(sat64(n * 100) == n * 100);
}

/// Law (render/parse round trip): parsing what the renderer produced never
/// fails, and wherever the rendering is exact — below 1 KiB every count is
/// printed in full — the parsed key equals the key of the raw byte count.
pub fn round_trip_key(n: u64) -> (key: u128)
    ensures
        key == size_key_spec(format_binary_of(n as nat)),
        n < 1024 ==> key == 100 * (n as nat),
{
    let s = format_binary(n);
    let key = size_key(s.as_str());
    proof {
        if n < 1024 {
            lemma_key_of_rendered_small(n as nat);
        }
    }
    key
}

} // verus!
