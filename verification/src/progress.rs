//! Progress bar state and the human-readable sizes and times it prints.
//!
//! A size is printed as its `f64` value would be: the byte count is first
//! rounded to 53 significant bits (ties to even), divided by a power of 1024
//! (which is exact), and printed with one decimal rounded to nearest, ties to
//! even.
use crate::text::{append_chars, chars_of, decimal, decimal_of, decimal_padded, decimal_padded_of, digit_char};
use vstd::arithmetic::power2::{lemma2_to64, lemma2_to64_rest, lemma_pow2_adds, lemma_pow2_unfold, pow2};
use vstd::prelude::*;

verus! {

/// Number of bits of `n`.
pub open spec fn bit_len(n: nat) -> nat
    decreases n,
{
    if n == 0 {
        0
    } else {
        1 + bit_len(n / 2)
    }
}

/// `n / d` rounded to nearest, ties to even.
pub open spec fn div_round_even(n: nat, d: nat) -> nat {
    let q = n / d;
    let r = n % d;
    if 2 * r > d || (2 * r == d && q % 2 == 1) {
        q + 1
    } else {
        q
    }
}

/// The value of `b as f64`: `b` rounded to 53 significant bits, ties to even.
pub open spec fn f64_value(b: nat) -> nat {
    if bit_len(b) <= 53 {
        b
    } else {
        let k = (bit_len(b) - 53) as nat;
        div_round_even(b, pow2(k)) * pow2(k)
    }
}

/// `1024^u` for `u <= 4`.
pub open spec fn pow1024(u: nat) -> nat {
    if u == 0 {
        1
    } else if u == 1 {
        1024
    } else if u == 2 {
        1048576
    } else if u == 3 {
        1073741824
    } else {
        1099511627776
    }
}

/// The unit index of a size: divisions by 1024 while it stays at least 1024, at most 4.
pub open spec fn size_unit(m: nat) -> nat {
    if m >= pow1024(4) {
        4
    } else if m >= pow1024(3) {
        3
    } else if m >= pow1024(2) {
        2
    } else if m >= pow1024(1) {
        1
    } else {
        0
    }
}

/// Name of a binary unit.
pub open spec fn unit_name(u: nat) -> Seq<char> {
    if u == 1 {
        "KiB"@
    } else if u == 2 {
        "MiB"@
    } else if u == 3 {
        "GiB"@
    } else {
        "TiB"@
    }
}

/// `m / d` printed with one decimal (rounded to nearest, ties to even).
pub open spec fn one_decimal(m: nat, d: nat) -> Seq<char> {
    let t = div_round_even(10 * m, d);
    decimal(t / 10) + seq!['.', digit_char(t % 10)]
}

/// `format_size`: bytes below 1 KiB as `N B`, larger sizes in KiB, MiB, GiB
/// or TiB with one decimal.
pub open spec fn format_size_spec(bytes: nat) -> Seq<char> {
    let m = f64_value(bytes);
    let u = size_unit(m);
    if u == 0 {
        decimal(bytes) + " B"@
    } else {
        one_decimal(m, pow1024(u)) + seq![' '] + unit_name(u)
    }
}

/// `format_time`: minutes and seconds, each at least two digits, as `MM:SS`.
pub open spec fn format_time_spec(seconds: nat) -> Seq<char> {
    decimal_padded(seconds / 60, 2) + seq![':'] + decimal_padded(seconds % 60, 2)
}

/// Bit length of a `u64`.
fn bit_len_of(b: u64) -> (r: u32)
    ensures
        r == bit_len(b as nat),
        r <= 64,
{
    proof {
        lemma_bit_len_u64(b);
    }
    let mut n = b;
    let mut len: u32 = 0;
    while n > 0
        invariant
            bit_len(b as nat) == len + bit_len(n as nat),
            bit_len(b as nat) <= 64,
        decreases n,
    {
        n = n / 2;
        len = len + 1;
    }
    len
}

/// A `u64` has at most 64 bits.
proof fn lemma_bit_len_u64(n: u64)
    ensures
        bit_len(n as nat) <= 64,
{
    lemma2_to64();
    lemma_bit_len_bound(n as nat, 64);
}

/// `n < 2^k` has at most `k` bits.
proof fn lemma_bit_len_bound(n: nat, k: nat)
    requires
        n < pow2(k),
    ensures
        bit_len(n) <= k,
    decreases k,
{
    if n > 0 {
        if k == 0 {
            lemma2_to64();
        } else {
            lemma_pow2_unfold(k);
            lemma_bit_len_bound(n / 2, (k - 1) as nat);
        }
    }
}

/// `2^k` is small for `k <= 11`.
proof fn lemma_pow2_small(k: nat)
    requires
        k <= 11,
    ensures
        1 <= pow2(k) <= 2048,
{
    lemma2_to64();
}

/// `n >= 2^(bit_len(n) - 1)` for `n > 0`.
proof fn lemma_bit_len_lower(n: nat)
    requires
        n > 0,
    ensures
        bit_len(n) >= 1,
        n >= pow2((bit_len(n) - 1) as nat),
    decreases n,
{
    if n >= 2 {
        lemma_bit_len_lower(n / 2);
        assert(bit_len(n) == 1 + bit_len(n / 2));
        lemma_pow2_unfold(bit_len(n / 2));
    } else {
        assert(bit_len(0) == 0);
        lemma2_to64();
    }
}

/// `n < 2^bit_len(n)`.
proof fn lemma_bit_len_upper(n: nat)
    ensures
        n < pow2(bit_len(n)),
    decreases n,
{
    if n == 0 {
        lemma2_to64();
    } else {
        lemma_bit_len_upper(n / 2);
        assert(bit_len(n) == 1 + bit_len(n / 2));
        lemma_pow2_unfold(bit_len(n));
    }
}

/// `b as f64`, as an exact integer.
pub(crate) fn f64_value_of(b: u64) -> (m: u128)
    ensures
        m == f64_value(b as nat),
        m <= 0x1_0000_0000_0000_0000,
        (b as nat) < 1024 ==> m == b,
        m < 0x20_0000_0000_0000 ==> m == b,
{
    let len = bit_len_of(b);
    if len <= 53 {
        return b as u128;
    }
    let k = len - 53;
    let mut unit: u128 = 1;
    let mut i: u32 = 0;
    proof {
        lemma2_to64();
    }
    while i < k
        invariant
            i <= k,
            k <= 11,
            unit == pow2(i as nat),
        decreases k - i,
    {
        proof {
            lemma_pow2_small(i as nat);
            lemma_pow2_unfold((i + 1) as nat);
        }
        unit = unit * 2;
        i = i + 1;
    }
    proof {
        lemma_pow2_small(k as nat);
    }
    let bb = b as u128;
    let q = bb / unit;
    let r = bb % unit;
    assert(q * unit <= bb) by (nonlinear_arith)
        requires
            q == bb / unit,
            unit > 0,
    ;
    let q2 = if 2 * r > unit || (2 * r == unit && q % 2 == 1) {
        q + 1
    } else {
        q
    };
    assert(q2 <= 0x20_0000_0000_0000) by {
        lemma_bit_len_upper(b as nat);
        lemma_pow2_adds(53, k as nat);
        lemma2_to64_rest();
        assert(bb < 0x20_0000_0000_0000 * unit);
        assert(q < 0x20_0000_0000_0000) by (nonlinear_arith)
            requires
                q * unit <= bb,
                bb < 0x20_0000_0000_0000 * unit,
                unit > 0,
        ;
    }
    assert(q2 * unit <= 0x1_0000_0000_0000_0000) by (nonlinear_arith)
        requires
            q2 <= 0x20_0000_0000_0000,
            unit <= 2048,
    ;
    let m = q2 * unit;
    assert(m >= 0x20_0000_0000_0000) by {
        lemma_bit_len_lower(b as nat);
        lemma_pow2_adds(52, k as nat);
        lemma2_to64_rest();
        assert(bb >= 0x10_0000_0000_0000 * unit);
        assert(q >= 0x10_0000_0000_0000) by (nonlinear_arith)
            requires
                q == bb / unit,
                bb >= 0x10_0000_0000_0000 * unit,
                unit > 0,
        ;
        assert(unit >= 2) by {
            lemma_pow2_unfold(k as nat);
            crate::progress::lemma_pow2_small((k - 1) as nat);
        }
        assert(q2 * unit >= 0x20_0000_0000_0000) by (nonlinear_arith)
            requires
                q2 >= q,
                q >= 0x10_0000_0000_0000,
                unit >= 2,
        ;
    }
    proof {
        assert(m == div_round_even(b as nat, pow2(k as nat)) * pow2(k as nat));
        if (b as nat) < 1024 {
            lemma2_to64();
            lemma_bit_len_bound(b as nat, 10);
        }
    }
    m
}

/// Human-readable size with a binary unit (`512 B`, `1.5 KiB`, `1.0 GiB`).
pub fn format_size(bytes: u64) -> (r: String)
    ensures
        r@ == format_size_spec(bytes as nat),
{
    let m = f64_value_of(bytes);
    let u: u32 = if m >= 1099511627776 {
        4
    } else if m >= 1073741824 {
        3
    } else if m >= 1048576 {
        2
    } else if m >= 1024 {
        1
    } else {
        0
    };
    let mut out: Vec<char>;
    if u == 0 {
        out = decimal_of(bytes);
        append_chars(&mut out, &chars_of(" B"));
    } else {
        let d: u128 = if u == 1 {
            1024
        } else if u == 2 {
            1048576
        } else if u == 3 {
            1073741824
        } else {
            1099511627776
        };
        out = one_decimal_of(m, d);
        let sp: [char; 1] = [' '];
        assert(sp@ =~= seq![' ']);
        append_chars(&mut out, &sp);
        let name = if u == 1 {
            chars_of("KiB")
        } else if u == 2 {
            chars_of("MiB")
        } else if u == 3 {
            chars_of("GiB")
        } else {
            chars_of("TiB")
        };
        append_chars(&mut out, &name);
    }
    crate::text::string_of(&out)
}

/// `m / d` with one decimal, rounded to nearest, ties to even.
pub(crate) fn one_decimal_of(m: u128, d: u128) -> (r: Vec<char>)
    requires
        1024 <= d <= 1099511627776,
        m <= 0x1_0000_0000_0000_0000,
    ensures
        r@ == one_decimal(m as nat, d as nat),
{
    let n = 10 * m;
    let q = n / d;
    assert(q <= n) by (nonlinear_arith)
        requires
            q == n / d,
            d >= 1,
    ;
    let rem = n % d;
    assert(q <= n / 1024) by (nonlinear_arith)
        requires
            q == n / d,
            d >= 1024,
    ;
    assert(rem < d) by (nonlinear_arith)
        requires
            rem == n % d,
            d >= 1,
    ;
    let t = if 2 * rem > d || (2 * rem == d && q % 2 == 1) {
        q + 1
    } else {
        q
    };
    let whole = (t / 10) as u64;
    let digit = (t % 10) as u64;
    let mut out = decimal_of(whole);
    out.push('.');
    out.push(crate::text::char_of_digit(digit));
    assert(out@ =~= decimal((t / 10) as nat) + seq!['.', digit_char((t % 10) as nat)]);
    out
}

/// Human-readable time as `MM:SS` (minutes are not wrapped at 60).
pub fn format_time(seconds: u64) -> (r: String)
    ensures
        r@ == format_time_spec(seconds as nat),
{
    let mins = seconds / 60;
    let secs = seconds % 60;
    let mut out = decimal_padded_of(mins, 2);
    out.push(':');
    append_chars(&mut out, &decimal_padded_of(secs, 2));
    assert(out@ =~= decimal_padded((seconds / 60) as nat, 2) + seq![':'] + decimal_padded(
        (seconds % 60) as nat,
        2,
    ));
    crate::text::string_of(&out)
}

/// Progress bar state: what has been downloaded and when the bar was last drawn.
///
/// Times are milliseconds of a monotonic clock chosen by the caller.
pub struct ProgressBar {
    filename: String,
    total_size: u64,
    downloaded: u64,
    start_ms: u64,
    last_update_ms: u64,
    last_downloaded: u64,
    width: usize,
}

/// Smallest interval between two drawings, in milliseconds.
pub const REDRAW_INTERVAL_MS: u64 = 100;

impl ProgressBar {
    /// Name shown on the bar.
    pub closed spec fn filename_view(&self) -> Seq<char> {
        self.filename@
    }

    /// Size of the download.
    pub closed spec fn total_view(&self) -> u64 {
        self.total_size
    }

    /// Bytes downloaded so far.
    pub closed spec fn downloaded_view(&self) -> u64 {
        self.downloaded
    }

    /// When the bar was created.
    pub closed spec fn start_view(&self) -> u64 {
        self.start_ms
    }

    /// When the bar was last drawn (or created).
    pub closed spec fn last_update_view(&self) -> u64 {
        self.last_update_ms
    }

    /// Bytes downloaded at the last drawing.
    pub closed spec fn last_downloaded_view(&self) -> u64 {
        self.last_downloaded
    }

    /// Width of the bar in characters.
    pub closed spec fn width_view(&self) -> usize {
        self.width
    }

    /// Create a new progress bar at time `now_ms`, 40 characters wide.
    pub fn new(filename: String, total_size: u64, now_ms: u64) -> (r: Self)
        ensures
            r.filename_view() == filename@,
            r.total_view() == total_size,
            r.downloaded_view() == 0,
            r.start_view() == now_ms,
            r.last_update_view() == now_ms,
            r.last_downloaded_view() == 0,
            r.width_view() == 40,
    {
        ProgressBar {
            filename,
            total_size,
            downloaded: 0,
            start_ms: now_ms,
            last_update_ms: now_ms,
            last_downloaded: 0,
            width: 40,
        }
    }

    /// Record the downloaded bytes at time `now_ms`; returns whether the bar
    /// is to be drawn now, which is when at least 100 ms passed since the last
    /// drawing (a clock going backwards counts as no time passing).
    pub fn update(&mut self, downloaded: u64, now_ms: u64) -> (redraw: bool)
        ensures
            final(self).downloaded_view() == downloaded,
            redraw == (now_ms >= old(self).last_update_view() && now_ms - old(
                self,
            ).last_update_view() >= REDRAW_INTERVAL_MS),
            redraw ==> final(self).last_update_view() == now_ms
                && final(self).last_downloaded_view() == downloaded,
            !redraw ==> final(self).last_update_view() == old(self).last_update_view()
                && final(self).last_downloaded_view() == old(self).last_downloaded_view(),
            final(self).filename_view() == old(self).filename_view(),
            final(self).total_view() == old(self).total_view(),
            final(self).start_view() == old(self).start_view(),
            final(self).width_view() == old(self).width_view(),
    {
        self.downloaded = downloaded;
        let elapsed = if now_ms >= self.last_update_ms {
            now_ms - self.last_update_ms
        } else {
            0
        };
        if elapsed < REDRAW_INTERVAL_MS {
            return false;
        }
        self.last_update_ms = now_ms;
        self.last_downloaded = downloaded;
        true
    }

    /// Name shown on the bar.
    pub fn filename(&self) -> (r: &str)
        ensures
            r@ == self.filename_view(),
    {
        self.filename.as_str()
    }

    /// Size of the download.
    pub fn total_size(&self) -> (r: u64)
        ensures
            r == self.total_view(),
    {
        self.total_size
    }

    /// Bytes downloaded so far.
    pub fn downloaded(&self) -> (r: u64)
        ensures
            r == self.downloaded_view(),
    {
        self.downloaded
    }

    /// Milliseconds from the creation of the bar to `now_ms` (0 if the clock went back).
    pub fn elapsed_ms(&self, now_ms: u64) -> (r: u64)
        ensures
            r == (if now_ms >= self.start_view() {
                now_ms - self.start_view()
            } else {
                0
            }),
    {
        if now_ms >= self.start_ms {
            now_ms - self.start_ms
        } else {
            0
        }
    }

    /// Width of the bar in characters.
    pub fn width(&self) -> (r: usize)
        ensures
            r == self.width_view(),
    {
        self.width
    }
}

} // verus!
