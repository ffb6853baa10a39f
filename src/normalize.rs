//! Sample normalisation: any supported integer encoding, any channel count,
//! down to mono signed 16-bit PCM.
use dasp::Sample;
use vstd::arithmetic::div_mod::{lemma_div_is_ordered, lemma_fundamental_div_mod, lemma_mod_pos_bound};
use vstd::arithmetic::mul::lemma_mul_inequality;
use vstd::prelude::*;

verus! {

/// Rust's `/` on integers: the quotient rounded toward zero (`d > 0`).
pub open spec fn trunc_div(a: int, d: int) -> int {
    if a >= 0 {
        a / d
    } else {
        -((-a) / d)
    }
}

/// The first `c` channels' shares of the group that starts at `base`: each
/// sample divided by the channel count on its own, then summed.
pub open spec fn shares(s: Seq<i16>, n: int, base: int, c: int) -> int
    decreases c,
{
    if c <= 0 {
        0
    } else {
        shares(s, n, base, c - 1) + trunc_div(s[base + c - 1] as int, n)
    }
}

/// Mono sample `k` of an interleaved frame with `n` channels.
pub open spec fn mono_sample(s: Seq<i16>, n: int, k: int) -> int {
    shares(s, n, k * n, n)
}

/// The mono signal of an interleaved frame with `n` channels: one sample per
/// complete channel group, a trailing incomplete group dropped.
pub open spec fn is_downmix(r: Seq<i16>, s: Seq<i16>, n: int) -> bool {
    &&& r.len() == s.len() as int / n
    &&& forall|k: int| 0 <= k < r.len() ==> #[trigger] r[k] as int == mono_sample(s, n, k)
}

/// With two channels the mono signal has half as many samples, and each is
/// `left / 2 + right / 2`, each half rounded toward zero.
pub proof fn lemma_stereo_downmix(r: Seq<i16>, s: Seq<i16>)
    requires
        is_downmix(r, s, 2),
    ensures
        r.len() == s.len() / 2,
        forall|k: int|
            0 <= k < r.len() ==> #[trigger] r[k] as int == trunc_div(s[2 * k] as int, 2)
                + trunc_div(s[2 * k + 1] as int, 2),
{
    assert forall|k: int| 0 <= k < r.len() implies #[trigger] r[k] as int == trunc_div(
        s[2 * k] as int,
        2,
    ) + trunc_div(s[2 * k + 1] as int, 2) by {
        assert(r[k] as int == mono_sample(s, 2, k));
        assert(k * 2 == 2 * k);
        assert(shares(s, 2, k * 2, 2) == shares(s, 2, k * 2, 1) + trunc_div(s[k * 2 + 1] as int, 2));
        assert(shares(s, 2, k * 2, 1) == shares(s, 2, k * 2, 0) + trunc_div(s[k * 2] as int, 2));
    }
}

/// Relies on dasp's `Sample::to_sample` for `i8 -> i16`, which goes to
/// `dasp::sample::conv::i8::to_i16`: `(s as i16) << 8`.
#[verifier::external_body]
fn i8_to_i16(s: i8) -> (r: i16)
    ensures
        r as int == s as int * 256,
{
    s.to_sample::<i16>()
}

/// Relies on dasp's `Sample::to_sample` for `i32 -> i16`, which goes to
/// `dasp::sample::conv::i32::to_i16`: `(s >> 16) as i16`, the top sixteen
/// bits (the shift is arithmetic, so the quotient rounds down).
#[verifier::external_body]
fn i32_to_i16(s: i32) -> (r: i16)
    ensures
        r as int == s as int / 65536,
{
    s.to_sample::<i16>()
}

/// `a / d` as Rust computes it, rounding toward zero.
fn div_toward_zero(a: i16, d: u16) -> (r: i16)
    requires
        d > 0,
    ensures
        r as int == trunc_div(a as int, d as int),
{
    if a >= 0 {
        let q: u16 = (a as u16) / d;
        q as i16
    } else {
        let m: u32 = (-(a as i32)) as u32;
        let q: u32 = m / (d as u32);
        assert(q <= 32768);
        -(q as i32) as i16
    }
}

/// Averages each pair of interleaved stereo samples into one mono sample:
/// `left / 2 + right / 2`, each half rounded toward zero on its own so that
/// the sum cannot overflow. A trailing unpaired sample is dropped.
pub fn stereo_to_mono(input_data: &[i16]) -> (r: Vec<i16>)
    ensures
        r@.len() == input_data@.len() / 2,
        forall|k: int|
            0 <= k < r@.len() ==> #[trigger] r@[k] as int == trunc_div(input_data@[2 * k] as int, 2)
                + trunc_div(input_data@[2 * k + 1] as int, 2),
        is_downmix(r@, input_data@, 2),
{
    let len: usize = input_data.len();
    let n: usize = len / 2;
    let mut result: Vec<i16> = Vec::with_capacity(n);
    let mut k: usize = 0;
    while k < n
        invariant
            len == input_data@.len(),
            n == input_data@.len() / 2,
            k <= n,
            result@.len() == k,
            forall|j: int|
                0 <= j < k ==> #[trigger] result@[j] as int == trunc_div(input_data@[2 * j] as int, 2)
                    + trunc_div(input_data@[2 * j + 1] as int, 2),
        decreases n - k,
    {
        proof {
            lemma_group_fits(input_data@.len() as int, 2, k as int);
        }
        let left = div_toward_zero(input_data[2 * k], 2);
        let right = div_toward_zero(input_data[2 * k + 1], 2);
        result.push(left + right);
        k += 1;
    }
    assert forall|k: int| 0 <= k < result@.len() implies #[trigger] result@[k] as int
        == mono_sample(input_data@, 2, k) by {
        assert(shares(input_data@, 2, k * 2, 2) == shares(input_data@, 2, k * 2, 1) + trunc_div(
            input_data@[k * 2 + 1] as int,
            2,
        ));
        assert(shares(input_data@, 2, k * 2, 1) == shares(input_data@, 2, k * 2, 0) + trunc_div(
            input_data@[k * 2] as int,
            2,
        ));
    }
    result
}

/// Each `i8` sample widened as dasp widens it to 16 bits.
pub open spec fn widen_i8(s: Seq<i8>) -> Seq<i16> {
    s.map_values(|x: i8| (x as int * 256) as i16)
}

/// Each `i32` sample narrowed as dasp narrows it to 16 bits.
pub open spec fn narrow_i32(s: Seq<i32>) -> Seq<i16> {
    s.map_values(|x: i32| (x as int / 65536) as i16)
}

/// `d * (a / d)` stays within `a`, and a group index below `len / d` leaves
/// room for a whole group.
proof fn lemma_group_fits(len: int, d: int, k: int)
    requires
        d > 0,
        len >= 0,
        0 <= k < len / d,
    ensures
        (k + 1) * d <= len,
        k * d + d == (k + 1) * d,
{
    lemma_fundamental_div_mod(len, d);
    lemma_mod_pos_bound(len, d);
    lemma_mul_inequality(k + 1, len / d, d);
    assert(k * d + d == (k + 1) * d) by (nonlinear_arith);
    assert((len / d) * d == d * (len / d)) by (nonlinear_arith);
}

/// One share of a sample lies within what the channel count allows.
proof fn lemma_share_bounds(x: int, d: int)
    requires
        d > 0,
        -32768 <= x <= 32767,
    ensures
        -(32768int / d) <= trunc_div(x, d) <= 32767int / d,
{
    if x >= 0 {
        lemma_div_is_ordered(x, 32767, d);
        lemma_div_is_ordered(0, x, d);
    } else {
        lemma_div_is_ordered(-x, 32768, d);
        lemma_div_is_ordered(0, -x, d);
    }
}

/// Downmixes an interleaved frame of `channels` channels to mono: each output
/// sample is the sum of the group's samples, each divided by the channel
/// count (rounding toward zero) on its own. With two channels this is
/// `left / 2 + right / 2`; with one it is the frame itself.
pub fn downmix(data: &[i16], channels: u16) -> (r: Vec<i16>)
    requires
        channels >= 1,
    ensures
        is_downmix(r@, data@, channels as int),
        channels == 1 ==> r@ == data@,
{
    let ch: usize = channels as usize;
    let len: usize = data.len();
    let n: usize = len / ch;
    let ghost q1: int = 32768int / (ch as int);
    let ghost q2: int = 32767int / (ch as int);
    proof {
        lemma_fundamental_div_mod(32768, ch as int);
        lemma_mod_pos_bound(32768, ch as int);
        lemma_fundamental_div_mod(32767, ch as int);
        lemma_mod_pos_bound(32767, ch as int);
        assert(q1 >= 0 && q2 >= 0) by {
            lemma_div_is_ordered(0, 32767, ch as int);
        }
    }
    let mut result: Vec<i16> = Vec::with_capacity(n);
    let mut k: usize = 0;
    let mut base: usize = 0;
    while k < n
        invariant
            ch == channels as usize,
            ch >= 1,
            len == data@.len(),
            n == data@.len() / (ch as nat),
            q1 == 32768int / (ch as int),
            q2 == 32767int / (ch as int),
            (ch as int) * q1 <= 32768,
            (ch as int) * q2 <= 32767,
            q1 >= 0,
            q2 >= 0,
            k <= n,
            base == k * ch,
            result@.len() == k,
            forall|j: int|
                0 <= j < k ==> #[trigger] result@[j] as int == mono_sample(data@, ch as int, j),
        decreases n - k,
    {
        proof {
            lemma_group_fits(data@.len() as int, ch as int, k as int);
            assert(base + ch <= data@.len());
        }
        let mut acc: i32 = 0;
        let mut c: usize = 0;
        while c < ch
            invariant
                ch == channels as usize,
                ch >= 1,
                (ch as int) * q1 <= 32768,
                (ch as int) * q2 <= 32767,
                q1 == 32768int / (ch as int),
                q2 == 32767int / (ch as int),
                q1 >= 0,
                q2 >= 0,
                len == data@.len(),
                base + ch <= data@.len(),
                c <= ch,
                acc as int == shares(data@, ch as int, base as int, c as int),
                -((c as int) * q1) <= acc <= (c as int) * q2,
            decreases ch - c,
        {
            assert(base + c < data@.len());
            let x = data[base + c];
            let share = div_toward_zero(x, channels);
            proof {
                lemma_share_bounds(x as int, ch as int);
                lemma_mul_inequality(c as int + 1, ch as int, q1);
                lemma_mul_inequality(c as int + 1, ch as int, q2);
                assert((c as int + 1) * q1 == (c as int) * q1 + q1) by (nonlinear_arith);
                assert((c as int + 1) * q2 == (c as int) * q2 + q2) by (nonlinear_arith);
            }
            acc = acc + share as i32;
            c += 1;
        }
        proof {
            lemma_mul_inequality(c as int, ch as int, q1);
        }
        result.push(acc as i16);
        k += 1;
        base += ch;
    }
    proof {
        if ch == 1 {
            assert(data@.len() as int / 1 == data@.len());
            assert forall|j: int| 0 <= j < result@.len() implies result@[j] == data@[j] by {
                assert(shares(data@, 1, j * 1, 1) == shares(data@, 1, j * 1, 0) + trunc_div(
                    data@[j * 1] as int,
                    1,
                ));
            }
            assert(result@ =~= data@);
        }
    }
    result
}

/// Normalises a frame of signed 16-bit samples with `channels` interleaved
/// channels to mono.
pub fn normalize_i16(data: &[i16], channels: u16) -> (r: Vec<i16>)
    requires
        channels >= 1,
    ensures
        is_downmix(r@, data@, channels as int),
        channels == 1 ==> r@ == data@,
{
    downmix(data, channels)
}

/// Normalises a frame of signed 8-bit samples: each is widened to 16 bits,
/// then the frame is downmixed to mono.
pub fn normalize_i8(data: &[i8], channels: u16) -> (r: Vec<i16>)
    requires
        channels >= 1,
    ensures
        is_downmix(r@, widen_i8(data@), channels as int),
{
    let mut wide: Vec<i16> = Vec::with_capacity(data.len());
    let mut i: usize = 0;
    while i < data.len()
        invariant
            i <= data@.len(),
            wide@ == widen_i8(data@).subrange(0, i as int),
        decreases data@.len() - i,
    {
        let w = i8_to_i16(data[i]);
        wide.push(w);
        i += 1;
        assert(wide@ =~= widen_i8(data@).subrange(0, i as int));
    }
    assert(wide@ =~= widen_i8(data@));
    downmix(wide.as_slice(), channels)
}

/// Normalises a frame of signed 32-bit samples: each is narrowed to its top
/// 16 bits, then the frame is downmixed to mono.
pub fn normalize_i32(data: &[i32], channels: u16) -> (r: Vec<i16>)
    requires
        channels >= 1,
    ensures
        is_downmix(r@, narrow_i32(data@), channels as int),
{
    let mut narrow: Vec<i16> = Vec::with_capacity(data.len());
    let mut i: usize = 0;
    while i < data.len()
        invariant
            i <= data@.len(),
            narrow@ == narrow_i32(data@).subrange(0, i as int),
        decreases data@.len() - i,
    {
        let w = i32_to_i16(data[i]);
        narrow.push(w);
        i += 1;
        assert(narrow@ =~= narrow_i32(data@).subrange(0, i as int));
    }
    assert(narrow@ =~= narrow_i32(data@));
    downmix(narrow.as_slice(), channels)
}

} // verus!
