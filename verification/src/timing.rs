//! When a frame starts and ends, in milliseconds from the start of its recording.

use vstd::prelude::*;
use crate::config::SpectrogramConfig;

verus! {

/// Start of frame `index`: `floor(index * stride * 1000 / samplerate)`.
pub open spec fn start_ms(index: nat, fft_len: nat, overlap: nat, samplerate: nat) -> int {
    (index * (fft_len - overlap) * 1000) / (samplerate as int)
}

/// End of frame `index`: `floor((index * stride + fft_len) * 1000 / samplerate)`.
pub open spec fn end_ms(index: nat, fft_len: nat, overlap: nat, samplerate: nat) -> int {
    ((index * (fft_len - overlap) + fft_len) * 1000) / (samplerate as int)
}

/// Start and end of frame `index`, or `None` when the end does not fit the
/// store's 64-bit signed column.
pub fn segment_times(index: usize, samplerate: usize, cfg: &SpectrogramConfig) -> (r: Option<
    (i64, i64),
>)
    requires
        cfg.valid(),
        samplerate > 0,
    ensures
        r is Some <==> end_ms(
            index as nat,
            cfg.fft_len as nat,
            cfg.overlap as nat,
            samplerate as nat,
        ) <= i64::MAX,
        r matches Some((s, e)) ==> s == start_ms(
            index as nat,
            cfg.fft_len as nat,
            cfg.overlap as nat,
            samplerate as nat,
        ) && e == end_ms(
            index as nat,
            cfg.fft_len as nat,
            cfg.overlap as nat,
            samplerate as nat,
        ),
{
    let stride: u128 = (cfg.fft_len - cfg.overlap) as u128;
    let wide_index: u128 = index as u128;
    let rate: u128 = samplerate as u128;
    assert(wide_index * stride <= 0xffff_ffff_ffff_ffff * 0xffff_ffff_ffff_ffff)
        by (nonlinear_arith)
        requires
            0 <= wide_index <= 0xffff_ffff_ffff_ffff,
            0 <= stride <= 0xffff_ffff_ffff_ffff,
    ;
    let start_sample: u128 = wide_index * stride;
    let end_sample: u128 = start_sample + cfg.fft_len as u128;
    let limit: u128 = 0x7fff_ffff_ffff_ffff;
    if end_sample > u128::MAX / 1000 {
        assert((end_sample * 1000) / (rate as int) > limit) by (nonlinear_arith)
            requires
                end_sample > 0xffff_ffff_ffff_ffff_ffff_ffff_ffff_ffffint / 1000,
                0 < rate <= 0xffff_ffff_ffff_ffff,
                limit == 0x7fff_ffff_ffff_ffff,
        ;
        return None;
    }
    let end_time: u128 = end_sample * 1000 / rate;
    if end_time > limit {
        return None;
    }
    let start_time: u128 = start_sample * 1000 / rate;
    assert(start_time <= end_time) by (nonlinear_arith)
        requires
            start_time == (start_sample * 1000) / (rate as int),
            end_time == (end_sample * 1000) / (rate as int),
            start_sample <= end_sample,
            rate > 0,
    ;
    Some((start_time as i64, end_time as i64))
}

/// A frame never ends before it starts, and neither time is negative.
pub proof fn lemma_start_before_end(index: nat, fft_len: nat, overlap: nat, samplerate: nat)
    requires
        overlap < fft_len,
        samplerate > 0,
    ensures
        0 <= start_ms(index, fft_len, overlap, samplerate) <= end_ms(
            index,
            fft_len,
            overlap,
            samplerate,
        ),
{
    let stride = (fft_len - overlap) as int;
    let a = index * stride * 1000;
    let b = (index * stride + fft_len) * 1000;
    assert(0 <= a <= b) by (nonlinear_arith)
        requires
            a == index * stride * 1000,
            b == (index * stride + fft_len) * 1000,
            stride >= 1,
    ;
    lemma_floor_div_ordered(a, b, samplerate as int);
    lemma_floor_div_ordered(0, a, samplerate as int);
}

/// Later frames start and end no earlier than earlier ones.
pub proof fn lemma_times_monotone(i: nat, j: nat, fft_len: nat, overlap: nat, samplerate: nat)
    requires
        overlap < fft_len,
        samplerate > 0,
        i <= j,
    ensures
        start_ms(i, fft_len, overlap, samplerate) <= start_ms(j, fft_len, overlap, samplerate),
        end_ms(i, fft_len, overlap, samplerate) <= end_ms(j, fft_len, overlap, samplerate),
{
    let stride = (fft_len - overlap) as int;
    assert(i * stride <= j * stride) by (nonlinear_arith)
        requires
            i <= j,
            stride >= 1,
    ;
    lemma_floor_div_ordered(i * stride * 1000, j * stride * 1000, samplerate as int);
    lemma_floor_div_ordered(
        (i * stride + fft_len) * 1000,
        (j * stride + fft_len) * 1000,
        samplerate as int,
    );
}

/// Where a stride lasts at least a millisecond, later frames start and end
/// strictly later.
pub proof fn lemma_times_strictly_increase(
    i: nat,
    j: nat,
    fft_len: nat,
    overlap: nat,
    samplerate: nat,
)
    requires
        overlap < fft_len,
        samplerate > 0,
        (fft_len - overlap) * 1000 >= samplerate,
        i < j,
    ensures
        start_ms(i, fft_len, overlap, samplerate) < start_ms(j, fft_len, overlap, samplerate),
        end_ms(i, fft_len, overlap, samplerate) < end_ms(j, fft_len, overlap, samplerate),
{
    let stride = (fft_len - overlap) as int;
    let rate = samplerate as int;
    assert(j * stride * 1000 >= i * stride * 1000 + rate) by (nonlinear_arith)
        requires
            0 <= i < j,
            stride * 1000 >= rate,
            rate > 0,
    ;
    lemma_floor_div_steps(i * stride * 1000, j * stride * 1000, rate);
    assert((j * stride + fft_len) * 1000 >= (i * stride + fft_len) * 1000 + rate)
        by (nonlinear_arith)
        requires
            0 <= i < j,
            stride * 1000 >= rate,
            rate > 0,
    ;
    lemma_floor_div_steps((i * stride + fft_len) * 1000, (j * stride + fft_len) * 1000, rate);
}

/// Where a stride lasts less than a millisecond, the first two frames start in
/// the same millisecond: start times then only never decrease.
pub proof fn lemma_short_stride_repeats_start(fft_len: nat, overlap: nat, samplerate: nat)
    requires
        overlap < fft_len,
        (fft_len - overlap) * 1000 < samplerate,
    ensures
        start_ms(0, fft_len, overlap, samplerate) == start_ms(1, fft_len, overlap, samplerate),
{
    let stride = (fft_len - overlap) as int;
    let rate = samplerate as int;
    assert(0 * stride * 1000 == 0) by (nonlinear_arith);
    assert(1 * stride * 1000 == stride * 1000) by (nonlinear_arith);
    assert((stride * 1000) / rate == 0 && 0int / rate == 0) by (nonlinear_arith)
        requires
            0 <= stride * 1000 < rate,
    ;
}

proof fn lemma_floor_div_ordered(a: int, b: int, d: int)
    by (nonlinear_arith)
    requires
        a <= b,
        d > 0,
    ensures
        a / d <= b / d,
{
}

proof fn lemma_floor_div_steps(a: int, b: int, d: int)
    by (nonlinear_arith)
    requires
        b >= a + d,
        d > 0,
    ensures
        a / d < b / d,
{
}

} // verus!
