//! Run settings: the window and upload-interval checks made before capture
//! starts, and the sizes the aggregator is built with.

use vstd::prelude::*;
use crate::text::{append_decimal, decimal};

verus! {

/// Upload intervals must stay below this many milliseconds, the lifetime of
/// an injected field on the receiving side.
pub const FIELD_TTL_MS: u64 = 5000;

/// Why a pair of timing settings was refused.
#[derive(Debug, Clone, Copy, PartialEq, Eq, Structural)]
pub enum SettingsError {
    /// The window length was zero.
    ZeroWindow,
    /// The interval was zero or not below the field lifetime.
    IntervalOutOfRange,
}

/// Checks the window and interval lengths: the window first, then the
/// interval, which must lie in `1..FIELD_TTL_MS`.
pub fn check_timing(window_ms: u64, interval_ms: u64) -> (r: Result<(), SettingsError>)
    ensures
        window_ms == 0 ==> r == Err::<(), SettingsError>(SettingsError::ZeroWindow),
        window_ms != 0 && (interval_ms == 0 || interval_ms >= FIELD_TTL_MS) ==> r == Err::<
            (),
            SettingsError,
        >(SettingsError::IntervalOutOfRange),
        r is Ok <==> (window_ms != 0 && 0 < interval_ms < FIELD_TTL_MS),
{
    if window_ms == 0 {
        return Err(SettingsError::ZeroWindow);
    }
    if interval_ms == 0 || interval_ms >= FIELD_TTL_MS {
        return Err(SettingsError::IntervalOutOfRange);
    }
    Ok(())
}

/// Frames in one window: the whole number of frames that `window_ms`
/// milliseconds hold at `sample_rate` Hz, and at least one.
pub open spec fn frames_per_window(sample_rate: u32, window_ms: u64) -> nat {
    let f = (sample_rate * window_ms) / 1000;
    if f < 1 {
        1
    } else {
        f as nat
    }
}

/// Windows in one batch: the whole number of windows in one upload
/// interval, and at least one.
pub open spec fn windows_per_batch(interval_ms: u64, window_ms: u64) -> nat {
    let b = interval_ms / window_ms;
    if b < 1 {
        1
    } else {
        b as nat
    }
}

/// A batch holds as many whole windows as fit in the interval: `n`
/// windows of `window_ms` fit in `interval_ms` and `n + 1` do not; an
/// interval shorter than one window still gives one.
pub proof fn lemma_windows_per_batch_fill_interval(interval_ms: u64, window_ms: u64)
    requires
        window_ms > 0,
    ensures
        windows_per_batch(interval_ms, window_ms) >= 1,
        interval_ms >= window_ms ==> windows_per_batch(interval_ms, window_ms) * window_ms
            <= interval_ms < (windows_per_batch(interval_ms, window_ms) + 1) * window_ms,
        interval_ms < window_ms ==> windows_per_batch(interval_ms, window_ms) == 1,
{
    let i = interval_ms as int;
    let w = window_ms as int;
    let q = i / w;
    vstd::arithmetic::div_mod::lemma_fundamental_div_mod(i, w);
    vstd::arithmetic::div_mod::lemma_mod_pos_bound(i, w);
    assert(q * w <= i < q * w + w) by (nonlinear_arith)
        requires
            i == w * q + i % w,
            0 <= i % w < w,
    ;
    assert((q + 1) * w == q * w + w) by (nonlinear_arith);
    if i >= w {
        assert(q >= 1) by (nonlinear_arith)
            requires
                i < q * w + w,
                i >= w,
                w > 0,
        ;
    } else {
        assert(q < 1) by (nonlinear_arith)
            requires
                q * w <= i,
                i < w,
                w > 0,
        ;
        assert(q >= 0) by (nonlinear_arith)
            requires
                i < q * w + w,
                i >= 0,
                w > 0,
        ;
    }
}

/// A window holds as many whole frames as `window_ms` milliseconds give at
/// `sample_rate` Hz: `n` frames last at most that long and `n + 1` frames
/// longer; under one frame still gives one.
pub proof fn lemma_frames_per_window_fill_window(sample_rate: u32, window_ms: u64)
    ensures
        frames_per_window(sample_rate, window_ms) >= 1,
        sample_rate * window_ms >= 1000 ==> frames_per_window(sample_rate, window_ms) * 1000
            <= sample_rate * window_ms < (frames_per_window(sample_rate, window_ms) + 1) * 1000,
        sample_rate * window_ms < 1000 ==> frames_per_window(sample_rate, window_ms) == 1,
{
    let t = sample_rate * window_ms;
    assert(t >= 0) by (nonlinear_arith)
        requires
            t == sample_rate * window_ms,
    ;
    let q = t / 1000;
    assert(q * 1000 <= t < q * 1000 + 1000);
}

/// Frames in one window of `window_ms` milliseconds at `sample_rate` Hz.
pub fn window_frames(sample_rate: u32, window_ms: u64) -> (r: usize)
    requires
        sample_rate * window_ms <= u64::MAX,
        frames_per_window(sample_rate, window_ms) <= usize::MAX,
    ensures
        r == frames_per_window(sample_rate, window_ms),
{
    let total: u64 = sample_rate as u64 * window_ms;
    let frames: u64 = total / 1000;
    if frames < 1 {
        1
    } else {
        frames as usize
    }
}

/// Windows in one batch for an upload every `interval_ms` milliseconds.
pub fn batch_bins(interval_ms: u64, window_ms: u64) -> (r: usize)
    requires
        window_ms > 0,
        windows_per_batch(interval_ms, window_ms) <= usize::MAX,
    ensures
        r == windows_per_batch(interval_ms, window_ms),
{
    let bins: u64 = interval_ms / window_ms;
    if bins < 1 {
        1
    } else {
        bins as usize
    }
}

/// Whether `window_frames` can be computed for these settings: the product
/// fits in 64 bits and the frame count in a `usize`.
pub fn frames_per_window_fits(sample_rate: u32, window_ms: u64) -> (r: bool)
    ensures
        r == (sample_rate * window_ms <= u64::MAX && frames_per_window(sample_rate, window_ms)
            <= usize::MAX),
{
    match (sample_rate as u64).checked_mul(window_ms) {
        None => false,
        Some(total) => {
            let frames: u64 = total / 1000;
            frames <= usize::MAX as u64
        },
    }
}

/// Whether `batch_bins` can be computed for these settings.
pub fn windows_per_batch_fits(interval_ms: u64, window_ms: u64) -> (r: bool)
    ensures
        r == (window_ms > 0 && windows_per_batch(interval_ms, window_ms) <= usize::MAX),
{
    if window_ms == 0 {
        false
    } else {
        interval_ms / window_ms <= usize::MAX as u64
    }
}

/// The address that batches are posted to.
pub open spec fn inject_url_spec(host: Seq<char>, port: u16) -> Seq<char> {
    "http://"@ + host + ":"@ + decimal(port as nat) + "/inject"@
}

/// The injection endpoint of the service on `host`:`port`.
pub fn inject_url(host: &str, port: u16) -> (r: String)
    ensures
        r@ == inject_url_spec(host@, port),
{
    let mut url = String::from_str("http://");
    url.append(host);
    url.append(":");
    append_decimal(&mut url, port as u64);
    url.append("/inject");
    url
}

} // verus!
