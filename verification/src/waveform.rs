//! Windowed waveform aggregation.
//!
//! Interleaved PCM arrives in chunks of any length. Each whole frame (one
//! sample per channel; a trailing partial frame is dropped) is mixed down to
//! one mono sample, mono samples are grouped into windows of a fixed number
//! of frames, each full window is summarised into a bin, and once enough
//! bins have gathered they leave together as a batch. A window may span any
//! number of pushes.
//!
//! The sample arithmetic (mixing a frame, summarising a window) is handed in
//! by the caller as two functions; this module owns the framing, windowing
//! and batching, and states the result in terms of what those functions
//! return.

use vstd::prelude::*;

verus! {

/// Samples per frame: the channel count, where zero channels count as one.
pub open spec fn frame_width(channels: u16) -> nat {
    if channels == 0 {
        1
    } else {
        channels as nat
    }
}

/// Frames per window: a window of zero frames closes after every frame,
/// exactly as a window of one frame does.
pub open spec fn window_width(window_frames: usize) -> nat {
    if window_frames == 0 {
        1
    } else {
        window_frames as nat
    }
}

/// The `i`-th frame of interleaved `samples`, `width` samples wide.
pub open spec fn frame_at<T>(samples: Seq<T>, width: nat, i: int) -> Seq<T> {
    samples.subrange(i * width, i * width + width)
}

/// The `j`-th window of the mono stream `mono`, `width` samples wide.
pub open spec fn window_at<T>(mono: Seq<T>, width: nat, j: int) -> Seq<T> {
    mono.subrange(j * width, j * width + width)
}

/// `sample` is a value that `mix` returns for a frame holding `frame`.
pub open spec fn mixes<T, M: Fn(&[T]) -> T>(mix: M, frame: Seq<T>, sample: T) -> bool {
    exists|s: &[T]| s@ == frame && #[trigger] call_ensures(mix, (s,), sample)
}

/// `bin` is a value that `summarize` returns for a window holding `window`.
pub open spec fn summarizes<T, B, F: Fn(&[T]) -> B>(summarize: F, window: Seq<T>, bin: B) -> bool {
    exists|s: &[T]| s@ == window && #[trigger] call_ensures(summarize, (s,), bin)
}

/// One batch of bins, the unit that is reported upstream.
pub struct WaveformBatch<B> {
    /// Name of the capture device.
    pub device: String,
    /// Sample rate of the capture, in Hz.
    pub sample_rate: u32,
    /// Length of one window, in milliseconds.
    pub window_ms: u64,
    /// Length of the whole batch: `window_ms` times the number of bins.
    pub duration_ms: u64,
    /// One summary per window, oldest first.
    pub bins: Vec<B>,
}

/// The abstract state of an [`Aggregator`].
pub struct AggregatorView<T, B> {
    pub window_frames: usize,
    pub batch_bins: usize,
    pub device: Seq<char>,
    pub sample_rate: u32,
    pub window_ms: u64,
    /// Mono samples of the window that is still open.
    pub pending: Seq<T>,
    /// Bins of the batch that is still open.
    pub bins: Seq<B>,
}

impl<T, B> AggregatorView<T, B> {
    /// The open window is never full: a full window is closed at once.
    pub open spec fn wf(self) -> bool {
        self.pending.len() < window_width(self.window_frames)
    }

    /// The settings are those of `other`.
    pub open spec fn same_settings(self, other: Self) -> bool {
        &&& self.window_frames == other.window_frames
        &&& self.batch_bins == other.batch_bins
        &&& self.device == other.device
        &&& self.sample_rate == other.sample_rate
        &&& self.window_ms == other.window_ms
    }

    /// Number of windows that close when `extra` mono samples follow the
    /// open window.
    pub open spec fn closing(self, extra: nat) -> nat {
        (self.pending.len() + extra) / window_width(self.window_frames)
    }

    /// The batch duration cannot overflow when `extra` mono samples arrive:
    /// it is computed only when a batch is cut, from the bins it holds.
    pub open spec fn duration_fits(self, extra: nat) -> bool {
        let n = self.bins.len() + self.closing(extra);
        n >= self.batch_bins ==> self.window_ms * n <= u64::MAX
    }

    /// Feeding the mono samples `mono` into this state closes the windows
    /// of `pending ++ mono` that are full, appends one bin per closed
    /// window to `bins` (giving `fed`), and leaves the rest open
    /// (`open_after`).
    pub open spec fn feeds<F: Fn(&[T]) -> B>(
        self,
        summarize: F,
        mono: Seq<T>,
        fed: Seq<B>,
        open_after: Seq<T>,
    ) -> bool {
        let stream = self.pending + mono;
        let w = window_width(self.window_frames);
        let k = stream.len() / w;
        &&& open_after == stream.subrange((k * w) as int, stream.len() as int)
        &&& fed.len() == self.bins.len() + k
        &&& fed.subrange(0, self.bins.len() as int) == self.bins
        &&& forall|j: int|
            0 <= j < k ==> summarizes(
                summarize,
                window_at(stream, w, j),
                #[trigger] fed[self.bins.len() + j],
            )
    }

    /// `after` and `batch` are the outcome of feeding `mono` into this
    /// state: the windows are closed as in `feeds`, and when the bins then
    /// number at least `batch_bins`, all of them leave as `batch` and the
    /// state keeps none.
    pub open spec fn takes<F: Fn(&[T]) -> B>(
        self,
        summarize: F,
        mono: Seq<T>,
        after: Self,
        batch: Option<WaveformBatch<B>>,
    ) -> bool {
        let fed = match batch {
            Some(b) => b.bins@,
            None => after.bins,
        };
        &&& after.same_settings(self)
        &&& self.feeds(summarize, mono, fed, after.pending)
        &&& (batch is Some <==> fed.len() >= self.batch_bins)
        &&& batch matches Some(b) ==> {
            &&& after.bins == Seq::<B>::empty()
            &&& b.device@ == self.device
            &&& b.sample_rate == self.sample_rate
            &&& b.window_ms == self.window_ms
            &&& b.duration_ms == self.window_ms * fed.len()
        }
    }
}

impl<T, B> AggregatorView<T, B> {
    /// `after` and `batch` are the outcome of pushing the interleaved
    /// `samples`: some mono sequence, one value of `mix` per whole frame,
    /// is fed in as `takes` says.
    pub open spec fn pushed<M: Fn(&[T]) -> T, F: Fn(&[T]) -> B>(
        self,
        mix: M,
        summarize: F,
        samples: Seq<T>,
        channels: u16,
        after: Self,
        batch: Option<WaveformBatch<B>>,
    ) -> bool {
        exists|mono: Seq<T>|
            #[trigger] mixed_from(mix, samples, channels, mono) && self.takes(
                summarize,
                mono,
                after,
                batch,
            )
    }
}

/// `mono` holds, for each whole frame of `samples`, a value that `mix`
/// returns for that frame.
pub open spec fn mixed_from<T, M: Fn(&[T]) -> T>(
    mix: M,
    samples: Seq<T>,
    channels: u16,
    mono: Seq<T>,
) -> bool {
    &&& mono.len() == samples.len() / frame_width(channels)
    &&& forall|i: int|
        0 <= i < mono.len() ==> mixes(mix, frame_at(samples, frame_width(channels), i), #[trigger] mono[i])
}

/// `batch` is the open batch of `before` handed out, leaving `after` with
/// the same settings and open window and no bins.
pub open spec fn taken<T, B>(
    before: AggregatorView<T, B>,
    after: AggregatorView<T, B>,
    batch: WaveformBatch<B>,
) -> bool {
    &&& after.same_settings(before)
    &&& after.pending == before.pending
    &&& after.bins == Seq::<B>::empty()
    &&& batch.bins@ == before.bins
    &&& batch.device@ == before.device
    &&& batch.sample_rate == before.sample_rate
    &&& batch.window_ms == before.window_ms
    &&& batch.duration_ms == before.window_ms * before.bins.len()
}

/// A function returns one value for each content of its argument.
pub open spec fn deterministic<T, R, G: Fn(&[T]) -> R>(g: G) -> bool {
    forall|s1: &[T], s2: &[T], r1: R, r2: R|
        s1@ == s2@ && #[trigger] call_ensures(g, (s1,), r1) && #[trigger] call_ensures(g, (s2,), r2)
            ==> r1 == r2
}

/// The bins a push hands out, if any.
pub open spec fn handed_out<B>(batch: Option<WaveformBatch<B>>) -> Seq<B> {
    match batch {
        Some(b) => b.bins@,
        None => Seq::<B>::empty(),
    }
}

/// Groups mono samples into windows and windows into batches.
pub struct Aggregator<T, B> {
    window_frames: usize,
    batch_bins: usize,
    device: String,
    sample_rate: u32,
    window_ms: u64,
    /// Mono samples of the open window.
    pending: Vec<T>,
    /// Bins of the open batch.
    bins: Vec<B>,
}

impl<T, B> View for Aggregator<T, B> {
    type V = AggregatorView<T, B>;

    closed spec fn view(&self) -> AggregatorView<T, B> {
        AggregatorView {
            window_frames: self.window_frames,
            batch_bins: self.batch_bins,
            device: self.device@,
            sample_rate: self.sample_rate,
            window_ms: self.window_ms,
            pending: self.pending@,
            bins: self.bins@,
        }
    }
}


/// The windows that closed before a mono sample arrives are unchanged by it,
/// and the open window either grows by that sample or, once full, closes.
proof fn lemma_feed_step<T, B, F: Fn(&[T]) -> B>(
    start: AggregatorView<T, B>,
    summarize: F,
    mono: Seq<T>,
    bins: Seq<B>,
    pending: Seq<T>,
    sample: T,
    bins_after: Seq<B>,
    pending_after: Seq<T>,
)
    requires
        start.feeds(summarize, mono, bins, pending),
        pending.len() < window_width(start.window_frames),
        pending.len() + 1 >= window_width(start.window_frames) ==> {
            &&& pending_after == Seq::<T>::empty()
            &&& bins_after.len() == bins.len() + 1
            &&& bins_after.subrange(0, bins.len() as int) == bins
            &&& summarizes(summarize, pending.push(sample), bins_after[bins.len() as int])
        },
        pending.len() + 1 < window_width(start.window_frames) ==> {
            &&& pending_after == pending.push(sample)
            &&& bins_after == bins
        },
    ensures
        start.feeds(summarize, mono.push(sample), bins_after, pending_after),
{
    let w = window_width(start.window_frames);
    let stream = start.pending + mono;
    let stream2 = start.pending + mono.push(sample);
    assert(stream2 =~= stream.push(sample));
    let len = stream.len() as int;
    let k = len / (w as int);
    let nb = start.bins.len() as int;
    vstd::arithmetic::div_mod::lemma_fundamental_div_mod(len, w as int);
    vstd::arithmetic::div_mod::lemma_mod_pos_bound(len, w as int);
    assert(k * w <= len && len < k * w + w) by (nonlinear_arith)
        requires
            len == (w as int) * k + len % (w as int),
            0 <= len % (w as int) < w,
    ;
    assert(k >= 0) by (nonlinear_arith)
        requires
            k * w <= len,
            len < k * w + w,
            w > 0,
            len >= 0,
    ;
    assert(pending.len() == len - k * w);
    assert forall|j: int| 0 <= j < k implies window_at(stream2, w, j) == window_at(stream, w, j) by {
        assert(j * w + w <= k * w) by (nonlinear_arith)
            requires
                0 <= j < k,
                w > 0,
        ;
    }
    if pending.len() + 1 >= w {
        assert((k + 1) * w == k * w + w) by (nonlinear_arith);
        vstd::arithmetic::div_mod::lemma_fundamental_div_mod_converse(len + 1, w as int, k + 1, 0);
        assert(window_at(stream2, w, k) =~= pending.push(sample));
        assert(stream2.subrange((k + 1) * w, len + 1) =~= Seq::<T>::empty());
        assert forall|j: int| 0 <= j < k + 1 implies summarizes(
            summarize,
            window_at(stream2, w, j),
            #[trigger] bins_after[nb + j],
        ) by {
            if j < k {
                assert(bins_after[nb + j] == bins_after.subrange(0, bins.len() as int)[nb + j]);
            }
        }
        assert(bins_after.subrange(0, nb) =~= bins_after.subrange(0, bins.len() as int).subrange(
            0,
            nb,
        ));
    } else {
        vstd::arithmetic::div_mod::lemma_fundamental_div_mod_converse(
            len + 1,
            w as int,
            k,
            len + 1 - k * w,
        );
        assert(stream2.subrange(k * w, len + 1) =~= pending.push(sample));
    }
}

impl<T, B> Aggregator<T, B> {
    /// An aggregator with no open window and no open batch.
    pub fn new(
        window_frames: usize,
        batch_bins: usize,
        device: String,
        sample_rate: u32,
        window_ms: u64,
    ) -> (r: Self)
        ensures
            r@.window_frames == window_frames,
            r@.batch_bins == batch_bins,
            r@.device == device@,
            r@.sample_rate == sample_rate,
            r@.window_ms == window_ms,
            r@.pending == Seq::<T>::empty(),
            r@.bins == Seq::<B>::empty(),
            r@.wf(),
    {
        Aggregator {
            window_frames,
            batch_bins,
            device,
            sample_rate,
            window_ms,
            pending: Vec::new(),
            bins: Vec::new(),
        }
    }

    /// Bins of the open batch, oldest first.
    pub fn bins(&self) -> (r: &[B])
        ensures
            r@ == self@.bins,
    {
        self.bins.as_slice()
    }

    /// Number of mono samples in the open window.
    pub fn pending_len(&self) -> (r: usize)
        ensures
            r == self@.pending.len(),
    {
        self.pending.len()
    }

    /// Whether a push of `samples` interleaved samples with `channels`
    /// channels keeps the batch duration within 64 bits.
    pub fn duration_fits_for(&self, samples: usize, channels: u16) -> (r: bool)
        ensures
            r == self@.duration_fits(samples as nat / frame_width(channels)),
    {
        let ch: usize = if channels == 0 {
            1
        } else {
            channels as usize
        };
        let w: usize = if self.window_frames == 0 {
            1
        } else {
            self.window_frames
        };
        let frames = samples / ch;
        let open = self.pending.len();
        let closing: u128 = (open as u128 + frames as u128) / (w as u128);
        let total: u128 = self.bins.len() as u128 + closing;
        if total < self.batch_bins as u128 {
            true
        } else {
            match (self.window_ms as u128).checked_mul(total) {
                None => false,
                Some(d) => d <= u64::MAX as u128,
            }
        }
    }

    /// Appends one mono sample to the open window and closes the window
    /// when it is full.
    fn accumulate<F: Fn(&[T]) -> B>(&mut self, sample: T, summarize: &F)
        requires
            old(self)@.wf(),
            forall|s: &[T]| #[trigger] call_requires(*summarize, (s,)),
        ensures
            final(self)@.wf(),
            final(self)@.same_settings(old(self)@),
            old(self)@.pending.len() + 1 >= window_width(old(self)@.window_frames) ==> {
                &&& final(self)@.pending == Seq::<T>::empty()
                &&& final(self)@.bins.len() == old(self)@.bins.len() + 1
                &&& final(self)@.bins.subrange(0, old(self)@.bins.len() as int) == old(self)@.bins
                &&& summarizes(
                    *summarize,
                    old(self)@.pending.push(sample),
                    final(self)@.bins[old(self)@.bins.len() as int],
                )
            },
            old(self)@.pending.len() + 1 < window_width(old(self)@.window_frames) ==> {
                &&& final(self)@.pending == old(self)@.pending.push(sample)
                &&& final(self)@.bins == old(self)@.bins
            },
    {
        self.pending.push(sample);
        if self.pending.len() >= self.window_frames {
            let window = self.pending.as_slice();
            let bin = summarize(window);
            self.bins.push(bin);
            self.pending.clear();
            assert(self.bins@.subrange(0, old(self)@.bins.len() as int) =~= old(self)@.bins);
        }
    }

    /// Hands out the open batch and starts a new one.
    fn take_batch(&mut self) -> (r: WaveformBatch<B>)
        requires
            old(self)@.window_ms * old(self)@.bins.len() <= u64::MAX,
        ensures
            taken(old(self)@, final(self)@, r),
    {
        let mut bins: Vec<B> = Vec::new();
        std::mem::swap(&mut self.bins, &mut bins);
        let count: u64 = bins.len() as u64;
        WaveformBatch {
            device: self.device.clone(),
            sample_rate: self.sample_rate,
            window_ms: self.window_ms,
            duration_ms: self.window_ms * count,
            bins,
        }
    }

    /// Pushes interleaved PCM with `channels` samples per frame and returns
    /// the batch that became full, if any.
    ///
    /// Each whole frame is mixed to one mono sample by `mix` (a trailing
    /// partial frame is dropped, and zero channels count as one); each full
    /// window is summarised by `summarize`. Windows span pushes: samples
    /// of a window that is not yet full wait for the next push.
    pub fn push<M: Fn(&[T]) -> T, F: Fn(&[T]) -> B>(
        &mut self,
        interleaved: &[T],
        channels: u16,
        mix: &M,
        summarize: &F,
    ) -> (r: Option<WaveformBatch<B>>)
        requires
            old(self)@.wf(),
            old(self)@.duration_fits(interleaved@.len() / frame_width(channels)),
            forall|s: &[T]| #[trigger] call_requires(*mix, (s,)),
            forall|s: &[T]| #[trigger] call_requires(*summarize, (s,)),
        ensures
            final(self)@.wf(),
            old(self)@.pushed(*mix, *summarize, interleaved@, channels, final(self)@, r),
            final(self)@.same_settings(old(self)@),
            final(self)@.bins.len() < final(self)@.batch_bins || final(self)@.bins.len() == 0,
            r matches Some(b) ==> b.bins@.len() >= old(self)@.batch_bins && final(self)@.bins.len()
                == 0,
    {
        let ch: usize = if channels == 0 {
            1
        } else {
            channels as usize
        };
        let frames: usize = interleaved.len() / ch;
        let ghost start = self@;
        let ghost mut mono: Seq<T> = Seq::empty();
        assert(start.pending + mono =~= start.pending);
        assert(self@.bins.subrange(0, self@.bins.len() as int) =~= self@.bins);
        proof {
            vstd::arithmetic::div_mod::lemma_fundamental_div_mod_converse(
                start.pending.len() as int,
                window_width(start.window_frames) as int,
                0,
                start.pending.len() as int,
            );
        }
        assert(start.pending.subrange(0, start.pending.len() as int) =~= start.pending);
        assert(start.feeds(*summarize, mono, self@.bins, self@.pending));
        let mut i: usize = 0;
        let mut offset: usize = 0;
        while i < frames
            invariant
                ch == frame_width(channels),
                frames == interleaved@.len() / frame_width(channels),
                interleaved@.len() <= usize::MAX,
                forall|s: &[T]| #[trigger] call_requires(*mix, (s,)),
                forall|s: &[T]| #[trigger] call_requires(*summarize, (s,)),
                i <= frames,
                offset == i * ch,
                mono.len() == i,
                forall|j: int|
                    0 <= j < i ==> mixes(
                        *mix,
                        frame_at(interleaved@, frame_width(channels), j),
                        #[trigger] mono[j],
                    ),
                self@.wf(),
                self@.same_settings(start),
                start.feeds(*summarize, mono, self@.bins, self@.pending),
            decreases frames - i,
        {
            proof {
                assert(offset + ch <= interleaved@.len()) by (nonlinear_arith)
                    requires
                        offset == i * ch,
                        i < frames,
                        frames == interleaved@.len() / (ch as nat),
                        ch > 0,
                ;
            }
            let frame = &interleaved[offset..offset + ch];
            let sample = mix(frame);
            let ghost bins_before = self@.bins;
            let ghost pending_before = self@.pending;
            proof {
                assert(mixes(*mix, frame_at(interleaved@, frame_width(channels), i as int), sample));
            }
            self.accumulate(sample, summarize);
            proof {
                lemma_feed_step(
                    start,
                    *summarize,
                    mono,
                    bins_before,
                    pending_before,
                    sample,
                    self@.bins,
                    self@.pending,
                );
                mono = mono.push(sample);
                assert((i + 1) * ch == offset + ch) by (nonlinear_arith)
                    requires
                        offset == i * ch,
                ;
            }
            i = i + 1;
            offset = offset + ch;
        }
        let r = if self.bins.len() >= self.batch_bins {
            Some(self.take_batch())
        } else {
            None
        };
        assert(old(self)@.takes(*summarize, mono, self@, r));
        assert(mixed_from(*mix, interleaved@, channels, mono));
        proof {
            lemma_open_batch_short(old(self)@, *summarize, mono, self@, r);
        }
        r
    }
}

/// After a push the open batch is shorter than a full one (or empty when
/// batches hold zero bins), and a batch that leaves holds at least
/// `batch_bins` bins.
pub proof fn lemma_open_batch_short<T, B, F: Fn(&[T]) -> B>(
    before: AggregatorView<T, B>,
    summarize: F,
    mono: Seq<T>,
    after: AggregatorView<T, B>,
    batch: Option<WaveformBatch<B>>,
)
    requires
        before.takes(summarize, mono, after, batch),
    ensures
        after.bins.len() < after.batch_bins || after.bins.len() == 0,
        batch matches Some(b) ==> b.bins@.len() >= before.batch_bins,
{
}

/// No mono sample is lost or counted twice: the samples that were open
/// plus those fed in are the closed windows, `window_width` each, plus
/// those left open.
pub proof fn lemma_samples_conserved<T, B, F: Fn(&[T]) -> B>(
    before: AggregatorView<T, B>,
    summarize: F,
    mono: Seq<T>,
    fed: Seq<B>,
    open_after: Seq<T>,
)
    requires
        before.feeds(summarize, mono, fed, open_after),
    ensures
        before.pending.len() + mono.len() == (fed.len() - before.bins.len()) * window_width(
            before.window_frames,
        ) + open_after.len(),
        open_after.len() < window_width(before.window_frames),
{
    let w = window_width(before.window_frames) as int;
    let len = (before.pending.len() + mono.len()) as int;
    let k = len / w;
    vstd::arithmetic::div_mod::lemma_fundamental_div_mod(len, w);
    vstd::arithmetic::div_mod::lemma_mod_pos_bound(len, w);
    assert(k * w <= len && len < k * w + w) by (nonlinear_arith)
        requires
            len == w * k + len % w,
            0 <= len % w < w,
    ;
}

/// A window may span pushes: feeding `first` and then `second` closes the
/// same windows into the same bins, and leaves the same samples open, as
/// feeding `first ++ second` at once.
pub proof fn lemma_feeds_compose<T, B, F: Fn(&[T]) -> B>(
    before: AggregatorView<T, B>,
    summarize: F,
    first: Seq<T>,
    fed_first: Seq<B>,
    open_first: Seq<T>,
    second: Seq<T>,
    fed_second: Seq<B>,
    open_second: Seq<T>,
)
    requires
        before.feeds(summarize, first, fed_first, open_first),
        (AggregatorView { pending: open_first, bins: fed_first, ..before }).feeds(
            summarize,
            second,
            fed_second,
            open_second,
        ),
    ensures
        before.feeds(summarize, first + second, fed_second, open_second),
{
    let mid = AggregatorView { pending: open_first, bins: fed_first, ..before };
    let w = window_width(before.window_frames) as int;
    let s1 = before.pending + first;
    let s2 = open_first + second;
    let full = before.pending + (first + second);
    let l1 = s1.len() as int;
    let l2 = s2.len() as int;
    let k1 = l1 / w;
    let k2 = l2 / w;
    let nb = before.bins.len() as int;
    vstd::arithmetic::div_mod::lemma_fundamental_div_mod(l1, w);
    vstd::arithmetic::div_mod::lemma_mod_pos_bound(l1, w);
    assert(k1 * w <= l1 && l1 < k1 * w + w) by (nonlinear_arith)
        requires
            l1 == w * k1 + l1 % w,
            0 <= l1 % w < w,
    ;
    assert(k1 >= 0) by (nonlinear_arith)
        requires
            k1 * w <= l1,
            l1 < k1 * w + w,
            w > 0,
            l1 >= 0,
    ;
    vstd::arithmetic::div_mod::lemma_fundamental_div_mod(l2, w);
    vstd::arithmetic::div_mod::lemma_mod_pos_bound(l2, w);
    assert(k2 * w <= l2 && l2 < k2 * w + w) by (nonlinear_arith)
        requires
            l2 == w * k2 + l2 % w,
            0 <= l2 % w < w,
    ;
    assert(k2 >= 0) by (nonlinear_arith)
        requires
            k2 * w <= l2,
            l2 < k2 * w + w,
            w > 0,
            l2 >= 0,
    ;
    // The whole stream is the closed part of the first feed followed by
    // the stream of the second.
    assert(full =~= s1.subrange(0, k1 * w) + s2);
    let lf = full.len() as int;
    assert(lf == k1 * w + l2);
    assert((k1 + k2) * w == k1 * w + k2 * w) by (nonlinear_arith);
    vstd::arithmetic::div_mod::lemma_fundamental_div_mod_converse(lf, w, k1 + k2, l2 - k2 * w);
    assert(full.subrange((k1 + k2) * w, lf) =~= s2.subrange(k2 * w, l2));
    assert(fed_second.subrange(0, nb) =~= fed_first.subrange(0, nb)) by {
        assert(fed_second.subrange(0, fed_first.len() as int) == fed_first);
    }
    assert forall|j: int| 0 <= j < k1 + k2 implies summarizes(
        summarize,
        window_at(full, w as nat, j),
        #[trigger] fed_second[nb + j],
    ) by {
        if j < k1 {
            assert(j * w + w <= k1 * w) by (nonlinear_arith)
                requires
                    0 <= j < k1,
                    w > 0,
            ;
            assert(window_at(full, w as nat, j) =~= window_at(s1, w as nat, j));
            assert(fed_second[nb + j] == fed_second.subrange(0, fed_first.len() as int)[nb + j]);
            assert(fed_first[nb + j] == fed_second[nb + j]);
        } else {
            let jj = j - k1;
            assert(j * w == k1 * w + jj * w) by (nonlinear_arith)
                requires
                    jj == j - k1,
            ;
            assert(jj * w + w <= k2 * w) by (nonlinear_arith)
                requires
                    0 <= jj < k2,
                    w > 0,
            ;
            assert(window_at(full, w as nat, j) =~= window_at(s2, w as nat, jj));
            assert(fed_second[nb + j] == fed_second[fed_first.len() + jj]);
        }
    }
}

/// Bins are handed out once: taking the batch twice in a row hands out
/// no bins the second time, with a zero duration and the same header.
pub proof fn lemma_batch_taken_once<T, B>(
    before: AggregatorView<T, B>,
    first_after: AggregatorView<T, B>,
    first: WaveformBatch<B>,
    second_after: AggregatorView<T, B>,
    second: WaveformBatch<B>,
)
    requires
        taken(before, first_after, first),
        taken(first_after, second_after, second),
    ensures
        second.bins@ == Seq::<B>::empty(),
        second.duration_ms == 0,
        second.device@ == first.device@,
        second.sample_rate == first.sample_rate,
        second.window_ms == first.window_ms,
        second_after.pending == before.pending,
{
    assert(first_after.bins.len() == 0);
    assert(first_after.window_ms * first_after.bins.len() == 0);
}

/// A deterministic summariser gives one bin per window content.
proof fn lemma_summary_unique<T, B, F: Fn(&[T]) -> B>(summarize: F, window: Seq<T>, b1: B, b2: B)
    requires
        deterministic(summarize),
        summarizes(summarize, window, b1),
        summarizes(summarize, window, b2),
    ensures
        b1 == b2,
{
    let s1 = choose|s: &[T]| s@ == window && #[trigger] call_ensures(summarize, (s,), b1);
    let s2 = choose|s: &[T]| s@ == window && #[trigger] call_ensures(summarize, (s,), b2);
    assert(call_ensures(summarize, (s1,), b1) && call_ensures(summarize, (s2,), b2));
}

/// A deterministic mixer gives one sample per frame content.
proof fn lemma_mix_unique<T, M: Fn(&[T]) -> T>(mix: M, frame: Seq<T>, a: T, b: T)
    requires
        deterministic(mix),
        mixes(mix, frame, a),
        mixes(mix, frame, b),
    ensures
        a == b,
{
    let s1 = choose|s: &[T]| s@ == frame && #[trigger] call_ensures(mix, (s,), a);
    let s2 = choose|s: &[T]| s@ == frame && #[trigger] call_ensures(mix, (s,), b);
    assert(call_ensures(mix, (s1,), a) && call_ensures(mix, (s2,), b));
}

/// With a deterministic summariser, feeding given samples into a state
/// has one outcome.
proof fn lemma_feeds_unique<T, B, F: Fn(&[T]) -> B>(
    before: AggregatorView<T, B>,
    summarize: F,
    mono: Seq<T>,
    fed1: Seq<B>,
    open1: Seq<T>,
    fed2: Seq<B>,
    open2: Seq<T>,
)
    requires
        deterministic(summarize),
        before.feeds(summarize, mono, fed1, open1),
        before.feeds(summarize, mono, fed2, open2),
    ensures
        fed1 == fed2,
        open1 == open2,
{
    let nb = before.bins.len() as int;
    let stream = before.pending + mono;
    let w = window_width(before.window_frames);
    assert forall|k: int| 0 <= k < fed1.len() implies fed1[k] == fed2[k] by {
        if k < nb {
            assert(fed1[k] == fed1.subrange(0, nb)[k]);
            assert(fed2[k] == fed2.subrange(0, nb)[k]);
        } else {
            let j = k - nb;
            assert(summarizes(summarize, window_at(stream, w, j), fed1[nb + j]));
            assert(summarizes(summarize, window_at(stream, w, j), fed2[nb + j]));
            lemma_summary_unique(summarize, window_at(stream, w, j), fed1[k], fed2[k]);
        }
    }
    assert(fed1 =~= fed2);
}

/// Feeding does not depend on the bins already held: they stay in front
/// of the new ones whatever they are.
proof fn lemma_feeds_rebase<T, B, F: Fn(&[T]) -> B>(
    before: AggregatorView<T, B>,
    summarize: F,
    mono: Seq<T>,
    fed: Seq<B>,
    open_after: Seq<T>,
    held: Seq<B>,
)
    requires
        before.feeds(summarize, mono, fed, open_after),
    ensures
        (AggregatorView { bins: held, ..before }).feeds(
            summarize,
            mono,
            held + fed.subrange(before.bins.len() as int, fed.len() as int),
            open_after,
        ),
{
    let nb = before.bins.len() as int;
    let rebased = held + fed.subrange(nb, fed.len() as int);
    let moved = AggregatorView { bins: held, ..before };
    assert(rebased.subrange(0, held.len() as int) =~= held);
    let stream = before.pending + mono;
    let w = window_width(before.window_frames);
    let k = stream.len() / w;
    assert forall|j: int| 0 <= j < k implies summarizes(
        summarize,
        window_at(stream, w, j),
        #[trigger] rebased[held.len() + j],
    ) by {
        assert(rebased[held.len() + j] == fed[nb + j]);
    }
    assert(moved.feeds(summarize, mono, rebased, open_after));
}

/// Whole frames of `xs ++ ys` are those of `xs` followed by those of `ys`
/// when `xs` holds whole frames only.
proof fn lemma_frames_concat<T>(xs: Seq<T>, ys: Seq<T>, width: nat)
    requires
        width > 0,
        xs.len() % width == 0,
    ensures
        (xs + ys).len() / width == xs.len() / width + ys.len() / width,
        forall|i: int|
            0 <= i < xs.len() / width ==> #[trigger] frame_at(xs + ys, width, i) == frame_at(
                xs,
                width,
                i,
            ),
        forall|i: int|
            xs.len() / width <= i < (xs + ys).len() / width ==> #[trigger] frame_at(
                xs + ys,
                width,
                i,
            ) == frame_at(ys, width, i - xs.len() / width),
{
    let w = width as int;
    let q = xs.len() as int / w;
    let ly = ys.len() as int;
    vstd::arithmetic::div_mod::lemma_fundamental_div_mod(xs.len() as int, w);
    assert(xs.len() == q * w) by (nonlinear_arith)
        requires
            xs.len() as int == w * q + xs.len() as int % w,
            xs.len() as int % w == 0,
    ;
    vstd::arithmetic::div_mod::lemma_fundamental_div_mod(ly, w);
    vstd::arithmetic::div_mod::lemma_mod_pos_bound(ly, w);
    let qy = ly / w;
    assert(q * w + ly == (q + qy) * w + ly % w) by (nonlinear_arith)
        requires
            ly == w * qy + ly % w,
    ;
    vstd::arithmetic::div_mod::lemma_fundamental_div_mod_converse(
        q * w + ly,
        w,
        q + qy,
        ly % w,
    );
    assert(qy * w <= ly) by (nonlinear_arith)
        requires
            ly == w * qy + ly % w,
            0 <= ly % w,
    ;
    assert forall|i: int| 0 <= i < q implies #[trigger] frame_at(xs + ys, width, i) == frame_at(
        xs,
        width,
        i,
    ) by {
        assert(i * w + w <= q * w) by (nonlinear_arith)
            requires
                0 <= i < q,
                w > 0,
        ;
        assert(i * w >= 0) by (nonlinear_arith)
            requires
                0 <= i,
                w > 0,
        ;
        assert(frame_at(xs + ys, width, i) =~= frame_at(xs, width, i));
    }
    assert forall|i: int| q <= i < q + qy implies #[trigger] frame_at(xs + ys, width, i)
        == frame_at(ys, width, i - q) by {
        let ii = i - q;
        assert(i * w == q * w + ii * w) by (nonlinear_arith)
            requires
                ii == i - q,
        ;
        assert(ii * w + w <= qy * w) by (nonlinear_arith)
            requires
                0 <= ii < qy,
                w > 0,
        ;
        assert(ii * w >= 0) by (nonlinear_arith)
            requires
                0 <= ii,
                w > 0,
        ;
        assert(frame_at(xs + ys, width, i) =~= frame_at(ys, width, ii));
    }
}

/// How samples are split over pushes does not change any window: pushing
/// `xs` (whole frames only) and then `ys` hands out, over both pushes and
/// the open batch left, the same bins in the same order, and leaves the
/// same samples open, as pushing `xs ++ ys` at once, when mixing and
/// summarising give one value per input.
pub proof fn lemma_push_split<T, B, M: Fn(&[T]) -> T, F: Fn(&[T]) -> B>(
    before: AggregatorView<T, B>,
    mix: M,
    summarize: F,
    xs: Seq<T>,
    ys: Seq<T>,
    channels: u16,
    whole_after: AggregatorView<T, B>,
    whole: Option<WaveformBatch<B>>,
    mid: AggregatorView<T, B>,
    first: Option<WaveformBatch<B>>,
    split_after: AggregatorView<T, B>,
    second: Option<WaveformBatch<B>>,
)
    requires
        deterministic(mix),
        deterministic(summarize),
        xs.len() % frame_width(channels) == 0,
        before.pushed(mix, summarize, xs + ys, channels, whole_after, whole),
        before.pushed(mix, summarize, xs, channels, mid, first),
        mid.pushed(mix, summarize, ys, channels, split_after, second),
    ensures
        handed_out(whole) + whole_after.bins == handed_out(first) + handed_out(second)
            + split_after.bins,
        whole_after.pending == split_after.pending,
{
    let width = frame_width(channels);
    let m_w = choose|m: Seq<T>|
        #[trigger] mixed_from(mix, xs + ys, channels, m) && before.takes(summarize, m, whole_after, whole);
    let m1 = choose|m: Seq<T>|
        #[trigger] mixed_from(mix, xs, channels, m) && before.takes(summarize, m, mid, first);
    let m2 = choose|m: Seq<T>|
        #[trigger] mixed_from(mix, ys, channels, m) && mid.takes(summarize, m, split_after, second);
    lemma_frames_concat(xs, ys, width);
    // The mono stream of the whole push is that of the two parts.
    assert forall|i: int| 0 <= i < m_w.len() implies m_w[i] == (m1 + m2)[i] by {
        if i < m1.len() {
            assert(mixes(mix, frame_at(xs + ys, width, i), m_w[i]));
            assert(mixes(mix, frame_at(xs, width, i), m1[i]));
            lemma_mix_unique(mix, frame_at(xs, width, i), m_w[i], m1[i]);
        } else {
            let j = i - m1.len();
            assert(mixes(mix, frame_at(xs + ys, width, i), m_w[i]));
            assert(mixes(mix, frame_at(ys, width, j), m2[j]));
            lemma_mix_unique(mix, frame_at(ys, width, j), m_w[i], m2[j]);
        }
    }
    assert(m_w =~= m1 + m2);
    let fed_w = match whole {
        Some(b) => b.bins@,
        None => whole_after.bins,
    };
    let fed1 = match first {
        Some(b) => b.bins@,
        None => mid.bins,
    };
    let fed2 = match second {
        Some(b) => b.bins@,
        None => split_after.bins,
    };
    let new2 = fed2.subrange(mid.bins.len() as int, fed2.len() as int);
    lemma_feeds_rebase(mid, summarize, m2, fed2, split_after.pending, fed1);
    let joined = AggregatorView { pending: mid.pending, bins: fed1, ..before };
    assert(AggregatorView { bins: fed1, ..mid } == joined);
    lemma_feeds_compose(
        before,
        summarize,
        m1,
        fed1,
        mid.pending,
        m2,
        fed1 + new2,
        split_after.pending,
    );
    lemma_feeds_unique(before, summarize, m1 + m2, fed_w, whole_after.pending, fed1 + new2, split_after.pending);
    assert(handed_out(whole) + whole_after.bins =~= fed_w);
    if first is Some {
        assert(mid.bins =~= Seq::<B>::empty());
        assert(new2 =~= fed2);
    } else {
        assert(fed2 =~= fed1 + new2) by {
            assert(fed2.subrange(0, mid.bins.len() as int) == mid.bins);
        }
    }
    assert(handed_out(second) + split_after.bins =~= fed2);
    assert(handed_out(first) + handed_out(second) + split_after.bins =~= fed1 + new2);
}

/// Mixing first and pushing the mono stream as one channel is the same as
/// pushing the interleaved samples: when `mono` is the mixed stream of
/// `samples` (one value per whole frame, zero channels counting as one, a
/// trailing partial frame dropped), mixing passes a lone sample through,
/// and mixing and summarising give one value per input, both pushes leave
/// the same state and hand out the same bins.
pub proof fn lemma_push_premixed<T, B, M: Fn(&[T]) -> T, F: Fn(&[T]) -> B>(
    before: AggregatorView<T, B>,
    mix: M,
    summarize: F,
    samples: Seq<T>,
    channels: u16,
    mono: Seq<T>,
    after_interleaved: AggregatorView<T, B>,
    batch_interleaved: Option<WaveformBatch<B>>,
    after_mono: AggregatorView<T, B>,
    batch_mono: Option<WaveformBatch<B>>,
)
    requires
        deterministic(mix),
        deterministic(summarize),
        forall|v: T| #[trigger] mixes(mix, seq![v], v),
        mixed_from(mix, samples, channels, mono),
        before.pushed(mix, summarize, samples, channels, after_interleaved, batch_interleaved),
        before.pushed(mix, summarize, mono, 1, after_mono, batch_mono),
    ensures
        after_interleaved == after_mono,
        handed_out(batch_interleaved) == handed_out(batch_mono),
        batch_interleaved is Some <==> batch_mono is Some,
{
    let m1 = choose|m: Seq<T>|
        #[trigger] mixed_from(mix, samples, channels, m) && before.takes(
            summarize,
            m,
            after_interleaved,
            batch_interleaved,
        );
    let m2 = choose|m: Seq<T>|
        #[trigger] mixed_from(mix, mono, 1, m) && before.takes(summarize, m, after_mono, batch_mono);
    let width = frame_width(channels);
    assert forall|i: int| 0 <= i < m1.len() implies m1[i] == mono[i] by {
        lemma_mix_unique(mix, frame_at(samples, width, i), m1[i], mono[i]);
    }
    assert(m1 =~= mono);
    assert forall|i: int| 0 <= i < m2.len() implies m2[i] == mono[i] by {
        assert(frame_at(mono, 1, i) =~= seq![mono[i]]);
        assert(mixes(mix, seq![mono[i]], mono[i]));
        lemma_mix_unique(mix, seq![mono[i]], m2[i], mono[i]);
    }
    assert(m2 =~= mono);
    let fed1 = match batch_interleaved {
        Some(b) => b.bins@,
        None => after_interleaved.bins,
    };
    let fed2 = match batch_mono {
        Some(b) => b.bins@,
        None => after_mono.bins,
    };
    lemma_feeds_unique(
        before,
        summarize,
        mono,
        fed1,
        after_interleaved.pending,
        fed2,
        after_mono.pending,
    );
    assert(after_interleaved.bins == after_mono.bins);
}

/// A window holds exactly `window_frames` mono samples (when that is at
/// least one): feeding in samples closes one window per `window_frames`
/// samples of the open window plus those fed, each closed window holding
/// that many, and leaves fewer than `window_frames` open.
pub proof fn lemma_windows_hold_window_frames<T, B, F: Fn(&[T]) -> B>(
    before: AggregatorView<T, B>,
    summarize: F,
    mono: Seq<T>,
    fed: Seq<B>,
    open_after: Seq<T>,
)
    requires
        before.window_frames >= 1,
        before.feeds(summarize, mono, fed, open_after),
    ensures
        before.pending.len() + mono.len() == (fed.len() - before.bins.len())
            * before.window_frames + open_after.len(),
        open_after.len() < before.window_frames,
        forall|j: int|
            0 <= j < fed.len() - before.bins.len() ==> #[trigger] window_at(
                before.pending + mono,
                window_width(before.window_frames),
                j,
            ).len() == before.window_frames,
{
    lemma_samples_conserved(before, summarize, mono, fed, open_after);
    let w = before.window_frames as int;
    let stream = before.pending + mono;
    let k = fed.len() - before.bins.len();
    assert forall|j: int| 0 <= j < k implies #[trigger] window_at(
        stream,
        window_width(before.window_frames),
        j,
    ).len() == before.window_frames by {
        assert(j * w + w <= k * w) by (nonlinear_arith)
            requires
                0 <= j < k,
                w > 0,
        ;
        assert(j * w >= 0) by (nonlinear_arith)
            requires
                0 <= j,
                w > 0,
        ;
    }
}

/// Exactly `window_frames` samples close one window holding all of them:
/// when the open window and the samples fed in together make one full
/// window, one bin is added, it summarises all those samples, and nothing
/// stays open.
pub proof fn lemma_full_window_closes<T, B, F: Fn(&[T]) -> B>(
    before: AggregatorView<T, B>,
    summarize: F,
    mono: Seq<T>,
    fed: Seq<B>,
    open_after: Seq<T>,
)
    requires
        before.window_frames >= 1,
        before.pending.len() + mono.len() == before.window_frames,
        before.feeds(summarize, mono, fed, open_after),
    ensures
        fed.len() == before.bins.len() + 1,
        open_after.len() == 0,
        summarizes(summarize, before.pending + mono, fed[before.bins.len() as int]),
{
    let stream = before.pending + mono;
    let w = before.window_frames as int;
    assert(window_width(before.window_frames) == w);
    assert(1 * w == w);
    vstd::arithmetic::div_mod::lemma_fundamental_div_mod_converse(w, w, 1, 0);
    assert(stream.len() / window_width(before.window_frames) == 1);
    assert(window_at(stream, window_width(before.window_frames), 0) =~= stream);
    assert(summarizes(
        summarize,
        window_at(stream, window_width(before.window_frames), 0),
        fed[before.bins.len() + 0int],
    ));
    assert(stream.subrange(w, w) =~= Seq::<T>::empty());
}

} // verus!
