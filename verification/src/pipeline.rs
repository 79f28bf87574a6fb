//! The frame-level decisions of the processing pipeline: frames and progress,
//! how many frames a render outputs, which error a render reports, and the
//! per-step schedules (readback pipelining of the upscale step, the
//! interpolation emission schedule, duplicate dropping, the filter step).

use vstd::prelude::*;
use vstd::string::StringExecFns;

use crate::arith::lemma_split_index;
use crate::text::{decimal, push_numeral};

verus! {

/// A packed `rgb24` video frame.
pub struct Frame {
    pub width: u32,
    pub height: u32,
    pub data: Vec<u8>,
}

/// Render progress, reported per encoded frame.
#[derive(Clone, Copy, Debug)]
pub struct Progress {
    pub frames_processed: u64,
    pub total_frames: u64,
}

/// Accumulated per-step timing for the FPS benchmark report.
pub struct StepTiming {
    pub name: String,
    pub frames: u64,
    /// Total time spent in the step, in nanoseconds.
    pub total_nanos: u128,
}

impl StepTiming {
    /// A step that has not run yet.
    pub fn new(name: &str) -> (r: StepTiming)
        ensures
            r.name@ == name@,
            r.frames == 0,
            r.total_nanos == 0,
    {
        StepTiming { name: name.to_owned(), frames: 0, total_nanos: 0 }
    }

    /// Account one pass of the step over `frames` frames taking `nanos`.
    pub fn record(&mut self, frames: u64, nanos: u128)
        requires
            old(self).frames + frames <= u64::MAX,
            old(self).total_nanos + nanos <= u128::MAX,
        ensures
            final(self).name@ == old(self).name@,
            final(self).frames == old(self).frames + frames,
            final(self).total_nanos == old(self).total_nanos + nanos,
    {
        self.frames = self.frames + frames;
        self.total_nanos = self.total_nanos + nanos;
    }
}

/// Frames accumulated before a batched step pass. 1 = off: multi-frame
/// batching regresses on the shipped backend.
pub const BATCH_SIZE: usize = 1;

/// Batches the upscale step keeps in flight when no depth was set.
pub const DEFAULT_PIPELINE_DEPTH: usize = 2;

/// The readback pipelining depth to store for a requested `depth`: `0`
/// (unset) uses the default; explicit depths are kept (they are ≥ 1).
pub fn normalize_pipeline_depth(depth: usize) -> (r: usize)
    ensures
        r == if depth == 0 { DEFAULT_PIPELINE_DEPTH } else { depth },
        r >= 1,
{
    if depth == 0 {
        DEFAULT_PIPELINE_DEPTH
    } else if depth > 1 {
        depth
    } else {
        1
    }
}

/// Frames a render outputs for `decoded` input frames when every input after
/// the first turns into `factor` output frames: `max(decoded - 1, 0) *
/// factor + 1`.
pub open spec fn spec_output_frame_count(decoded: int, factor: int) -> int {
    (if decoded >= 1 { decoded - 1 } else { 0 }) * factor + 1
}

/// The progress total of a render: the interpolator emits 1 frame for the
/// first input and `factor` for each following one, so the output count is
/// `1 + (N-1)*factor`, not `N*factor`.
pub fn output_frame_count(decoded: u64, factor: u64) -> (r: u64)
    requires
        spec_output_frame_count(decoded as int, factor as int) <= u64::MAX,
    ensures
        r == spec_output_frame_count(decoded as int, factor as int),
{
    let prior: u64 = if decoded >= 1 { decoded - 1 } else { 0 };
    proof {
        assert(0 <= prior * factor) by (nonlinear_arith)
            requires
                0 <= prior,
                0 <= factor,
        ;
    }
    prior * factor + 1
}

/// Error of a render stopped by its cancel flag.
pub const CANCELLED: &'static str = "cancelled";

/// Error of the main loop when the encode thread stopped taking frames.
pub const ENCODE_CHANNEL_CLOSED: &'static str = "encode channel closed";

/// Error of a source without frames.
pub const NO_FRAMES: &'static str = "no frames decoded";

/// The error a render reports, from its main loop, its encode thread and its
/// decode thread: a main-loop error wins unless it only says that the
/// encode channel closed (the encode thread then carries the real cause);
/// then the encoder's error, then the decoder's.
pub open spec fn spec_run_outcome(
    main_err: Option<Seq<char>>,
    encode: Option<Seq<char>>,
    decode: Option<Seq<char>>,
) -> Option<Seq<char>> {
    match main_err {
        Some(e) if e != ENCODE_CHANNEL_CLOSED@ => Some(e),
        _ => match encode {
            Some(e) => Some(e),
            None => decode,
        },
    }
}

/// The message of an error, if any.
pub open spec fn err_text(r: Result<(), String>) -> Option<Seq<char>> {
    match r {
        Ok(()) => None,
        Err(e) => Some(e@),
    }
}

/// The message of an optional error.
pub open spec fn opt_text(e: Option<String>) -> Option<Seq<char>> {
    match e {
        Some(e) => Some(e@),
        None => None,
    }
}

/// The result of a render (see `spec_run_outcome`).
pub fn run_outcome(main_err: Option<String>, encode: Result<(), String>, decode: Result<(), String>) -> (r: Result<
    (),
    String,
>)
    ensures
        err_text(r) == spec_run_outcome(opt_text(main_err), err_text(encode), err_text(decode)),
{
    match main_err {
        Some(e) => {
            if !crate::text::str_eq(e.as_str(), ENCODE_CHANNEL_CLOSED) {
                return Err(e);
            }
        },
        None => {},
    }
    match encode {
        Err(e) => Err(e),
        Ok(()) => decode,
    }
}

/// What the main loop does before processing the next decoded frame.
#[derive(Clone, Copy, Debug, PartialEq, Eq, Structural)]
pub enum Control {
    /// Stop the render with the cancellation error.
    Cancel,
    /// Hold the frame until the pause flag clears (or a cancel comes).
    Wait,
    /// Process the frame.
    Proceed,
}

/// The main loop's decision from the cancel and pause flags: cancellation
/// wins over pausing.
pub fn control(cancelled: bool, paused: bool) -> (r: Control)
    ensures
        r == if cancelled {
            Control::Cancel
        } else if paused {
            Control::Wait
        } else {
            Control::Proceed
        },
{
    if cancelled {
        Control::Cancel
    } else if paused {
        Control::Wait
    } else {
        Control::Proceed
    }
}

/// Whether `pending` accumulated frames make a batch for the step chain.
pub fn batch_ready(pending: usize) -> (r: bool)
    ensures
        r == (pending >= BATCH_SIZE),
{
    pending >= BATCH_SIZE
}

/// Whether an error message is the one of a cancelled render.
pub fn is_cancelled(message: &str) -> (r: bool)
    ensures
        r == (message@ == CANCELLED@),
{
    crate::text::str_eq(message, CANCELLED)
}

/// The no-op step.
pub struct Passthrough;

/// The scale an upscale step runs at: at least 1.
pub fn effective_scale(scale: u32) -> (r: u32)
    ensures
        r == if scale >= 1 { scale } else { 1 },
{
    if scale >= 1 {
        scale
    } else {
        1
    }
}

/// The output size an upscale by `scale` must have: `(height * scale, width
/// * scale)`.
pub fn upscale_target(height: u32, width: u32, scale: u32) -> (r: (u32, u32))
    requires
        height * scale <= u32::MAX,
        width * scale <= u32::MAX,
    ensures
        r.0 == height * scale,
        r.1 == width * scale,
{
    (height * scale, width * scale)
}

/// Whether a batch of frames of sizes `dims` (width, height) can run as one
/// fused batch: more than one frame, all of one size.
pub fn batchable(dims: &Vec<(u32, u32)>) -> (r: bool)
    ensures
        r == (dims.len() > 1 && forall|i: int| 0 <= i < dims.len() ==> #[trigger] dims@[i] == dims@[0]),
{
    if dims.len() <= 1 {
        return false;
    }
    let first = dims[0];
    let mut i: usize = 1;
    while i < dims.len()
        invariant
            1 <= i <= dims.len(),
            first == dims@[0],
            forall|k: int| 0 <= k < i ==> #[trigger] dims@[k] == dims@[0],
        decreases dims.len() - i,
    {
        let d = dims[i];
        if d.0 != first.0 || d.1 != first.1 {
            return false;
        }
        i += 1;
    }
    true
}


// ---------------------------------------------------------------------------
// Packed frames and planar tensors
// ---------------------------------------------------------------------------

/// The planar layout (three planes of `hw` elements) of a packed `rgb24`
/// buffer of `hw` pixels: element `c * hw + p` is channel `c` of pixel `p`.
pub open spec fn spec_deinterleave<T>(packed: Seq<T>, hw: int) -> Seq<T> {
    Seq::new((3 * hw) as nat, |k: int| packed[(k % hw) * 3 + k / hw])
}

/// The packed layout of three planes of `hw` elements: element `p * 3 + c`
/// is element `p` of plane `c`.
pub open spec fn spec_interleave<T>(planar: Seq<T>, hw: int) -> Seq<T> {
    Seq::new((3 * hw) as nat, |k: int| planar[(k % 3) * hw + k / 3])
}

/// De-interleave a packed `rgb24` buffer of `hw` pixels into three planes
/// (the layout of an NCHW tensor), element for element.
pub fn deinterleave<T: Copy>(packed: &Vec<T>, hw: usize) -> (r: Vec<T>)
    requires
        packed.len() == 3 * hw,
    ensures
        r@ == spec_deinterleave(packed@, hw as int),
{
    let mut r: Vec<T> = Vec::new();
    let mut c: usize = 0;
    while c < 3
        invariant
            packed.len() == 3 * hw,
            c <= 3,
            r.len() == c * hw,
            forall|k: int| 0 <= k < r.len() ==> #[trigger] r@[k] == packed@[(k % hw as int) * 3 + k / hw as int],
        decreases 3 - c,
    {
        let mut p: usize = 0;
        while p < hw
            invariant
                packed.len() == 3 * hw,
                c < 3,
                p <= hw,
                r.len() == c * hw + p,
                forall|k: int| 0 <= k < r.len() ==> #[trigger] r@[k] == packed@[(k % hw as int) * 3 + k / hw as int],
            decreases hw - p,
        {
            proof {
                lemma_split_index(c as int, hw as int, p as int);
            }
            r.push(packed[p * 3 + c]);
            p += 1;
        }
        proof {
            assert(c * hw + hw == (c + 1) * hw) by (nonlinear_arith);
        }
        c += 1;
    }
    proof {
        assert(r@ =~= spec_deinterleave(packed@, hw as int));
    }
    r
}

/// Interleave three planes of `hw` elements into a packed `rgb24` buffer,
/// element for element.
pub fn interleave<T: Copy>(planar: &Vec<T>, hw: usize) -> (r: Vec<T>)
    requires
        3 * hw <= planar.len(),
    ensures
        r@ == spec_interleave(planar@, hw as int),
{
    let mut r: Vec<T> = Vec::new();
    let mut p: usize = 0;
    while p < hw
        invariant
            3 * hw <= planar.len(),
            p <= hw,
            r.len() == p * 3,
            forall|k: int| 0 <= k < r.len() ==> #[trigger] r@[k] == planar@[(k % 3) * hw + k / 3],
        decreases hw - p,
    {
        let mut c: usize = 0;
        while c < 3
            invariant
                3 * hw <= planar.len(),
                p < hw,
                c <= 3,
                r.len() == p * 3 + c,
                forall|k: int| 0 <= k < r.len() ==> #[trigger] r@[k] == planar@[(k % 3) * hw + k / 3],
            decreases 3 - c,
        {
            proof {
                lemma_split_index(p as int, 3, c as int);
                crate::arith::lemma_index_bound(c as int, 3, hw as int, p as int);
                assert(3 * hw == hw * 3) by (nonlinear_arith);
            }
            r.push(planar[c * hw + p]);
            c += 1;
        }
        p += 1;
    }
    proof {
        assert(r@ =~= spec_interleave(planar@, hw as int));
    }
    r
}

/// Converting a packed frame to planes and back gives the frame back: for
/// a buffer of `hw` pixels, interleaving its de-interleaved planes yields
/// the same bytes.
pub proof fn lemma_interleave_deinterleave<T>(packed: Seq<T>, hw: int)
    requires
        hw >= 0,
        packed.len() == 3 * hw,
    ensures
        spec_interleave(spec_deinterleave(packed, hw), hw) == packed,
{
    let planar = spec_deinterleave(packed, hw);
    let back = spec_interleave(planar, hw);
    assert forall|k: int| 0 <= k < 3 * hw implies #[trigger] back[k] == packed[k] by {
        let p = k / 3;
        let c = k % 3;
        vstd::arithmetic::div_mod::lemma_fundamental_div_mod(k, 3);
        assert(0 <= p < hw);
        lemma_split_index(c, hw, p);
        crate::arith::lemma_index_bound(c, 3, hw, p);
    }
    assert(back =~= packed);
}

/// Converting planes to a packed frame and back gives the planes back.
pub proof fn lemma_deinterleave_interleave<T>(planar: Seq<T>, hw: int)
    requires
        hw >= 0,
        planar.len() == 3 * hw,
    ensures
        spec_deinterleave(spec_interleave(planar, hw), hw) == planar,
{
    let packed = spec_interleave(planar, hw);
    let back = spec_deinterleave(packed, hw);
    assert forall|k: int| 0 <= k < 3 * hw implies #[trigger] back[k] == planar[k] by {
        let c = k / hw;
        let p = k % hw;
        vstd::arithmetic::div_mod::lemma_fundamental_div_mod(k, hw);
        vstd::arithmetic::div_mod::lemma_mod_bound(k, hw);
        assert(0 <= c < 3) by (nonlinear_arith)
            requires
                k == hw * c + p,
                0 <= p < hw,
                0 <= k < 3 * hw,
        ;
        lemma_split_index(p, 3, c);
        crate::arith::lemma_index_bound(p, hw, 3, c);
        assert(hw * c == c * hw) by (nonlinear_arith);
    }
    assert(back =~= planar);
}

// ---------------------------------------------------------------------------
// Readback pipelining of the upscale step
// ---------------------------------------------------------------------------

/// What to do with the batches once one more was submitted.
pub enum Release<H> {
    /// The first batch of a render: resolve it now (it fixes the encoder
    /// dimensions); nothing is deferred yet.
    Now(H),
    /// The queue is over its depth: resolve its oldest batch.
    Oldest(H),
    /// Keep everything in flight; nothing comes out this time.
    Held,
}

/// The batches a release hands out, in order.
pub open spec fn released<H>(r: Release<H>) -> Seq<H> {
    match r {
        Release::Now(h) => seq![h],
        Release::Oldest(h) => seq![h],
        Release::Held => seq![],
    }
}

/// The state of the readback queue, as a value.
pub struct QueueModel<H> {
    /// Deferred batches, oldest first.
    pub pending: Seq<H>,
    /// A first batch was submitted.
    pub started: bool,
    /// Batches kept in flight.
    pub depth: nat,
}

/// The queue never holds more than its depth, and holds nothing before the
/// first batch.
pub open spec fn queue_wf<H>(m: QueueModel<H>) -> bool {
    &&& m.pending.len() <= m.depth
    &&& !m.started ==> m.pending.len() == 0
}

/// One submission: the release it gives and the state after it.
pub open spec fn queue_step<H>(m: QueueModel<H>, h: H) -> (Release<H>, QueueModel<H>) {
    if !m.started {
        (Release::Now(h), QueueModel { pending: m.pending, started: true, depth: m.depth })
    } else if m.pending.len() + 1 > m.depth {
        (
            Release::Oldest(m.pending.push(h)[0]),
            QueueModel { pending: m.pending.push(h).drop_first(), started: true, depth: m.depth },
        )
    } else {
        (Release::Held, QueueModel { pending: m.pending.push(h), started: true, depth: m.depth })
    }
}

/// Submitting `hs` in order: every batch released on the way, in order, and
/// the state after the last.
pub open spec fn queue_run<H>(m: QueueModel<H>, hs: Seq<H>) -> (Seq<H>, QueueModel<H>)
    decreases hs.len(),
{
    if hs.len() == 0 {
        (Seq::empty(), m)
    } else {
        let (r, m1) = queue_step(m, hs[0]);
        let (rest, m2) = queue_run(m1, hs.drop_first());
        (released(r) + rest, m2)
    }
}

/// Deferred readbacks of the upscale step, oldest first: the next batch's
/// GPU work is queued before the oldest readback resolves, so the GPU stays
/// busy during the transfer.
pub struct InflightQueue<H> {
    inflight: Vec<H>,
    depth: usize,
    started: bool,
}

impl<H> InflightQueue<H> {
    /// The queue as a value.
    pub closed spec fn model(&self) -> QueueModel<H> {
        QueueModel { pending: self.inflight@, started: self.started, depth: self.depth as nat }
    }

    /// A queue is always within its depth, and empty before its first batch.
    #[verifier::type_invariant]
    spec fn within_depth(self) -> bool {
        queue_wf(self.model())
    }

    /// An empty queue keeping up to `depth` batches in flight.
    pub fn new(depth: usize) -> (r: Self)
        ensures
            r.model() == (QueueModel::<H> { pending: Seq::empty(), started: false, depth: depth as nat }),
            queue_wf(r.model()),
    {
        InflightQueue { inflight: Vec::new(), depth, started: false }
    }

    /// Batches currently deferred.
    pub fn len(&self) -> (r: usize)
        ensures
            r == self.model().pending.len(),
    {
        self.inflight.len()
    }

    /// Submit one more batch; say which batch, if any, to resolve now.
    pub fn submit(&mut self, h: H) -> (r: Release<H>)
        ensures
            queue_wf(old(self).model()),
            (r, final(self).model()) == queue_step(old(self).model(), h),
            queue_wf(final(self).model()),
    {
        proof {
            use_type_invariant(&*self);
        }
        if !self.started {
            self.started = true;
            return Release::Now(h);
        }
        let mut v: Vec<H> = Vec::new();
        std::mem::swap(&mut v, &mut self.inflight);
        v.push(h);
        if v.len() > self.depth {
            let oldest = v.remove(0);
            proof {
                assert(v@ =~= old(self).model().pending.push(h).drop_first());
            }
            self.inflight = v;
            Release::Oldest(oldest)
        } else {
            self.inflight = v;
            Release::Held
        }
    }

    /// Hand out every deferred batch, oldest first (after the last batch).
    pub fn flush(&mut self) -> (r: Vec<H>)
        ensures
            queue_wf(old(self).model()),
            r@ == old(self).model().pending,
            final(self).model() == (QueueModel { pending: Seq::<H>::empty(), ..old(self).model() }),
            queue_wf(final(self).model()),
    {
        proof {
            use_type_invariant(&*self);
        }
        let mut out: Vec<H> = Vec::new();
        std::mem::swap(&mut out, &mut self.inflight);
        out
    }
}

/// Every submitted batch comes out exactly once and in submission order:
/// the batches released while submitting `hs`, followed by those still
/// pending afterwards (handed out by `flush`), are the batches pending before
/// followed by `hs`. The queue stays within its depth all along.
pub proof fn lemma_queue_preserves_order<H>(m: QueueModel<H>, hs: Seq<H>)
    requires
        queue_wf(m),
    ensures
        queue_run(m, hs).0 + queue_run(m, hs).1.pending == m.pending + hs,
        queue_wf(queue_run(m, hs).1),
    decreases hs.len(),
{
    if hs.len() > 0 {
        let (r, m1) = queue_step(m, hs[0]);
        assert(queue_wf(m1));
        lemma_queue_preserves_order(m1, hs.drop_first());
        let (rest, m2) = queue_run(m1, hs.drop_first());
        assert(released(r) + m1.pending =~= m.pending.push(hs[0]));
        assert(m.pending + hs =~= m.pending.push(hs[0]) + hs.drop_first());
        assert(released(r) + rest + m2.pending =~= released(r) + (rest + m2.pending));
    } else {
        assert(m.pending + hs =~= m.pending);
        assert(Seq::<H>::empty() + m.pending =~= m.pending);
    }
}

// ---------------------------------------------------------------------------
// Frame interpolation schedule
// ---------------------------------------------------------------------------

/// Frames emitted by `n` pushes into an interpolation schedule of `factor`
/// that has (`started`) or has not yet seen a frame: 1 for the first frame,
/// `factor` (the intermediates and the frame itself) for every later one.
pub open spec fn emitted(started: bool, factor: int, n: nat) -> int
    decreases n,
{
    if n == 0 {
        0
    } else {
        (if started { factor } else { 1 }) + emitted(true, factor, (n - 1) as nat)
    }
}

/// Stateful frame-interpolation schedule: emits `factor - 1` intermediates
/// between consecutive frames, at times `k / factor` for `k` in
/// `1..factor`, then the frame itself.
pub struct InterpolationSchedule {
    factor: u32,
    started: bool,
}

impl InterpolationSchedule {
    /// The interpolation factor.
    pub closed spec fn spec_factor(&self) -> u32 {
        self.factor
    }

    /// At least one intermediate between two frames.
    #[verifier::type_invariant]
    spec fn factor_at_least_two(self) -> bool {
        self.factor >= 2
    }

    /// A frame was pushed already.
    pub closed spec fn spec_started(&self) -> bool {
        self.started
    }

    /// A schedule of `factor` (at least 2).
    pub fn new(factor: u32) -> (r: Self)
        ensures
            r.spec_factor() == if factor >= 2 { factor } else { 2 },
            !r.spec_started(),
    {
        InterpolationSchedule { factor: if factor >= 2 { factor } else { 2 }, started: false }
    }

    /// The interpolation factor.
    pub fn factor(&self) -> (r: u32)
        ensures
            r == self.spec_factor(),
            r >= 2,
    {
        proof {
            use_type_invariant(self);
        }
        self.factor
    }

    /// Feed the next source frame; returns how many intermediates to emit
    /// before it: none for the first frame, `factor - 1` afterwards.
    pub fn push(&mut self) -> (r: u32)
        ensures
            old(self).spec_factor() >= 2,
            r == if old(self).spec_started() { old(self).spec_factor() - 1 } else { 0 },
            final(self).spec_started(),
            final(self).spec_factor() == old(self).spec_factor(),
    {
        proof {
            use_type_invariant(&*self);
        }
        let r = if self.started { self.factor - 1 } else { 0 };
        self.started = true;
        r
    }
}

/// The interpolation schedule and the progress total agree: for a render of
/// `n ≥ 1` source frames, the frames the schedule emits (intermediates plus
/// the frames themselves) are the total the progress reports.
pub proof fn lemma_interpolation_matches_total(factor: int, n: nat)
    requires
        n >= 1,
    ensures
        emitted(false, factor, n) == spec_output_frame_count(n as int, factor),
{
    lemma_emitted_started(factor, (n - 1) as nat);
    assert(((n - 1) as nat) * factor == (n - 1) * factor);
}

proof fn lemma_emitted_started(factor: int, n: nat)
    ensures
        emitted(true, factor, n) == n * factor,
    decreases n,
{
    if n > 0 {
        let m = (n - 1) as nat;
        lemma_emitted_started(factor, m);
        assert(emitted(true, factor, n) == factor + emitted(true, factor, m));
        assert(n * factor == m * factor + factor) by (nonlinear_arith)
            requires
                m == n - 1,
        ;
    } else {
        assert(n * factor == 0) by (nonlinear_arith)
            requires
                n == 0,
        ;
    }
}

// ---------------------------------------------------------------------------
// Duplicate dropping
// ---------------------------------------------------------------------------

/// Consecutive near-duplicates dropped at most in a row.
pub const MAX_CONSECUTIVE_DUPLICATES: usize = 5;

/// The dedup decision for one frame after `consecutive` drops in a row:
/// whether to keep it, and the drops in a row afterwards.
pub open spec fn dedup_step(consecutive: nat, duplicate: bool) -> (bool, nat) {
    if duplicate && consecutive < MAX_CONSECUTIVE_DUPLICATES {
        (false, consecutive + 1)
    } else {
        (true, 0)
    }
}

/// The keep decisions for frames whose duplicate flags are `dups`, starting
/// after `consecutive` drops in a row.
pub open spec fn dedup_run(consecutive: nat, dups: Seq<bool>) -> Seq<bool>
    decreases dups.len(),
{
    if dups.len() == 0 {
        Seq::empty()
    } else {
        let (k, c) = dedup_step(consecutive, dups[0]);
        seq![k] + dedup_run(c, dups.drop_first())
    }
}

proof fn lemma_dedup_run_len(consecutive: nat, dups: Seq<bool>)
    ensures
        dedup_run(consecutive, dups).len() == dups.len(),
    decreases dups.len(),
{
    if dups.len() > 0 {
        let (k, c) = dedup_step(consecutive, dups[0]);
        lemma_dedup_run_len(c, dups.drop_first());
    }
}

proof fn lemma_dedup_first_keep(consecutive: nat, dups: Seq<bool>)
    requires
        consecutive <= MAX_CONSECUTIVE_DUPLICATES,
        dups.len() > MAX_CONSECUTIVE_DUPLICATES - consecutive,
    ensures
        exists|j: int| 0 <= j <= MAX_CONSECUTIVE_DUPLICATES - consecutive && #[trigger] dedup_run(consecutive, dups)[j],
    decreases MAX_CONSECUTIVE_DUPLICATES - consecutive,
{
    let (k, c) = dedup_step(consecutive, dups[0]);
    let rest = dedup_run(c, dups.drop_first());
    assert(dedup_run(consecutive, dups) == seq![k] + rest);
    if k {
        assert(dedup_run(consecutive, dups)[0]);
    } else {
        lemma_dedup_first_keep(c, dups.drop_first());
        lemma_dedup_run_len(c, dups.drop_first());
        let j = choose|j: int| 0 <= j <= MAX_CONSECUTIVE_DUPLICATES - c && #[trigger] rest[j];
        assert(dedup_run(consecutive, dups)[j + 1]);
    }
}

/// Some frame among `i ..= i + MAX_CONSECUTIVE_DUPLICATES` is kept.
pub open spec fn keeps_one_of(kept: Seq<bool>, i: int) -> bool {
    exists|j: int| i <= j <= i + MAX_CONSECUTIVE_DUPLICATES && #[trigger] kept[j]
}

/// Duplicate dropping never collapses a static scene: whatever the
/// duplicate flags, among any `MAX_CONSECUTIVE_DUPLICATES + 1` consecutive
/// frames at least one is kept, and a frame that is no duplicate is always
/// kept.
pub proof fn lemma_dedup_keeps_frame_rate(consecutive: nat, dups: Seq<bool>)
    requires
        consecutive <= MAX_CONSECUTIVE_DUPLICATES,
    ensures
        dedup_run(consecutive, dups).len() == dups.len(),
        forall|i: int|
            0 <= i && i + MAX_CONSECUTIVE_DUPLICATES < dups.len() ==> #[trigger] keeps_one_of(
                dedup_run(consecutive, dups),
                i,
            ),
        forall|i: int| 0 <= i < dups.len() && !dups[i] ==> #[trigger] dedup_run(consecutive, dups)[i],
    decreases dups.len(),
{
    lemma_dedup_run_len(consecutive, dups);
    if dups.len() > 0 {
        let (k, c) = dedup_step(consecutive, dups[0]);
        let rest_dups = dups.drop_first();
        let rest = dedup_run(c, rest_dups);
        let out = dedup_run(consecutive, dups);
        assert(out == seq![k] + rest);
        lemma_dedup_keeps_frame_rate(c, rest_dups);
        assert forall|i: int|
            0 <= i && i + MAX_CONSECUTIVE_DUPLICATES < dups.len() implies #[trigger] keeps_one_of(out, i) by {
            if i == 0 {
                lemma_dedup_first_keep(consecutive, dups);
                let j = choose|j: int| 0 <= j <= MAX_CONSECUTIVE_DUPLICATES - consecutive && #[trigger] out[j];
                assert(out[j]);
            } else {
                assert(rest_dups.len() == dups.len() - 1);
                assert(keeps_one_of(rest, i - 1));
                let j = choose|j: int| i - 1 <= j <= i - 1 + MAX_CONSECUTIVE_DUPLICATES && #[trigger] rest[j];
                assert(out[j + 1] == rest[j]);
            }
        }
        assert forall|i: int| 0 <= i < dups.len() && !dups[i] implies #[trigger] out[i] by {
            if i > 0 {
                assert(!rest_dups[i - 1]);
                assert(out[i] == rest[i - 1]);
            }
        }
    }
}

/// The duplicate-dropping decision of the dedup step.
pub struct DedupState {
    consecutive: usize,
}

impl DedupState {
    /// Near-duplicates dropped in a row so far.
    pub closed spec fn spec_consecutive(&self) -> nat {
        self.consecutive as nat
    }

    /// Never more drops in a row than allowed.
    #[verifier::type_invariant]
    spec fn bounded(self) -> bool {
        self.consecutive <= MAX_CONSECUTIVE_DUPLICATES
    }

    /// No frame dropped yet.
    pub fn new() -> (r: Self)
        ensures
            r.spec_consecutive() == 0,
    {
        DedupState { consecutive: 0 }
    }

    /// Whether to keep the next frame, given whether it is a near-duplicate
    /// of the last kept one: a duplicate is dropped unless
    /// `MAX_CONSECUTIVE_DUPLICATES` were dropped in a row already, so a
    /// static scene keeps a usable frame rate.
    pub fn keep(&mut self, duplicate: bool) -> (r: bool)
        ensures
            old(self).spec_consecutive() <= MAX_CONSECUTIVE_DUPLICATES,
            (r, final(self).spec_consecutive()) == dedup_step(old(self).spec_consecutive(), duplicate),
            final(self).spec_consecutive() <= MAX_CONSECUTIVE_DUPLICATES,
    {
        proof {
            use_type_invariant(&*self);
        }
        if duplicate && self.consecutive < MAX_CONSECUTIVE_DUPLICATES {
            self.consecutive = self.consecutive + 1;
            false
        } else {
            self.consecutive = 0;
            true
        }
    }
}

// ---------------------------------------------------------------------------
// The ffmpeg filter step
// ---------------------------------------------------------------------------

/// Filter: run each frame through an FFmpeg filter graph over a rawvideo
/// pipe. Frame-preserving only (1:1): a filter that changes the output size
/// is rejected.
pub struct Filter {
    pub filter: String,
    pub ffmpeg: String,
}

/// `<width>x<height>`.
pub open spec fn frame_size_text(width: nat, height: nat) -> Seq<char> {
    decimal(width) + "x"@ + decimal(height)
}

/// The ffmpeg arguments of one filter pass over a `width`×`height` frame.
pub open spec fn filter_args_spec(width: nat, height: nat, filter: Seq<char>) -> Seq<Seq<char>> {
    seq![
        "-hide_banner"@,
        "-loglevel"@,
        "error"@,
        "-f"@,
        "rawvideo"@,
        "-pix_fmt"@,
        "rgb24"@,
        "-s"@,
        frame_size_text(width, height),
        "-i"@,
        "-"@,
        "-vf"@,
        filter,
        "-f"@,
        "rawvideo"@,
        "-pix_fmt"@,
        "rgb24"@,
        "-"@,
    ]
}

/// The message of a filter pass whose output size differs from its input.
pub open spec fn size_changed_message(input: nat, output: nat) -> Seq<char> {
    "filter changed frame size ("@ + decimal(input) + " -> "@ + decimal(output)
        + " bytes); only frame-preserving filters are supported"@
}

fn push_text(v: &mut Vec<String>, t: &str)
    ensures
        final(v)@.len() == old(v)@.len() + 1,
        forall|i: int| 0 <= i < old(v)@.len() ==> final(v)@[i] == old(v)@[i],
        final(v)@[old(v)@.len() as int]@ == t@,
{
    v.push(t.to_owned());
}

impl Filter {
    /// A filter step running graph `filter` with the ffmpeg at `ffmpeg`.
    pub fn new(filter: &str, ffmpeg: &str) -> (r: Filter)
        ensures
            r.filter@ == filter@,
            r.ffmpeg@ == ffmpeg@,
    {
        Filter { filter: filter.to_owned(), ffmpeg: ffmpeg.to_owned() }
    }

    /// The ffmpeg arguments of one pass over a `width`×`height` frame.
    pub fn args(&self, width: u32, height: u32) -> (r: Vec<String>)
        ensures
            r.len() == 18,
            forall|i: int| 0 <= i < 18 ==> #[trigger] r@[i]@ == filter_args_spec(
                width as nat,
                height as nat,
                self.filter@,
            )[i],
    {
        let mut size = String::new();
        push_numeral(&mut size, width as u64, 10);
        size.append("x");
        push_numeral(&mut size, height as u64, 10);
        let mut v: Vec<String> = Vec::new();
        push_text(&mut v, "-hide_banner");
        push_text(&mut v, "-loglevel");
        push_text(&mut v, "error");
        push_text(&mut v, "-f");
        push_text(&mut v, "rawvideo");
        push_text(&mut v, "-pix_fmt");
        push_text(&mut v, "rgb24");
        push_text(&mut v, "-s");
        push_text(&mut v, size.as_str());
        push_text(&mut v, "-i");
        push_text(&mut v, "-");
        push_text(&mut v, "-vf");
        push_text(&mut v, self.filter.as_str());
        push_text(&mut v, "-f");
        push_text(&mut v, "rawvideo");
        push_text(&mut v, "-pix_fmt");
        push_text(&mut v, "rgb24");
        push_text(&mut v, "-");
        proof {
            assert(size@ =~= frame_size_text(width as nat, height as nat));
            assert forall|i: int| 0 <= i < 18 implies #[trigger] v@[i]@ == filter_args_spec(
                width as nat,
                height as nat,
                self.filter@,
            )[i] by {}
        }
        v
    }

    /// Check a pass's output size against its input: the output replaces the
    /// frame only when both have `input` bytes.
    pub fn check_output(input: usize, output: usize) -> (r: Result<(), String>)
        ensures
            r is Ok <==> input == output,
            r matches Err(e) ==> e@ == size_changed_message(input as nat, output as nat),
    {
        if input == output {
            return Ok(());
        }
        let mut m = String::from_str("filter changed frame size (");
        push_numeral(&mut m, input as u64, 10);
        m.append(" -> ");
        push_numeral(&mut m, output as u64, 10);
        m.append(" bytes); only frame-preserving filters are supported");
        proof {
            assert(m@ =~= size_changed_message(input as nat, output as nat));
        }
        Err(m)
    }

    /// The message of a failed pass, from ffmpeg's trimmed error output.
    pub fn failure_message(stderr: &str) -> (r: String)
        ensures
            r@ == "ffmpeg filter failed: "@ + stderr@,
    {
        let mut m = String::from_str("ffmpeg filter failed: ");
        m.append(stderr);
        m
    }
}

} // verus!
