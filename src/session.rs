//! The life of one playback request: the trim window and duration in
//! milliseconds and frames, the choice of its two devices, the order in which
//! stream buffer sizes are tried, and the supervision state machine that
//! reports progress until the playback completes, is stopped, or fails.

use crate::render::{
    lemma_reads_within_window, plan_of, position_after, step_at, channel_read_of, ChannelRead, RenderPlan,
};
use vstd::arithmetic::div_mod::{lemma_div_is_ordered, lemma_fundamental_div_mod, lemma_mod_pos_bound};
use vstd::arithmetic::mul::lemma_mul_inequality;
use vstd::prelude::*;

verus! {

/// The supervision interval, in milliseconds.
pub const TICK_MS: u64 = 50;

/// The buffer size, in frames, that a stream asks for first.
pub const PREFERRED_BUFFER_FRAMES: u32 = 256;

/// Why a playback ended without streaming.
#[derive(Clone, Debug, PartialEq, Eq)]
pub enum PlaybackError {
    /// The source could not be decoded.
    DecodeFailure(String),
    /// A device index does not name a current output device.
    DeviceNotFound,
    /// No buffer configuration, the device default included, could be opened.
    StreamConfigFailure(String),
    /// The device asks for a sample encoding that cannot be rendered.
    UnsupportedSampleFormat,
}

/// `ms` milliseconds at `sample_rate`, in whole frames.
pub open spec fn frames_of_ms(ms: nat, sample_rate: nat) -> nat {
    ms * sample_rate / 1000
}

/// `frames` at `sample_rate`, in whole milliseconds.
pub open spec fn ms_of_frames(frames: nat, sample_rate: nat) -> nat {
    frames * 1000 / sample_rate
}

/// The frame count of `ms` milliseconds at `sample_rate`, rounded down, and
/// held at the largest `usize` where it would pass it.
pub fn frames_from_ms(ms: u64, sample_rate: u32) -> (r: usize)
    ensures
        r == if frames_of_ms(ms as nat, sample_rate as nat) <= usize::MAX {
            frames_of_ms(ms as nat, sample_rate as nat)
        } else {
            usize::MAX as nat
        },
{
    proof {
        assert(ms as nat * sample_rate as nat <= 0xffff_ffff_ffff_ffff * 0xffff_ffff) by (nonlinear_arith)
            requires ms <= 0xffff_ffff_ffff_ffffu64, sample_rate <= 0xffff_ffffu32;
    }
    let f = ms as u128 * sample_rate as u128 / 1000;
    if f > usize::MAX as u128 {
        usize::MAX
    } else {
        f as usize
    }
}

/// The trim window in frames: each bound that is given, converted at the
/// buffer's sample rate.
pub fn trim_frames(trim_start_ms: Option<u64>, trim_end_ms: Option<u64>, sample_rate: u32) -> (r: (
    Option<usize>,
    Option<usize>,
))
    ensures
        r.0 is Some <==> trim_start_ms is Some,
        r.1 is Some <==> trim_end_ms is Some,
        trim_start_ms matches Some(s) ==> r.0 == Some(frames_from_ms_spec(s, sample_rate)),
        trim_end_ms matches Some(e) ==> r.1 == Some(frames_from_ms_spec(e, sample_rate)),
{
    let start = match trim_start_ms {
        Some(s) => Some(frames_from_ms(s, sample_rate)),
        None => None,
    };
    let end = match trim_end_ms {
        Some(e) => Some(frames_from_ms(e, sample_rate)),
        None => None,
    };
    (start, end)
}

/// What `frames_from_ms` returns.
pub open spec fn frames_from_ms_spec(ms: u64, sample_rate: u32) -> usize {
    if frames_of_ms(ms as nat, sample_rate as nat) <= usize::MAX {
        frames_of_ms(ms as nat, sample_rate as nat) as usize
    } else {
        usize::MAX
    }
}

/// The frames between the trim bounds: from `start_frame` (default 0) to
/// `end_frame` bounded by the buffer's length (default: every frame of the
/// buffer), none if the end comes first. Bounding the end keeps the
/// supervision from outlasting the audio.
pub open spec fn trimmed_frames(total_frames: usize, start_frame: Option<usize>, end_frame: Option<usize>) -> nat {
    let s: int = match start_frame { Some(s) => s as int, None => 0 };
    let e: int = match end_frame {
        Some(e) => if e < total_frames { e as int } else { total_frames as int },
        None => total_frames as int,
    };
    if e > s { (e - s) as nat } else { 0 }
}

/// How long a playback of the trimmed range lasts, in whole milliseconds,
/// held at the largest `u64`.
pub fn total_duration_ms(total_frames: usize, start_frame: Option<usize>, end_frame: Option<usize>, sample_rate: u32) -> (r: u64)
    requires
        sample_rate > 0,
    ensures
        r == if ms_of_frames(trimmed_frames(total_frames, start_frame, end_frame), sample_rate as nat) <= u64::MAX {
            ms_of_frames(trimmed_frames(total_frames, start_frame, end_frame), sample_rate as nat)
        } else {
            u64::MAX as nat
        },
{
    let start = match start_frame {
        Some(s) => s,
        None => 0,
    };
    let end = match end_frame {
        Some(e) => if e < total_frames { e } else { total_frames },
        None => total_frames,
    };
    let frames: usize = if end > start { end - start } else { 0 };
    proof {
        assert(frames as nat * 1000 <= 0xffff_ffff_ffff_ffff * 1000) by (nonlinear_arith)
            requires frames as int <= 0xffff_ffff_ffff_ffff;
    }
    let ms = frames as u128 * 1000 / sample_rate as u128;
    if ms > u64::MAX as u128 {
        u64::MAX
    } else {
        ms as u64
    }
}

/// A trim window given in milliseconds, from `start_ms` to `end_ms` within a
/// buffer of `sample_count` samples in `source_channels` at `sample_rate`:
/// each stream's plan starts at the start's frame and ends at the end's
/// frame, reads no sample outside that window, and the playback lasts the
/// window's frames in whole milliseconds.
pub proof fn lemma_trim_window_ms(
    sample_count: usize,
    source_channels: usize,
    sample_rate: u32,
    output_rate: u32,
    output_channels: usize,
    start_ms: u64,
    end_ms: u64,
    k: nat,
    ch: int,
)
    requires
        source_channels > 0,
        sample_rate > 0,
        output_rate > 0,
        output_channels > 0,
        start_ms <= end_ms,
        frames_of_ms(end_ms as nat, sample_rate as nat) <= sample_count / source_channels,
        0 <= ch,
    ensures
        ({
            let s = frames_from_ms_spec(start_ms, sample_rate);
            let e = frames_from_ms_spec(end_ms, sample_rate);
            let plan = plan_of(sample_count, source_channels, sample_rate, output_rate, output_channels, Some(s), Some(e));
            &&& s as nat == frames_of_ms(start_ms as nat, sample_rate as nat)
            &&& e as nat == frames_of_ms(end_ms as nat, sample_rate as nat)
            &&& s <= e
            &&& plan.start_frame == s
            &&& plan.max_frame == e
            &&& trimmed_frames((sample_count / source_channels) as usize, Some(s), Some(e)) == e - s
            &&& (channel_read_of(plan, step_at(plan, position_after(plan, k)), ch) matches ChannelRead::Blend { first, second, .. } ==> {
                &&& s * source_channels <= first
                &&& second < e * source_channels
            })
        }),
{
    let sr = sample_rate as int;
    assert(start_ms as int * sr <= end_ms as int * sr) by (nonlinear_arith)
        requires start_ms <= end_ms, sr > 0;
    lemma_div_is_ordered(start_ms as int * sr, end_ms as int * sr, 1000);
    let s = frames_from_ms_spec(start_ms, sample_rate);
    let e = frames_from_ms_spec(end_ms, sample_rate);
    let plan = plan_of(sample_count, source_channels, sample_rate, output_rate, output_channels, Some(s), Some(e));
    assert(plan.wf()) by {
        let frames = sample_count as int / source_channels as int;
        lemma_fundamental_div_mod(sample_count as int, source_channels as int);
        lemma_mod_pos_bound(sample_count as int, source_channels as int);
        lemma_mul_inequality(e as int, frames, source_channels as int);
        assert(frames * source_channels as int <= sample_count) by (nonlinear_arith)
            requires
                sample_count as int == source_channels as int * frames + sample_count as int % source_channels as int,
                sample_count as int % source_channels as int >= 0;
    }
    lemma_reads_within_window(plan, k, ch);
}

/// The two device positions in an enumeration of `device_count` output
/// devices, or `DeviceNotFound` if either lies past its end.
pub fn resolve_devices(device_count: usize, first: usize, second: usize) -> (r: Result<(usize, usize), PlaybackError>)
    ensures
        r is Ok <==> first < device_count && second < device_count,
        r matches Ok(p) ==> p == (first, second),
        r matches Err(e) ==> e == PlaybackError::DeviceNotFound,
{
    if first < device_count && second < device_count {
        Ok((first, second))
    } else {
        Err(PlaybackError::DeviceNotFound)
    }
}

/// The buffer configuration a stream asks for.
#[derive(Clone, Copy, Debug, PartialEq, Eq, Structural)]
pub enum BufferRequest {
    /// A fixed buffer of this many frames.
    Fixed(u32),
    /// Whatever the device uses by default.
    DeviceDefault,
}

/// The buffer configurations in the order they are tried: the preferred
/// low-latency size, larger fixed sizes, then the device default.
pub open spec fn buffer_requests() -> Seq<BufferRequest> {
    seq![
        BufferRequest::Fixed(256),
        BufferRequest::Fixed(512),
        BufferRequest::Fixed(1024),
        BufferRequest::DeviceDefault,
    ]
}

/// The buffer configuration of the `attempt`-th try at opening a stream,
/// counting from 0; none once every configuration has failed.
pub fn buffer_request(attempt: usize) -> (r: Option<BufferRequest>)
    ensures
        attempt < buffer_requests().len() ==> r == Some(buffer_requests()[attempt as int]),
        attempt >= buffer_requests().len() ==> r is None,
{
    if attempt == 0 {
        Some(BufferRequest::Fixed(PREFERRED_BUFFER_FRAMES))
    } else if attempt == 1 {
        Some(BufferRequest::Fixed(512))
    } else if attempt == 2 {
        Some(BufferRequest::Fixed(1024))
    } else if attempt == 3 {
        Some(BufferRequest::DeviceDefault)
    } else {
        None
    }
}

/// The render plan of one output stream of a playback, or
/// `StreamConfigFailure` where the buffer or the device's configuration has
/// no channel or no sample rate.
pub fn stream_plan(
    sample_count: usize,
    source_channels: usize,
    source_rate: u32,
    output_rate: u32,
    output_channels: usize,
    start_frame: Option<usize>,
    end_frame: Option<usize>,
) -> (r: Result<RenderPlan, PlaybackError>)
    ensures
        r is Ok <==> source_channels > 0 && output_rate > 0 && output_channels > 0,
        r matches Ok(p) ==> p.wf() && p == plan_of(
            sample_count, source_channels, source_rate, output_rate, output_channels, start_frame, end_frame),
        r matches Err(e) ==> e is StreamConfigFailure,
{
    if source_channels == 0 || output_rate == 0 || output_channels == 0 {
        let reason = String::from_str("invalid stream configuration");
        Err(PlaybackError::StreamConfigFailure(reason))
    } else {
        Ok(RenderPlan::new(sample_count, source_channels, source_rate, output_rate, output_channels, start_frame, end_frame))
    }
}

/// Where a playback stands.
#[derive(Clone, Copy, Debug, PartialEq, Eq, Structural)]
pub enum Phase {
    Requested,
    Decoding,
    Streaming,
    Completed,
    Stopped,
    Failed,
}

impl Phase {
    pub open spec fn is_terminal(self) -> bool {
        self is Completed || self is Stopped || self is Failed
    }
}

/// A progress notification.
#[derive(Clone, Copy, Debug, PartialEq, Eq, Structural)]
pub struct Progress {
    pub elapsed_ms: u64,
    pub total_ms: u64,
    pub percent: u8,
}

/// What the supervising thread does after a tick.
#[derive(Clone, Copy, Debug, PartialEq, Eq, Structural)]
pub enum TickAction {
    /// Sleep one interval, then report this progress.
    Report(Progress),
    /// Tear both streams down, unregister, and notify completion.
    Finish,
    /// Nothing: the playback is not streaming.
    Idle,
}

/// `elapsed / total` in whole percent, at most 100.
pub open spec fn percent_of(elapsed: nat, total: nat) -> nat {
    if total == 0 || elapsed * 100 / total >= 100 { 100 } else { elapsed * 100 / total }
}

/// The percent of a progress notification.
pub fn progress_percent(elapsed_ms: u64, total_ms: u64) -> (r: u8)
    ensures
        r == percent_of(elapsed_ms as nat, total_ms as nat),
{
    if total_ms == 0 {
        return 100;
    }
    proof {
        assert(elapsed_ms as nat * 100 <= 0xffff_ffff_ffff_ffff * 100) by (nonlinear_arith)
            requires elapsed_ms <= 0xffff_ffff_ffff_ffffu64;
    }
    let p = elapsed_ms as u128 * 100 / total_ms as u128;
    if p >= 100 {
        100
    } else {
        p as u8
    }
}

/// The state of one playback request.
#[derive(Clone, Copy, Debug, PartialEq, Eq, Structural)]
pub struct PlaybackSession {
    pub phase: Phase,
    pub elapsed_ms: u64,
    pub total_ms: u64,
}

/// The session and the action after one tick at which a stop request was
/// (`stop_pending`) or was not pending.
pub open spec fn tick_of(s: PlaybackSession, stop_pending: bool) -> (PlaybackSession, TickAction) {
    if !(s.phase is Streaming) {
        (s, TickAction::Idle)
    } else if s.elapsed_ms >= s.total_ms {
        (PlaybackSession { phase: Phase::Completed, ..s }, TickAction::Finish)
    } else if stop_pending {
        (PlaybackSession { phase: Phase::Stopped, ..s }, TickAction::Finish)
    } else {
        let e: u64 = if s.elapsed_ms + TICK_MS <= u64::MAX { (s.elapsed_ms + TICK_MS) as u64 } else { u64::MAX };
        (
            PlaybackSession { elapsed_ms: e, ..s },
            TickAction::Report(Progress {
                elapsed_ms: e,
                total_ms: s.total_ms,
                percent: percent_of(e as nat, s.total_ms as nat) as u8,
            }),
        )
    }
}

/// The actions of consecutive ticks from `s`, with the stop requests that
/// were pending at each.
pub open spec fn run_ticks(s: PlaybackSession, stops: Seq<bool>) -> Seq<TickAction>
    decreases stops.len(),
{
    if stops.len() == 0 {
        Seq::empty()
    } else {
        let (next, action) = tick_of(s, stops[0]);
        seq![action] + run_ticks(next, stops.drop_first())
    }
}

proof fn lemma_idle_when_not_streaming(s: PlaybackSession, stops: Seq<bool>)
    requires
        !(s.phase is Streaming),
    ensures
        run_ticks(s, stops).len() == stops.len(),
        forall|j: int| 0 <= j < stops.len() ==> run_ticks(s, stops)[j] == TickAction::Idle,
    decreases stops.len(),
{
    if stops.len() > 0 {
        lemma_idle_when_not_streaming(s, stops.drop_first());
        assert forall|j: int| 0 <= j < stops.len() implies run_ticks(s, stops)[j] == TickAction::Idle by {
            if j > 0 {
                assert(run_ticks(s, stops)[j] == run_ticks(s, stops.drop_first())[j - 1]);
            }
        }
    }
}

proof fn lemma_run_len(s: PlaybackSession, stops: Seq<bool>)
    ensures
        run_ticks(s, stops).len() == stops.len(),
    decreases stops.len(),
{
    if stops.len() > 0 {
        lemma_run_len(tick_of(s, stops[0]).0, stops.drop_first());
    }
}

/// A stop request halts progress within one tick: from the tick at which it
/// is first seen pending, no progress is reported any more.
pub proof fn lemma_stop_halts_progress(s: PlaybackSession, stops: Seq<bool>, i: int)
    requires
        0 <= i < stops.len(),
        stops[i],
    ensures
        forall|j: int| i <= j < stops.len() ==> !(run_ticks(s, stops)[j] is Report),
    decreases stops.len(),
{
    lemma_run_len(s, stops);
    let (next, action) = tick_of(s, stops[0]);
    if i == 0 {
        assert(!(next.phase is Streaming));
        lemma_idle_when_not_streaming(next, stops.drop_first());
        assert forall|j: int| i <= j < stops.len() implies !(run_ticks(s, stops)[j] is Report) by {
            if j > 0 {
                assert(run_ticks(s, stops)[j] == run_ticks(next, stops.drop_first())[j - 1]);
            }
        }
    } else {
        lemma_stop_halts_progress(next, stops.drop_first(), i - 1);
        assert forall|j: int| i <= j < stops.len() implies !(run_ticks(s, stops)[j] is Report) by {
            assert(run_ticks(s, stops)[j] == run_ticks(next, stops.drop_first())[j - 1]);
        }
    }
}

/// A playback finishes at most once, whatever stop requests come: after the
/// tick that finishes it, every tick is idle.
pub proof fn lemma_finishes_once(s: PlaybackSession, stops: Seq<bool>, i: int)
    requires
        0 <= i < stops.len(),
        run_ticks(s, stops)[i] is Finish,
    ensures
        forall|j: int| i < j < stops.len() ==> run_ticks(s, stops)[j] == TickAction::Idle,
    decreases stops.len(),
{
    lemma_run_len(s, stops);
    let (next, action) = tick_of(s, stops[0]);
    lemma_run_len(next, stops.drop_first());
    if i == 0 {
        lemma_idle_when_not_streaming(next, stops.drop_first());
        assert forall|j: int| i < j < stops.len() implies run_ticks(s, stops)[j] == TickAction::Idle by {
            assert(run_ticks(s, stops)[j] == run_ticks(next, stops.drop_first())[j - 1]);
        }
    } else {
        assert(run_ticks(s, stops)[i] == run_ticks(next, stops.drop_first())[i - 1]);
        lemma_finishes_once(next, stops.drop_first(), i - 1);
        assert forall|j: int| i < j < stops.len() implies run_ticks(s, stops)[j] == TickAction::Idle by {
            assert(run_ticks(s, stops)[j] == run_ticks(next, stops.drop_first())[j - 1]);
        }
    }
}

impl PlaybackSession {
    /// A request that has not started decoding.
    pub fn new() -> (r: PlaybackSession)
        ensures
            r.phase == Phase::Requested,
            r.elapsed_ms == 0,
            r.total_ms == 0,
    {
        PlaybackSession { phase: Phase::Requested, elapsed_ms: 0, total_ms: 0 }
    }

    /// The worker has started decoding: `true` iff the request was waiting
    /// for it.
    pub fn begin_decoding(&mut self) -> (r: bool)
        ensures
            r == (old(self).phase == Phase::Requested),
            final(self).phase == if r { Phase::Decoding } else { old(self).phase },
            final(self).elapsed_ms == old(self).elapsed_ms,
            final(self).total_ms == old(self).total_ms,
    {
        if self.phase == Phase::Requested {
            self.phase = Phase::Decoding;
            true
        } else {
            false
        }
    }

    /// Both streams run and the trimmed range lasts `total_ms`: `true` iff
    /// the playback was decoding.
    pub fn begin_streaming(&mut self, total_ms: u64) -> (r: bool)
        ensures
            r == (old(self).phase == Phase::Decoding),
            r ==> *final(self) == (PlaybackSession { phase: Phase::Streaming, elapsed_ms: 0, total_ms }),
            !r ==> *final(self) == *old(self),
    {
        if self.phase == Phase::Decoding {
            *self = PlaybackSession { phase: Phase::Streaming, elapsed_ms: 0, total_ms };
            true
        } else {
            false
        }
    }

    /// Decoding, device lookup or stream construction failed: `true` iff the
    /// playback had not ended yet, and it has failed now.
    pub fn fail(&mut self) -> (r: bool)
        ensures
            r == !old(self).phase.is_terminal(),
            final(self).phase == if r { Phase::Failed } else { old(self).phase },
            final(self).elapsed_ms == old(self).elapsed_ms,
            final(self).total_ms == old(self).total_ms,
    {
        if self.phase == Phase::Completed || self.phase == Phase::Stopped || self.phase == Phase::Failed {
            false
        } else {
            self.phase = Phase::Failed;
            true
        }
    }

    /// One supervision tick: the playback completes once the whole range has
    /// elapsed, stops if a stop request is pending, and otherwise advances by
    /// one interval and reports its progress.
    pub fn tick(&mut self, stop_pending: bool) -> (r: TickAction)
        ensures
            (*final(self), r) == tick_of(*old(self), stop_pending),
    {
        if self.phase != Phase::Streaming {
            return TickAction::Idle;
        }
        if self.elapsed_ms >= self.total_ms {
            self.phase = Phase::Completed;
            return TickAction::Finish;
        }
        if stop_pending {
            self.phase = Phase::Stopped;
            return TickAction::Finish;
        }
        self.elapsed_ms = self.elapsed_ms.saturating_add(TICK_MS);
        let percent = progress_percent(self.elapsed_ms, self.total_ms);
        TickAction::Report(Progress { elapsed_ms: self.elapsed_ms, total_ms: self.total_ms, percent })
    }
}

} // verus!
