//! The sample-accurate read plan of one output stream: where the resampling
//! cursor stands, which source frames each output frame blends, and which
//! output channels stay silent.
//!
//! The cursor is kept exactly: its position is counted in steps of
//! `1 / output_rate` source frames, so that it advances by `source_rate` steps
//! per output frame and its fractional part is `position % output_rate`.

use vstd::arithmetic::div_mod::{
    lemma_div_multiples_vanish, lemma_div_pos_is_pos, lemma_fundamental_div_mod, lemma_mod_multiples_basic,
    lemma_mod_pos_bound,
};
use vstd::arithmetic::mul::{lemma_mul_inequality, lemma_mul_upper_bound};
use vstd::prelude::*;

verus! {

/// Silence in the unsigned 16-bit encoding: the midpoint of its range.
pub const U16_SILENCE: u16 = 32768;

/// Silence in the signed 16-bit encoding.
pub const I16_SILENCE: i16 = 0;

/// The output sample encodings that a stream can be rendered in.
#[derive(Clone, Copy, Debug, PartialEq, Eq, Structural)]
pub enum SampleEncoding {
    F32,
    I16,
    U16,
}

/// Above every cursor position that a well-formed renderer reaches.
pub const POSITION_LIMIT: u128 = 0x10_0000_0000_0000_0000_0000_0000;

/// What one output frame reads from the source.
#[derive(Clone, Copy, Debug, PartialEq, Eq, Structural)]
pub enum FrameStep {
    /// Past the end of the playable range: every channel is silent.
    Silent,
    /// Blend source frame `frame` with the next one, the next one weighing
    /// `weight_num / weight_den`.
    Audible { frame: usize, weight_num: u32, weight_den: u32 },
}

/// What one output sample reads from the source.
#[derive(Clone, Copy, Debug, PartialEq, Eq, Structural)]
pub enum ChannelRead {
    Silence,
    /// `first + (second - first) * weight_num / weight_den`, over sample
    /// indices of the interleaved source buffer.
    Blend { first: usize, second: usize, weight_num: u32, weight_den: u32 },
}

/// The fixed parameters of one output stream over one source buffer.
#[derive(Clone, Copy, Debug, PartialEq, Eq, Structural)]
pub struct RenderPlan {
    /// Interleaved samples in the source buffer.
    pub sample_count: usize,
    pub source_channels: usize,
    pub source_rate: u32,
    pub output_rate: u32,
    pub output_channels: usize,
    /// First source frame played.
    pub start_frame: usize,
    /// The end of the playable range: the requested end frame, bounded by
    /// the frames the buffer holds.
    pub max_frame: usize,
}

/// Whether the output frame at cursor position `pos` reads the source.
pub open spec fn audible_at(plan: RenderPlan, pos: int) -> bool {
    pos / (plan.output_rate as int) + 1 < plan.max_frame
}

/// The read of the output frame at cursor position `pos`.
pub open spec fn step_at(plan: RenderPlan, pos: int) -> FrameStep {
    if audible_at(plan, pos) {
        FrameStep::Audible {
            frame: (pos / (plan.output_rate as int)) as usize,
            weight_num: (pos % (plan.output_rate as int)) as u32,
            weight_den: plan.output_rate,
        }
    } else {
        FrameStep::Silent
    }
}

/// The cursor position after `k` audible output frames.
pub open spec fn position_after(plan: RenderPlan, k: nat) -> int {
    plan.start_frame * plan.output_rate + k * plan.source_rate
}

/// The read of output channel `ch` in an output frame that reads `step`.
pub open spec fn channel_read_of(plan: RenderPlan, step: FrameStep, ch: int) -> ChannelRead {
    match step {
        FrameStep::Silent => ChannelRead::Silence,
        FrameStep::Audible { frame, weight_num, weight_den } => {
            if ch >= plan.source_channels {
                ChannelRead::Silence
            } else {
                ChannelRead::Blend {
                    first: (frame * plan.source_channels + ch) as usize,
                    second: ((frame + 1) * plan.source_channels + ch) as usize,
                    weight_num,
                    weight_den,
                }
            }
        },
    }
}

/// The plan of a stream at `output_rate` with `output_channels`, over a
/// buffer of `sample_count` interleaved samples in `source_channels` at
/// `source_rate`, played from `start_frame` (default: the first frame) to
/// `end_frame` (default, and at most: the last frame).
pub open spec fn plan_of(
    sample_count: usize,
    source_channels: usize,
    source_rate: u32,
    output_rate: u32,
    output_channels: usize,
    start_frame: Option<usize>,
    end_frame: Option<usize>,
) -> RenderPlan {
    let frames = (sample_count / source_channels) as usize;
    RenderPlan {
        sample_count,
        source_channels,
        source_rate,
        output_rate,
        output_channels,
        start_frame: match start_frame { Some(s) => s, None => 0 },
        max_frame: match end_frame {
            Some(e) => if e < frames { e } else { frames },
            None => frames,
        },
    }
}

impl RenderPlan {
    pub open spec fn wf(&self) -> bool {
        &&& self.source_channels > 0
        &&& self.output_rate > 0
        &&& self.output_channels > 0
        &&& self.max_frame * self.source_channels <= self.sample_count
    }

    /// Whether `step` is a read that this plan can produce.
    pub open spec fn step_ok(&self, step: FrameStep) -> bool {
        match step {
            FrameStep::Silent => true,
            FrameStep::Audible { frame, weight_num, weight_den } => {
                &&& self.start_frame <= frame
                &&& frame + 1 < self.max_frame
                &&& weight_den == self.output_rate
                &&& weight_num < weight_den
            },
        }
    }

    /// The plan of a stream over a buffer and a trim window (see `plan_of`).
    pub fn new(
        sample_count: usize,
        source_channels: usize,
        source_rate: u32,
        output_rate: u32,
        output_channels: usize,
        start_frame: Option<usize>,
        end_frame: Option<usize>,
    ) -> (r: RenderPlan)
        requires
            source_channels > 0,
            output_rate > 0,
            output_channels > 0,
        ensures
            r.wf(),
            r == plan_of(sample_count, source_channels, source_rate, output_rate, output_channels, start_frame, end_frame),
    {
        let frames = sample_count / source_channels;
        let max_frame = match end_frame {
            Some(e) => if e < frames { e } else { frames },
            None => frames,
        };
        let start = match start_frame {
            Some(s) => s,
            None => 0,
        };
        proof {
            lemma_fundamental_div_mod(sample_count as int, source_channels as int);
            lemma_mod_pos_bound(sample_count as int, source_channels as int);
            lemma_mul_inequality(max_frame as int, frames as int, source_channels as int);
            assert(frames as int * source_channels as int <= sample_count) by (nonlinear_arith)
                requires
                    sample_count as int == source_channels as int * (frames as int) + sample_count as int % source_channels as int,
                    sample_count as int % source_channels as int >= 0;
        }
        RenderPlan {
            sample_count,
            source_channels,
            source_rate,
            output_rate,
            output_channels,
            start_frame: start,
            max_frame,
        }
    }

    /// The read of output channel `ch` in an output frame that reads `step`:
    /// silence past the end and on every channel the source does not have,
    /// else a blend of that channel in two consecutive source frames.
    pub fn channel_read(&self, step: FrameStep, ch: usize) -> (r: ChannelRead)
        requires
            self.wf(),
            self.step_ok(step),
        ensures
            r == channel_read_of(*self, step, ch as int),
            r matches ChannelRead::Blend { first, second, .. } ==> {
                &&& self.start_frame * self.source_channels <= first
                &&& first < second
                &&& second < self.max_frame * self.source_channels
                &&& second < self.sample_count
            },
    {
        match step {
            FrameStep::Silent => ChannelRead::Silence,
            FrameStep::Audible { frame, weight_num, weight_den } => {
                if ch >= self.source_channels {
                    ChannelRead::Silence
                } else {
                    proof {
                        lemma_reads_in_range(*self, frame as int, ch as int);
                    }
                    ChannelRead::Blend {
                        first: frame * self.source_channels + ch,
                        second: (frame + 1) * self.source_channels + ch,
                        weight_num,
                        weight_den,
                    }
                }
            },
        }
    }
}

proof fn lemma_reads_in_range(plan: RenderPlan, frame: int, ch: int)
    requires
        plan.wf(),
        plan.start_frame <= frame,
        frame + 1 < plan.max_frame,
        0 <= ch < plan.source_channels,
    ensures
        plan.start_frame * plan.source_channels <= frame * plan.source_channels + ch,
        frame * plan.source_channels + ch < (frame + 1) * plan.source_channels + ch,
        (frame + 1) * plan.source_channels + ch < plan.max_frame * plan.source_channels,
{
    let c = plan.source_channels as int;
    lemma_mul_inequality(plan.start_frame as int, frame, c);
    lemma_mul_inequality(frame + 2, plan.max_frame as int, c);
    assert((frame + 1) * c + c == (frame + 2) * c) by (nonlinear_arith);
    assert((frame + 1) * c == frame * c + c) by (nonlinear_arith);
}

/// When the source and output rates are equal, the cursor lands on whole
/// source frames: the `k`-th audible output frame reads source frame
/// `start_frame + k` with zero weight on the next one, so the output is the
/// source itself.
pub proof fn lemma_equal_rates_read_whole_frames(plan: RenderPlan, k: nat)
    requires
        plan.wf(),
        plan.source_rate == plan.output_rate,
    ensures
        step_at(plan, position_after(plan, k)) == if plan.start_frame + k + 1 < plan.max_frame {
            FrameStep::Audible { frame: (plan.start_frame + k) as usize, weight_num: 0, weight_den: plan.output_rate }
        } else {
            FrameStep::Silent
        },
{
    let o = plan.output_rate as int;
    let f = plan.start_frame + k;
    assert(position_after(plan, k) == f * o) by (nonlinear_arith)
        requires position_after(plan, k) == plan.start_frame * o + k * o, f == plan.start_frame + k;
    lemma_div_multiples_vanish(f, o);
    lemma_mod_multiples_basic(f, o);
    assert(o * f == f * o) by (nonlinear_arith);
}

/// An output channel that the source does not have is silent in every
/// output frame.
pub proof fn lemma_extra_channels_silent(plan: RenderPlan, pos: int, ch: int)
    requires
        plan.wf(),
        ch >= plan.source_channels,
    ensures
        channel_read_of(plan, step_at(plan, pos), ch) == ChannelRead::Silence,
{
}

/// From any position the cursor reaches, only samples of the trim window
/// `[start_frame, max_frame)` are read, and `max_frame` never passes the
/// end of the buffer.
pub proof fn lemma_reads_within_window(plan: RenderPlan, k: nat, ch: int)
    requires
        plan.wf(),
        0 <= ch,
    ensures
        channel_read_of(plan, step_at(plan, position_after(plan, k)), ch) matches ChannelRead::Blend { first, second, .. } ==> {
            &&& plan.start_frame * plan.source_channels <= first
            &&& second < plan.max_frame * plan.source_channels
            &&& second < plan.sample_count
        },
{
    let o = plan.output_rate as int;
    let p = position_after(plan, k);
    assert(plan.start_frame * o <= p) by (nonlinear_arith)
        requires p == plan.start_frame * o + k * plan.source_rate, k >= 0, plan.source_rate >= 0;
    lemma_fundamental_div_mod(p, o);
    lemma_mod_pos_bound(p, o);
    let frame = p / o;
    assert(p < (frame + 1) * o) by (nonlinear_arith)
        requires p == o * frame + p % o, p % o < o;
    if plan.start_frame > frame {
        lemma_mul_inequality(frame + 1, plan.start_frame as int, o);
    }
    if audible_at(plan, p) && ch < plan.source_channels {
        lemma_reads_in_range(plan, frame, ch);
    }
}

/// The rendered duration: the `k`-th output frame after the start is audible
/// exactly when its cursor position lies before the last frame of the
/// window, so the audible frames are a prefix of the output whose length is
/// the window's length scaled by the rate ratio.
pub proof fn lemma_audible_frames(plan: RenderPlan, k: nat)
    requires
        plan.wf(),
    ensures
        audible_at(plan, position_after(plan, k)) <==>
            position_after(plan, k) < (plan.max_frame - 1) * plan.output_rate,
        forall|j: nat| j <= k && audible_at(plan, position_after(plan, k)) ==> audible_at(plan, position_after(plan, j)),
{
    let o = plan.output_rate as int;
    let m = plan.max_frame - 1;
    assert forall|j: nat| j <= k implies
        (audible_at(plan, position_after(plan, j)) <==> position_after(plan, j) < m * o) by {
        let p = position_after(plan, j);
        assert(0 <= p) by (nonlinear_arith)
            requires p == plan.start_frame * o + j * plan.source_rate, j >= 0, plan.source_rate >= 0, plan.start_frame >= 0, o > 0;
        lemma_fundamental_div_mod(p, o);
        lemma_mod_pos_bound(p, o);
        let f = p / o;
        if f < m {
            lemma_mul_inequality(f + 1, m, o);
            assert(p < (f + 1) * o) by (nonlinear_arith)
                requires p == o * f + p % o, p % o < o;
        } else {
            lemma_mul_inequality(m, f, o);
            assert(f * o <= p) by (nonlinear_arith)
                requires p == o * f + p % o, p % o >= 0;
        }
    }
    assert forall|j: nat| j <= k && audible_at(plan, position_after(plan, k)) implies
        audible_at(plan, position_after(plan, j)) by {
        assert(position_after(plan, j) <= position_after(plan, k)) by (nonlinear_arith)
            requires j <= k, plan.source_rate >= 0,
                position_after(plan, j) == plan.start_frame * o + j * plan.source_rate,
                position_after(plan, k) == plan.start_frame * o + k * plan.source_rate;
    }
}

/// The cursor of one output stream: exclusively owned by the stream that
/// renders with it.
#[derive(Clone, Copy, Debug, PartialEq, Eq, Structural)]
pub struct Renderer {
    pub plan: RenderPlan,
    /// In steps of `1 / plan.output_rate` source frames.
    pub position: u128,
}

impl Renderer {
    pub open spec fn wf(&self) -> bool {
        &&& self.plan.wf()
        &&& self.plan.start_frame * self.plan.output_rate <= self.position
        &&& self.position < POSITION_LIMIT
    }

    /// A cursor at the start of the plan's playable range.
    pub fn new(plan: RenderPlan) -> (r: Renderer)
        requires
            plan.wf(),
        ensures
            r.wf(),
            r.plan == plan,
            r.position == position_after(plan, 0),
    {
        proof {
            lemma_mul_upper_bound(plan.start_frame as int, 0x1_0000_0000_0000_0000, plan.output_rate as int, 0x1_0000_0000);
        }
        Renderer { plan, position: plan.start_frame as u128 * plan.output_rate as u128 }
    }

    /// The read of the next output frame. The cursor advances by the rate
    /// ratio after an audible frame, and stays at the end once there.
    pub fn next_frame(&mut self) -> (r: FrameStep)
        requires
            old(self).wf(),
        ensures
            final(self).wf(),
            final(self).plan == old(self).plan,
            r == step_at(old(self).plan, old(self).position as int),
            old(self).plan.step_ok(r),
            final(self).position == if audible_at(old(self).plan, old(self).position as int) {
                old(self).position + old(self).plan.source_rate
            } else {
                old(self).position as int
            },
    {
        let out = self.plan.output_rate as u128;
        let frame = self.position / out;
        if frame + 1 >= self.plan.max_frame as u128 {
            return FrameStep::Silent;
        }
        let rem = self.position % out;
        proof {
            let p = self.position as int;
            let o = out as int;
            lemma_fundamental_div_mod(p, o);
            lemma_mod_pos_bound(p, o);
            lemma_div_pos_is_pos(p, o);
            lemma_mul_inequality(frame as int + 1, self.plan.max_frame as int, o);
            lemma_mul_upper_bound(self.plan.max_frame as int, 0x1_0000_0000_0000_0000, o, 0x1_0000_0000);
            assert(p < (frame as int + 1) * o) by (nonlinear_arith)
                requires p == o * (frame as int) + rem as int, (rem as int) < o;
            if self.plan.start_frame as int > frame as int {
                lemma_mul_inequality(frame as int + 1, self.plan.start_frame as int, o);
            }
            assert(self.plan.start_frame <= frame);
        }
        self.position = self.position + self.plan.source_rate as u128;
        FrameStep::Audible { frame: frame as usize, weight_num: rem as u32, weight_den: self.plan.output_rate }
    }
}

} // verus!
