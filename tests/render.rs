use sonicdeck::render::{ChannelRead, FrameStep, RenderPlan, Renderer, I16_SILENCE, U16_SILENCE};

#[test]
fn silence_levels() {
    assert_eq!(U16_SILENCE, 32768);
    assert_eq!(I16_SILENCE, 0);
}

#[test]
fn plan_bounds_end_by_buffer() {
    let p = RenderPlan::new(20, 2, 48000, 48000, 2, None, Some(100));
    assert_eq!(p.max_frame, 10);
    assert_eq!(p.start_frame, 0);
    let p = RenderPlan::new(20, 2, 48000, 48000, 2, Some(3), Some(6));
    assert_eq!(p.max_frame, 6);
    assert_eq!(p.start_frame, 3);
}

#[test]
fn equal_rates_read_whole_frames() {
    let plan = RenderPlan::new(8, 2, 48000, 48000, 2, None, None);
    let mut r = Renderer::new(plan);
    for k in 0..3usize {
        assert_eq!(r.next_frame(), FrameStep::Audible { frame: k, weight_num: 0, weight_den: 48000 });
    }
    assert_eq!(r.next_frame(), FrameStep::Silent);
    assert_eq!(r.next_frame(), FrameStep::Silent);
}

#[test]
fn upsampling_blends_halfway() {
    let plan = RenderPlan::new(8, 1, 24000, 48000, 1, None, None);
    let mut r = Renderer::new(plan);
    let steps: Vec<FrameStep> = (0..8).map(|_| r.next_frame()).collect();
    assert_eq!(steps[0], FrameStep::Audible { frame: 0, weight_num: 0, weight_den: 48000 });
    assert_eq!(steps[1], FrameStep::Audible { frame: 0, weight_num: 24000, weight_den: 48000 });
    assert_eq!(steps[2], FrameStep::Audible { frame: 1, weight_num: 0, weight_den: 48000 });
    assert_eq!(steps[7], FrameStep::Audible { frame: 3, weight_num: 24000, weight_den: 48000 });
    for _ in 8..12 {
        assert!(r.next_frame() != FrameStep::Silent);
    }
    assert_eq!(r.next_frame(), FrameStep::Audible { frame: 6, weight_num: 0, weight_den: 48000 });
    assert_eq!(r.next_frame(), FrameStep::Audible { frame: 6, weight_num: 24000, weight_den: 48000 });
    assert_eq!(r.next_frame(), FrameStep::Silent);
}

#[test]
fn extra_output_channels_are_silent() {
    let plan = RenderPlan::new(8, 2, 44100, 48000, 6, None, None);
    let mut r = Renderer::new(plan);
    for _ in 0..4 {
        let step = r.next_frame();
        for ch in 2..6 {
            assert_eq!(plan.channel_read(step, ch), ChannelRead::Silence);
        }
    }
}

#[test]
fn channel_reads_interleave() {
    let plan = RenderPlan::new(8, 2, 48000, 48000, 2, None, None);
    let step = FrameStep::Audible { frame: 1, weight_num: 0, weight_den: 48000 };
    assert_eq!(plan.channel_read(step, 0), ChannelRead::Blend { first: 2, second: 4, weight_num: 0, weight_den: 48000 });
    assert_eq!(plan.channel_read(step, 1), ChannelRead::Blend { first: 3, second: 5, weight_num: 0, weight_den: 48000 });
    assert_eq!(plan.channel_read(FrameStep::Silent, 0), ChannelRead::Silence);
}

#[test]
fn trim_window_bounds_every_read() {
    let plan = RenderPlan::new(40, 2, 48000, 48000, 2, Some(5), Some(9));
    let mut r = Renderer::new(plan);
    let mut audible = 0;
    for _ in 0..20 {
        let step = r.next_frame();
        if step != FrameStep::Silent {
            audible += 1;
        }
        for ch in 0..2 {
            if let ChannelRead::Blend { first, second, .. } = plan.channel_read(step, ch) {
                assert!(first >= 10);
                assert!(second < 18);
            }
        }
    }
    assert_eq!(audible, 3);
}

#[test]
fn two_cursors_over_one_plan_are_independent() {
    let plan = RenderPlan::new(100, 1, 48000, 48000, 1, None, None);
    let mut a = Renderer::new(plan);
    let mut b = Renderer::new(plan);
    for _ in 0..10 {
        a.next_frame();
    }
    assert_eq!(b.next_frame(), FrameStep::Audible { frame: 0, weight_num: 0, weight_den: 48000 });
    assert_eq!(a.next_frame(), FrameStep::Audible { frame: 10, weight_num: 0, weight_den: 48000 });
}

#[test]
fn empty_buffer_is_silent() {
    let plan = RenderPlan::new(0, 2, 48000, 48000, 2, None, None);
    let mut r = Renderer::new(plan);
    assert_eq!(r.next_frame(), FrameStep::Silent);
}
