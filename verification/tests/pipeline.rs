use senmei::blur::box_blur;
use senmei::pipeline::{batch_ready, control, deinterleave, interleave, Control};
use senmei::Tensor;
use senmei::pipeline::{
    batchable, effective_scale, is_cancelled, normalize_pipeline_depth, output_frame_count, run_outcome,
    upscale_target, DedupState, Filter, Frame, InflightQueue, InterpolationSchedule, Progress, Release,
    StepTiming, CANCELLED, ENCODE_CHANNEL_CLOSED,
};

#[test]
fn tests_denoise_smooths_noise() {
    let mut data = vec![100u8; 3 * 8 * 8];
    data[0] = 255;
    let out = box_blur(&data, 8, 8, 1);
    assert!(out[0] < 255 && out[0] > 100);
    assert_eq!(out.len(), data.len());
}

#[test]
fn tests_denoise_keeps_channels_separate() {
    let mut data = vec![0u8; 3 * 8 * 8];
    for px in data.chunks_exact_mut(3) {
        px[0] = 255;
    }
    let out = box_blur(&data, 8, 8, 1);
    assert_eq!(out[1], 0, "G contaminated");
    assert_eq!(out[2], 0, "B contaminated");
}

#[test]
fn box_blur_exact_means() {
    // 3×1 frame, channel 0 = 0, 30, 90; radius 1: means over clipped windows.
    let data = vec![0, 1, 2, 30, 1, 2, 90, 1, 2];
    let out = box_blur(&data, 3, 1, 1);
    assert_eq!(out, vec![15, 1, 2, 40, 1, 2, 60, 1, 2]);
    // Radius 0 is the identity; a wide radius averages everything.
    assert_eq!(box_blur(&data, 3, 1, 0), data);
    assert_eq!(box_blur(&data, 3, 1, 100)[0], 40);
}

#[test]
fn upscale_process_batch_defers_then_flushes() {
    let mut q: InflightQueue<u8> = InflightQueue::new(normalize_pipeline_depth(1));
    // First batch: resolves synchronously (fixes the encoder dims).
    assert!(matches!(q.submit(1), Release::Now(1)));
    // Second batch: deferred — held in-flight, nothing ready yet.
    assert!(matches!(q.submit(2), Release::Held));
    // Third batch resolves the second; flush resolves the third.
    assert!(matches!(q.submit(3), Release::Oldest(2)));
    assert_eq!(q.flush(), vec![3]);
    assert_eq!(q.len(), 0);
}

#[test]
fn inflight_queue_keeps_order_at_default_depth() {
    let mut q: InflightQueue<u32> = InflightQueue::new(normalize_pipeline_depth(0));
    let mut out = Vec::new();
    for h in 0..10u32 {
        match q.submit(h) {
            Release::Now(x) | Release::Oldest(x) => out.push(x),
            Release::Held => {}
        }
        assert!(q.len() <= 2);
    }
    out.extend(q.flush());
    assert_eq!(out, (0..10).collect::<Vec<_>>());
}

#[test]
fn pipeline_depth_normalization() {
    assert_eq!(normalize_pipeline_depth(0), 2);
    assert_eq!(normalize_pipeline_depth(1), 1);
    assert_eq!(normalize_pipeline_depth(5), 5);
}

#[test]
fn output_frame_count_formula() {
    assert_eq!(output_frame_count(10, 1), 10);
    assert_eq!(output_frame_count(10, 2), 19);
    assert_eq!(output_frame_count(0, 3), 1);
    assert_eq!(output_frame_count(1, 3), 1);
}

#[test]
fn interpolation_emits_factor_frames_after_first() {
    let mut s = InterpolationSchedule::new(1);
    assert_eq!(s.factor(), 2);
    let mut s3 = InterpolationSchedule::new(3);
    let mut total = 0u64;
    for _ in 0..10 {
        total += s3.push() as u64 + 1;
    }
    assert_eq!(total, output_frame_count(10, 3));
    assert_eq!(s.push(), 0);
    assert_eq!(s.push(), 1);
}

#[test]
fn tests_dedup_never_collapses_static_run() {
    let mut d = DedupState::new();
    let mut kept = 0;
    for i in 0..40 {
        // The first frame has nothing before it; the rest duplicate it.
        if d.keep(i > 0) {
            kept += 1;
        }
    }
    assert_eq!(kept, 7);
}

#[test]
fn dedup_keeps_distinct_frames() {
    let mut d = DedupState::new();
    assert!(d.keep(false));
    assert!(!d.keep(true));
    assert!(d.keep(false));
    assert!(!d.keep(true));
}

#[test]
fn run_outcome_precedence() {
    let ok: Result<(), String> = Ok(());
    assert_eq!(run_outcome(None, ok.clone(), ok.clone()), Ok(()));
    assert_eq!(
        run_outcome(Some(CANCELLED.to_string()), Err("enc".into()), Err("dec".into())),
        Err("cancelled".to_string())
    );
    assert_eq!(
        run_outcome(Some(ENCODE_CHANNEL_CLOSED.to_string()), Err("ffmpeg died".into()), ok.clone()),
        Err("ffmpeg died".to_string())
    );
    assert_eq!(run_outcome(Some(ENCODE_CHANNEL_CLOSED.to_string()), ok.clone(), ok.clone()), Ok(()));
    assert_eq!(run_outcome(None, ok.clone(), Err("dec".into())), Err("dec".to_string()));
    assert!(is_cancelled("cancelled"));
    assert!(!is_cancelled("canceled"));
}

#[test]
fn filter_args_and_size_guard() {
    let f = Filter::new("negate", "ffmpeg");
    let args = f.args(64, 48);
    assert_eq!(args.len(), 18);
    assert_eq!(args[8], "64x48");
    assert_eq!(args[12], "negate");
    assert_eq!(args[0], "-hide_banner");
    assert_eq!(args[17], "-");
    assert!(Filter::check_output(12, 12).is_ok());
    let err = Filter::check_output(12, 48).unwrap_err();
    assert_eq!(
        err,
        "filter changed frame size (12 -> 48 bytes); only frame-preserving filters are supported"
    );
    assert!(err.contains("frame-preserving"));
    assert_eq!(Filter::failure_message("boom"), "ffmpeg filter failed: boom");
}

#[test]
fn upscale_scale_and_batching() {
    assert_eq!(effective_scale(0), 1);
    assert_eq!(effective_scale(4), 4);
    assert_eq!(upscale_target(120, 160, 2), (240, 320));
    assert!(batchable(&vec![(2, 2), (2, 2)]));
    assert!(!batchable(&vec![(2, 2)]));
    assert!(!batchable(&vec![(2, 2), (2, 3)]));
}

#[test]
fn timing_and_progress_records() {
    let mut t = StepTiming::new("upscale");
    t.record(3, 1_000);
    t.record(2, 500);
    assert_eq!((t.name.as_str(), t.frames, t.total_nanos), ("upscale", 5, 1_500));
    let p = Progress { frames_processed: 1, total_frames: 19 };
    assert_eq!(p.total_frames - p.frames_processed, 18);
    let f = Frame { width: 2, height: 1, data: vec![0; 6] };
    assert_eq!(f.data.len(), 3 * (f.width * f.height) as usize);
}

const PIXELS: [u8; 12] = [
    255, 0, 0, // red
    0, 255, 0, // green
    0, 0, 255, // blue
    255, 255, 255, // white
];

#[test]
fn roundtrip_preserves_pixels() {
    let frame = Frame { width: 2, height: 2, data: PIXELS.to_vec() };
    let hw = (frame.width * frame.height) as usize;
    let planes = deinterleave(&frame.data, hw);
    let t = Tensor::new(vec![1, 3, frame.height as usize, frame.width as usize], planes);
    assert_eq!(t.shape, vec![1, 3, 2, 2]);
    assert_eq!(t.data, vec![255, 0, 0, 255, 0, 255, 0, 255, 0, 0, 255, 255]);
    assert_eq!(interleave(&t.data, hw), PIXELS.to_vec());
}

#[test]
fn first_frame_emits_single() {
    let mut s = InterpolationSchedule::new(2);
    // No intermediates before the first frame: it alone is emitted.
    assert_eq!(s.push() as usize + 1, 1);
}

#[test]
fn render_control_prefers_cancel() {
    assert_eq!(control(true, true), Control::Cancel);
    assert_eq!(control(false, true), Control::Wait);
    assert_eq!(control(false, false), Control::Proceed);
    assert!(!batch_ready(0));
    assert!(batch_ready(1));
}
