use muxing::codec::{PixelFormat, SampleFormat, SampleLayout};
use muxing::picture::{fill_yuv_image, Picture, Plane};
use muxing::stream::{
    frame_due, AudioStream, OutputStream, PictureDef, Progress, ScalingFilter, VideoStream,
};
use muxing::time::{compare_ts, sample_time, Rational, Timestamp};
use muxing::tone::{interleave, sine_byte};

fn ts(pts: i64, num: i32, den: i32) -> Timestamp {
    Timestamp { pts, time_base: Rational { num, den } }
}

fn plane(linesize: usize, rows: usize) -> Plane {
    Plane { data: vec![7; linesize * rows], linesize }
}

fn picture(linesize: usize, rows: usize) -> Picture {
    Picture {
        y: plane(linesize, rows),
        cb: plane(linesize / 2, rows / 2),
        cr: plane(linesize / 2, rows / 2),
    }
}

#[test]
fn timestamps_in_one_base_compare_by_count() {
    assert_eq!(compare_ts(ts(1, 1, 25), ts(2, 1, 25)), -1);
    assert_eq!(compare_ts(ts(2, 1, 25), ts(2, 1, 25)), 0);
    assert_eq!(compare_ts(ts(3, 1, 25), ts(2, 1, 25)), 1);
}

#[test]
fn timestamps_in_two_bases_compare_by_time() {
    assert_eq!(compare_ts(ts(25, 1, 25), ts(44100, 1, 44100)), 0);
    assert_eq!(compare_ts(ts(25, 1, 25), ts(44099, 1, 44100)), 1);
    assert_eq!(compare_ts(ts(25, 1, 25), ts(44101, 1, 44100)), -1);
    assert_eq!(compare_ts(ts(-1, 1, 25), ts(0, 1, 44100)), -1);
}

#[test]
fn comparison_does_not_overflow() {
    let far = ts(i64::MAX, i32::MAX, 1);
    let near = ts(i64::MIN, 1, i32::MAX);
    assert_eq!(compare_ts(far, near), 1);
    assert_eq!(compare_ts(near, far), -1);
    assert_eq!(compare_ts(far, far), 0);
}

#[test]
fn comparison_is_transitive_over_bases() {
    let (a, b, c) = (ts(1, 1, 30), ts(1, 1, 29), ts(3, 2, 57));
    assert_eq!(compare_ts(a, b), -1);
    assert_eq!(compare_ts(b, c), -1);
    assert_eq!(compare_ts(a, c), -1);
}

#[test]
fn samples_are_played_at_the_nearest_unit() {
    let per_sample = Rational { num: 1, den: 44100 };
    assert_eq!(sample_time(1024, 44100, per_sample), 1024);
    assert_eq!(sample_time(-1024, 44100, per_sample), -1024);
    let milliseconds = Rational { num: 1, den: 1000 };
    assert_eq!(sample_time(1024, 44100, milliseconds), 23);
    let halves = Rational { num: 2, den: 1 };
    assert_eq!(sample_time(1, 1, halves), 1);
    assert_eq!(sample_time(-1, 1, halves), -1);
    assert_eq!(sample_time(3, 1, halves), 2);
}

#[test]
fn image_holds_the_pattern() {
    let mut pict = picture(8, 4);
    fill_yuv_image(&mut pict, 1, 6, 4);
    assert_eq!(&pict.y.data[0..8], &[3, 4, 5, 6, 7, 8, 7, 7]);
    assert_eq!(&pict.y.data[24..32], &[6, 7, 8, 9, 10, 11, 7, 7]);
    assert_eq!(&pict.cb.data[0..4], &[130, 130, 130, 7]);
    assert_eq!(&pict.cb.data[4..8], &[131, 131, 131, 7]);
    assert_eq!(&pict.cr.data[0..4], &[69, 70, 71, 7]);
    assert_eq!(&pict.cr.data[4..8], &[69, 70, 71, 7]);
    assert_eq!((pict.y.linesize, pict.cb.linesize, pict.cr.linesize), (8, 4, 4));
}

#[test]
fn image_bytes_wrap() {
    let mut pict = picture(2, 2);
    fill_yuv_image(&mut pict, 100, 2, 2);
    assert_eq!(pict.y.data, vec![44, 45, 45, 46]);
    assert_eq!(pict.cb.data, vec![72]);
    assert_eq!(pict.cr.data, vec![52]);
    fill_yuv_image(&mut pict, -1, 2, 2);
    assert_eq!(pict.y.data, vec![253, 254, 254, 255]);
    assert_eq!(pict.cb.data, vec![126]);
    assert_eq!(pict.cr.data, vec![59]);
    fill_yuv_image(&mut pict, i64::MAX, 2, 2);
    assert_eq!(pict.y.data[0], 253);
}

#[test]
fn image_of_odd_size_halves_downwards() {
    let mut pict = picture(4, 4);
    fill_yuv_image(&mut pict, 0, 3, 3);
    assert_eq!(pict.y.data, vec![0, 1, 2, 7, 1, 2, 3, 7, 2, 3, 4, 7, 7, 7, 7, 7]);
    assert_eq!(pict.cb.data, vec![128, 7, 7, 7]);
    assert_eq!(pict.cr.data, vec![64, 7, 7, 7]);
}

#[test]
fn overlapping_rows_keep_what_was_drawn_last() {
    let mut pict = picture(4, 4);
    pict.y.linesize = 1;
    fill_yuv_image(&mut pict, 0, 3, 2);
    assert_eq!(&pict.y.data[0..5], &[0, 1, 2, 3, 7]);
}

#[test]
fn image_without_pixels_changes_nothing() {
    let mut pict = picture(4, 4);
    fill_yuv_image(&mut pict, 5, 0, 1000);
    fill_yuv_image(&mut pict, 5, 1000, 0);
    assert_eq!(pict.y.data, vec![7; 16]);
    assert_eq!(pict.cr.data, vec![7; 4]);
}

#[test]
fn earlier_images_do_not_show_through() {
    let mut twice = picture(8, 6);
    fill_yuv_image(&mut twice, 3, 7, 6);
    fill_yuv_image(&mut twice, 9, 7, 6);
    let mut once = picture(8, 6);
    fill_yuv_image(&mut once, 9, 7, 6);
    assert_eq!(twice.y.data, once.y.data);
    assert_eq!(twice.cb.data, once.cb.data);
    assert_eq!(twice.cr.data, once.cr.data);
}

#[test]
fn images_repeat_and_move() {
    let mut now = picture(16, 8);
    let mut later = picture(16, 8);
    fill_yuv_image(&mut now, 4, 16, 8);
    fill_yuv_image(&mut later, 260, 16, 8);
    assert_eq!(now.y.data, later.y.data);
    assert_eq!(now.cb.data, later.cb.data);
    assert_eq!(now.cr.data, later.cr.data);
    fill_yuv_image(&mut later, 5, 16, 8);
    assert_eq!(later.y.data[0], now.y.data[3]);
    assert_eq!(later.y.data[0], now.y.data[3 * 16]);
}

#[test]
fn samples_repeat_for_each_channel() {
    let mut data = vec![9; 7];
    interleave(&mut data, &vec![1, 2, 3], 2);
    assert_eq!(data, vec![1, 1, 2, 2, 3, 3, 9]);
    interleave(&mut data, &vec![5, 6], 0);
    interleave(&mut data, &vec![5, 6], -4);
    assert_eq!(data, vec![1, 1, 2, 2, 3, 3, 9]);
}

#[test]
fn sines_become_bytes() {
    assert_eq!(sine_byte(0), 0);
    assert_eq!(sine_byte(1), 16);
    assert_eq!(sine_byte(-1), 240);
    assert_eq!(sine_byte(214748), (2147480000i64 % 256) as u8);
}

#[test]
fn streams_last_ten_seconds() {
    let tb = Rational { num: 1, den: 25 };
    assert!(frame_due(0, tb));
    assert!(frame_due(250, tb));
    assert!(!frame_due(251, tb));
    let tb = Rational { num: 3, den: 1 };
    assert!(frame_due(3, tb));
    assert!(!frame_due(4, tb));
}

#[test]
fn video_stream_gives_out_its_frames() {
    let tb = Rational { num: 1, den: 25 };
    let mut stream = OutputStream::new(VideoStream::open(tb, 4, 2, picture(4, 2)), true, 0);
    assert_eq!(stream.next_pts, 0);
    assert_eq!(stream.encoder.frame_pts, None);
    let mut frames = 0;
    while let Some(pts) = stream.get_frame() {
        let index = frames;
        frames += 1;
        assert_eq!(pts, frames);
        assert_eq!(stream.encoder.frame_pts, Some(pts));
        assert_eq!(stream.encoder.tmp_frame.y.data[0], (index * 3) as u8);
    }
    assert_eq!(frames, 251);
    assert_eq!(stream.next_pts, 251);
    assert_eq!(stream.get_frame(), None);
    assert_eq!(stream.next_pts, 251);
}

#[test]
fn audio_stream_gives_out_its_frames() {
    let tb = Rational { num: 1, den: 1 };
    let mut stream = OutputStream::new(AudioStream::open(tb, 2, 2, vec![0; 5]), false, 0);
    assert_eq!(stream.get_frame(&vec![10, 20]), Some(1));
    assert_eq!(stream.encoder.tmp_data, vec![10, 10, 20, 20, 0]);
    assert_eq!(stream.encoder.frame_pts, Some(1));
    assert_eq!(stream.encoder.samples_count, 0);
    for pts in 2..12 {
        assert_eq!(stream.get_frame(&vec![1, 2]), Some(pts));
    }
    assert_eq!(stream.get_frame(&vec![]), None);
    assert_eq!(stream.encoder.tmp_data, vec![1, 1, 2, 2, 0]);
}

#[test]
fn video_buffers_follow_the_encoder() {
    let plan = VideoStream::plan(PixelFormat::Other(4), 352, 288);
    let frame = PictureDef { format: PixelFormat::Other(4), width: 352, height: 288 };
    let tmp = PictureDef { format: PixelFormat::Yuv420p, width: 352, height: 288 };
    assert_eq!(plan.frame, frame);
    assert_eq!(plan.tmp_frame, tmp);
    assert_eq!(plan.scaling.input, tmp);
    assert_eq!(plan.scaling.output, frame);
    assert_eq!(plan.scaling.filter, ScalingFilter::Bicubic);
}

#[test]
fn audio_buffers_follow_the_encoder() {
    let planar = SampleFormat::F32(SampleLayout::Planar);
    let packed = SampleFormat::I16(SampleLayout::Packed);
    let plan = AudioStream::plan(false, 1024, planar, 3, 44100);
    assert_eq!(plan.frame.samples, 1024);
    assert_eq!(plan.frame.format, planar);
    assert_eq!(plan.tmp_frame.samples, 1024);
    assert_eq!(plan.tmp_frame.format, packed);
    assert_eq!(plan.resampling.input.format, packed);
    assert_eq!(plan.resampling.output.format, planar);
    assert_eq!(plan.resampling.output.rate, 44100);
    assert_eq!(plan.resampling.input.channel_layout, 3);
    let open = AudioStream::plan(true, 1024, planar, 3, 44100);
    assert_eq!(open.frame.samples, 10_000);
    assert_eq!(open.tmp_frame.samples, 10_000);
}

#[test]
fn progress_is_logged_when_due() {
    let mut stream = OutputStream::new((), true, 100);
    assert_eq!((stream.starting_time, stream.last_log_time), (100, 100));
    stream.frame_count = 9;
    assert_eq!(stream.log_progress(1_000_000_099), None);
    assert_eq!((stream.last_log_frame_count, stream.last_log_time), (0, 100));
    let line = stream.log_progress(1_000_000_100);
    assert_eq!(line, Some(Progress { elapsed: 1_000_000_000, frame_count: 9 }));
    assert_eq!((stream.last_log_frame_count, stream.last_log_time), (9, 1_000_000_100));
    stream.frame_count = 19;
    let line = stream.log_progress(1_000_000_105);
    assert_eq!(line, Some(Progress { elapsed: 1_000_000_005, frame_count: 19 }));
    assert_eq!(stream.starting_time, 100);
    assert_eq!(stream.log_progress(2_000_000_104), None);
    stream.logging_enabled = false;
    stream.frame_count = 100;
    assert_eq!(stream.log_progress(9_000_000_000), None);
    assert_eq!((stream.last_log_frame_count, stream.last_log_time), (19, 1_000_000_105));
}

#[test]
fn a_clock_that_steps_back_counts_as_no_time() {
    let mut stream = OutputStream::new((), true, 5_000_000_000);
    assert_eq!(stream.log_progress(1), None);
    stream.frame_count = 10;
    let line = stream.log_progress(1);
    assert_eq!(line, Some(Progress { elapsed: 0, frame_count: 10 }));
    assert_eq!(stream.last_log_time, 1);
}

#[test]
fn pictures_know_what_they_have_room_for() {
    let pict = picture(4, 4);
    assert!(pict.has_room(4, 4));
    assert!(pict.has_room(2, 4));
    assert!(!pict.has_room(5, 4));
    assert!(!pict.has_room(4, 5));
    assert!(!pict.has_room(17, 1));
    assert!(pict.has_room(0, usize::MAX));
    assert!(!pict.has_room(2, usize::MAX));
}

#[test]
fn comparison_turned_round_is_negated() {
    for a in [ts(3, 1, 25), ts(-7, 2, 3), ts(0, 1, 1)] {
        for b in [ts(5, 1, 44100), ts(1, 1, 30)] {
            assert_eq!(compare_ts(a, b), -compare_ts(b, a));
        }
    }
}
