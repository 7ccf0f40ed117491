use muxing::codec::{
    choose_channel_layout, choose_rate, prepare_audio_encoder, prepare_video_encoder, CodecId,
    Decision, PixelFormat, SampleFormat, SampleLayout, VideoParams, STEREO,
};
use muxing::mux::{Muxer, Turn};
use muxing::picture::{Picture, Plane};
use muxing::raw::{
    add_stream, open_audio, open_video, opens_file, AudioOutput, Conversion, MediaType,
    PictureDef, StreamSettings, VideoOutput,
};
use muxing::time::{compare_ts, Rational, Timestamp};
use muxing::writer::{
    avcheck, begin_write, begin_write_or_flush, goes_on, goes_on_until_flushed, write_frame, DrainCodes, OnReceiveError,
    Outcome, Request,
};

const CODES: DrainCodes = DrainCodes { again: -11, eof: -541478725 };

fn step(request: Request, answer: Result<(), i32>) -> Request {
    write_frame(request, answer, &CODES, OnReceiveError::Return)
}

fn ts(pts: i64, den: i32) -> Timestamp {
    Timestamp { pts, time_base: Rational { num: 1, den } }
}

fn canvas() -> Picture {
    Picture {
        y: Plane { data: vec![0; 8], linesize: 4 },
        cb: Plane { data: vec![0; 2], linesize: 2 },
        cr: Plane { data: vec![0; 2], linesize: 2 },
    }
}

#[test]
fn video_encoder_is_configured() {
    let params = VideoParams { fps: 30, width: 640, height: 480, bit_rate: 1000 };
    let settings = prepare_video_encoder(CodecId::Other(27), &params);
    assert_eq!(settings.codec_id, CodecId::Other(27));
    assert_eq!(settings.bit_rate, 1000);
    assert_eq!((settings.width, settings.height), (640, 480));
    assert_eq!(settings.time_base, Rational { num: 1, den: 30 });
    assert_eq!(settings.gop, 12);
    assert_eq!(settings.format, PixelFormat::Yuv420p);
    assert_eq!(settings.max_b_frames, None);
    assert_eq!(settings.mb_decision, None);
    assert!(settings.global_header);
}

#[test]
fn mpeg_codecs_have_settings_of_their_own() {
    let params = VideoParams::default();
    let two = prepare_video_encoder(CodecId::Mpeg2Video, &params);
    assert_eq!((two.max_b_frames, two.mb_decision), (Some(2), None));
    let one = prepare_video_encoder(CodecId::Mpeg1Video, &params);
    assert_eq!((one.max_b_frames, one.mb_decision), (None, Some(Decision::RateDistortion)));
    assert_eq!((one.width, one.height, one.bit_rate), (352, 288, 400_000));
}

#[test]
fn preferred_rate_is_chosen_where_it_is_supported() {
    assert_eq!(choose_rate(&vec![48000, 44100, 32000]), 44100);
    assert_eq!(choose_rate(&vec![44100]), 44100);
    assert_eq!(choose_rate(&vec![48000, 32000]), 48000);
    assert_eq!(choose_channel_layout(&vec![4, STEREO]), 3);
    assert_eq!(choose_channel_layout(&vec![4, 63]), 4);
}

#[test]
fn audio_encoder_is_configured() {
    let packed = SampleFormat::I16(SampleLayout::Packed);
    let settings = prepare_audio_encoder(
        &Some(vec![packed, SampleFormat::U8(SampleLayout::Planar)]),
        &Some(vec![48000, 32000]),
        &Some(vec![4]),
    );
    assert_eq!(settings.format, packed);
    assert_eq!(settings.bit_rate, 64000);
    assert_eq!(settings.rate, 48000);
    assert_eq!(settings.channel_layout, 4);
    assert_eq!(settings.time_base, Rational { num: 1, den: 48000 });
    assert!(settings.global_header);
    let open = prepare_audio_encoder(&None, &None, &None);
    assert_eq!(open.format, SampleFormat::F32(SampleLayout::Planar));
    assert_eq!((open.rate, open.channel_layout), (44100, 3));
}

#[test]
fn return_codes_are_checked_by_sign() {
    assert_eq!(avcheck(-5), Err(-5));
    assert_eq!(avcheck(0), Ok(0));
    assert_eq!(avcheck(3), Ok(3));
}

#[test]
fn packets_are_written_until_the_encoder_is_drained() {
    let mut request = begin_write(Some(1));
    let mut written = 0;
    let mut left = 3;
    loop {
        request = match request {
            Request::SendFrame => step(request, Ok(())),
            Request::ReceivePacket if left > 0 => {
                left -= 1;
                step(request, Ok(()))
            }
            Request::ReceivePacket => step(request, Err(CODES.again)),
            Request::WritePacket => {
                written += 1;
                step(request, Ok(()))
            }
            Request::Finish(outcome) => {
                assert_eq!(outcome, Outcome::Drained { eof: false });
                break;
            }
        };
    }
    assert_eq!(written, 3);
}

#[test]
fn flushed_encoder_ends_the_stream() {
    let done = step(Request::ReceivePacket, Err(CODES.eof));
    assert_eq!(done, Request::Finish(Outcome::Drained { eof: true }));
    assert_eq!(step(done, Ok(())), done);
    assert_eq!(step(done, Err(-1)), done);
}

#[test]
fn stream_past_its_end_sends_nothing() {
    assert_eq!(begin_write(None), Request::Finish(Outcome::Drained { eof: false }));
    assert_eq!(begin_write(Some(0)), Request::SendFrame);
}

#[test]
fn failures_end_the_writing() {
    let failed = Request::Finish(Outcome::Failed(-22));
    assert_eq!(step(Request::SendFrame, Err(-22)), failed);
    assert_eq!(step(Request::SendFrame, Err(CODES.again)), Request::Finish(Outcome::Failed(-11)));
    assert_eq!(step(Request::WritePacket, Err(-22)), failed);
    assert_eq!(step(Request::ReceivePacket, Err(-22)), failed);
    assert_eq!(
        write_frame(Request::ReceivePacket, Err(-22), &CODES, OnReceiveError::Abort),
        Request::Finish(Outcome::Unexpected(-22))
    );
    assert_eq!(
        write_frame(Request::ReceivePacket, Err(CODES.again), &CODES, OnReceiveError::Abort),
        Request::Finish(Outcome::Drained { eof: false })
    );
}

#[test]
fn the_stream_that_is_behind_is_next() {
    let muxer = Muxer::new();
    assert_eq!(muxer.next_turn(ts(0, 25), ts(0, 44100)), Some(Turn::Video));
    assert_eq!(muxer.next_turn(ts(1, 25), ts(0, 44100)), Some(Turn::Audio));
    assert_eq!(muxer.next_turn(ts(1, 25), ts(1764, 44100)), Some(Turn::Video));
    assert_eq!(muxer.next_turn(ts(1, 25), ts(1763, 44100)), Some(Turn::Audio));
}

#[test]
fn a_stream_alone_is_written_to_its_end() {
    let mut muxer = Muxer::new();
    muxer.record(Turn::Audio, false);
    assert_eq!(muxer.next_turn(ts(100, 25), ts(0, 44100)), Some(Turn::Video));
    muxer.record(Turn::Video, true);
    assert_eq!(muxer.next_turn(ts(101, 25), ts(0, 44100)), Some(Turn::Video));
    muxer.record(Turn::Video, false);
    assert_eq!(muxer.next_turn(ts(0, 25), ts(0, 44100)), None);
}

#[test]
fn only_streams_with_a_codec_are_written() {
    let both = Muxer::for_codecs(CodecId::Other(27), CodecId::Other(86018));
    assert_eq!(both, Muxer::new());
    let audio = Muxer::for_codecs(CodecId::Absent, CodecId::Other(86018));
    assert_eq!(audio.next_turn(ts(0, 25), ts(5, 44100)), Some(Turn::Audio));
    let none = Muxer::for_codecs(CodecId::Absent, CodecId::Absent);
    assert_eq!(none.next_turn(ts(0, 25), ts(0, 44100)), None);
}

#[test]
fn streams_stay_together() {
    let muxer = Muxer::new();
    let (mut video, mut audio) = (ts(0, 25), ts(0, 44100));
    for _ in 0..2000 {
        match muxer.next_turn(video, audio).unwrap() {
            Turn::Video => video.pts += 1,
            Turn::Audio => audio.pts += 1024,
        }
        let lead = video.pts * 44100 - audio.pts * 25;
        assert!(-(1024 * 25) <= lead && lead <= 44100);
    }
}

#[test]
fn added_video_stream_is_configured() {
    let added = add_stream(MediaType::Video, CodecId::Mpeg2Video, None, 1, 0x40, 0x40);
    assert_eq!(added.id, 0);
    assert!(added.global_header);
    match added.settings {
        StreamSettings::Video(settings) => {
            assert_eq!((settings.width, settings.height), (352, 288));
            assert_eq!(settings.bit_rate, 400_000);
            assert_eq!(settings.time_base, Rational { num: 1, den: 25 });
            assert_eq!(settings.max_b_frames, Some(2));
            assert!(settings.global_header);
        }
        _ => panic!("not a video stream"),
    }
}

#[test]
fn added_audio_stream_is_configured() {
    let packed = SampleFormat::F64(SampleLayout::Packed);
    let added = add_stream(MediaType::Audio, CodecId::Other(1), Some(packed), 2, 0x81, 0x40);
    assert_eq!(added.id, 1);
    assert!(!added.global_header);
    match added.settings {
        StreamSettings::Audio(settings) => {
            assert_eq!(settings.format, packed);
            assert_eq!((settings.rate, settings.channel_layout), (44100, 3));
            assert_eq!(settings.bit_rate, 64000);
            assert!(!settings.global_header);
        }
        _ => panic!("not an audio stream"),
    }
    let open = add_stream(MediaType::Audio, CodecId::Other(1), None, 2, 0, 0x40);
    match open.settings {
        StreamSettings::Audio(settings) => {
            assert_eq!(settings.format, SampleFormat::F32(SampleLayout::Planar));
        }
        _ => panic!("not an audio stream"),
    }
}

#[test]
fn other_streams_are_left_as_they_are() {
    let added = add_stream(MediaType::Other, CodecId::Other(9), None, 3, 0x40, 0x40);
    assert_eq!(added.settings, StreamSettings::Untouched);
    assert_eq!(added.id, 2);
    assert!(added.global_header);
}

#[test]
fn pictures_are_converted_only_where_they_must() {
    let same = open_video(PixelFormat::Yuv420p, 352, 288);
    assert_eq!(same.tmp_frame, None);
    let other = open_video(PixelFormat::Other(2), 352, 288);
    assert_eq!(
        other.frame,
        PictureDef { format: PixelFormat::Other(2), width: 352, height: 288 }
    );
    assert_eq!(
        other.tmp_frame,
        Some(PictureDef { format: PixelFormat::Yuv420p, width: 352, height: 288 })
    );
}

#[test]
fn audio_buffers_are_planned() {
    let planar = SampleFormat::F32(SampleLayout::Planar);
    let plan = open_audio(0x10000, 0x10000, 1024, planar, 3, 44100, 2);
    assert_eq!(plan.frame.nb_samples, 1024);
    assert_eq!(plan.tmp_frame.nb_samples, 1024);
    assert_eq!(plan.frame.format, planar);
    assert_eq!(plan.tmp_frame.format, SampleFormat::I16(SampleLayout::Packed));
    assert_eq!(plan.resampler.in_channel_count, 2);
    assert_eq!(plan.resampler.out_sample_rate, 44100);
    assert_eq!(plan.resampler.in_sample_fmt, SampleFormat::I16(SampleLayout::Packed));
    assert_eq!(plan.resampler.out_sample_fmt, planar);
    assert!(plan.frame.needs_buffer());
    let open = open_audio(1, 1, 1024, planar, 3, 44100, 2);
    assert_eq!(open.frame.nb_samples, 10000);
    let none = open_audio(0, 0x10000, 0, planar, 3, 44100, 2);
    assert!(!none.frame.needs_buffer());
}

#[test]
fn video_output_draws_and_converts() {
    let tb = Rational { num: 1, den: 1 };
    let mut direct = VideoOutput::new(tb, PixelFormat::Yuv420p, 4, 2, canvas());
    let frame = direct.get_video_frame().unwrap();
    assert_eq!((frame.pts, frame.conversion), (1, Conversion::Direct));
    assert_eq!(direct.canvas.y.data, vec![0, 1, 2, 3, 1, 2, 3, 4]);
    assert!(!direct.has_scaler);

    let mut scaled = VideoOutput::new(tb, PixelFormat::Other(2), 4, 2, canvas());
    let first = scaled.get_video_frame().unwrap();
    assert_eq!(first.conversion, Conversion::Scale { make_scaler: true });
    let second = scaled.get_video_frame().unwrap();
    assert_eq!(second.conversion, Conversion::Scale { make_scaler: false });
    assert_eq!(scaled.canvas.cr.data, vec![69, 70]);
    let mut frames = 2;
    while scaled.get_video_frame().is_some() {
        frames += 1;
    }
    assert_eq!(frames, 11);
    assert_eq!(scaled.next_pts, 11);
}

#[test]
fn audio_output_counts_samples() {
    let tb = Rational { num: 1, den: 8 };
    let mut output = AudioOutput::new(tb, 8, 2, 3, vec![5; 6]);
    assert_eq!(output.get_audio_frame(&vec![0, 1, -1]), Some(0));
    assert_eq!(output.tmp_data, vec![0, 0, 16, 16, 240, 240]);
    assert_eq!(output.next_pts, 3);
    let samples = output.converted_samples(2);
    assert_eq!(samples, 5);
    assert_eq!(output.stamp_converted(2), 0);
    assert_eq!(output.samples_count, 5);
    assert_eq!(output.stamp_converted(0), 5);
    assert_eq!(output.samples_count, 8);
    assert_eq!(output.next_pts, 3);
    output.next_pts = 80;
    assert_eq!(output.get_audio_frame(&vec![0, 0, 0]), Some(80));
    assert_eq!(output.get_audio_frame(&vec![]), None);
    assert_eq!(output.next_pts, 83);
}

#[test]
fn files_are_opened_unless_the_container_does() {
    assert!(opens_file(0x40, 0x1));
    assert!(!opens_file(0x41, 0x1));
}

#[test]
fn streams_go_on_unless_a_call_fails() {
    assert!(goes_on(Outcome::Drained { eof: false }));
    assert!(goes_on(Outcome::Drained { eof: true }));
    assert!(!goes_on(Outcome::Failed(-22)));
}

#[test]
fn flushed_streams_go_on_until_nothing_is_left() {
    assert_eq!(goes_on_until_flushed(Outcome::Drained { eof: false }), Ok(true));
    assert_eq!(goes_on_until_flushed(Outcome::Drained { eof: true }), Ok(false));
    assert_eq!(goes_on_until_flushed(Outcome::Failed(-22)), Err(-22));
    assert_eq!(goes_on_until_flushed(Outcome::Unexpected(-5)), Err(-5));
}

#[test]
fn turns_follow_the_time() {
    let mut muxer = Muxer::new();
    let (mut video, mut audio) = (ts(0, 30), ts(0, 48000));
    let mut last = ts(0, 1);
    let mut last_stamp = ts(0, 30);
    for turns in 0..3000 {
        let turn = match muxer.next_turn(video, audio) {
            Some(turn) => turn,
            None => break,
        };
        let written = match turn {
            Turn::Video => video,
            Turn::Audio => audio,
        };
        assert!(compare_ts(last, written) <= 0);
        last = written;
        let stamp = Timestamp { pts: written.pts + 1, ..written };
        let unit_earlier = Timestamp { pts: last_stamp.pts - 1, ..last_stamp };
        assert_eq!(compare_ts(unit_earlier, stamp), -1);
        last_stamp = stamp;
        match turn {
            Turn::Video => video.pts += 1,
            Turn::Audio => audio.pts += 1000 + turns % 100,
        }
        muxer.record(turn, turns < 1000);
    }
    assert_eq!(muxer, Muxer { encode_video: false, encode_audio: false });
}

#[test]
fn stamps_may_pass_each_other_by_less_than_a_unit() {
    let muxer = Muxer::new();
    assert_eq!(muxer.next_turn(ts(0, 25), ts(0, 44100)), Some(Turn::Video));
    assert_eq!(muxer.next_turn(ts(1, 25), ts(0, 44100)), Some(Turn::Audio));
    assert_eq!(compare_ts(ts(1, 25), ts(1, 44100)), 1);
    assert_eq!(compare_ts(ts(0, 25), ts(1, 44100)), -1);
}

#[test]
fn streams_past_their_end_are_flushed() {
    assert_eq!(begin_write_or_flush(Some(7)), (Request::SendFrame, false));
    assert_eq!(begin_write_or_flush(None), (Request::SendFrame, true));
}
