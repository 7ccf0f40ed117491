//! The two streams of the file, and the frames that they give out one by one.

use vstd::prelude::*;

use crate::codec::{PixelFormat, SampleFormat, SampleLayout};
use crate::picture::{fill_yuv_image, Picture};
use crate::time::{compare_ts, lemma_compare_by_time, sign, Rational, Timestamp};
use crate::tone::{interleave, interleaved};

verus! {

/// How long the streams are, in seconds.
pub const STREAM_DURATION: i64 = 10;

/// Progress is logged after this many frames at the latest.
pub const LOG_FRAMES: usize = 10;

/// Progress is logged after this many nanoseconds at the latest.
pub const LOG_NANOS: u128 = 1_000_000_000;

/// The samples of an audio frame where the codec leaves their number open.
pub const VARIABLE_FRAME_SAMPLES: usize = 10_000;

/// A stream that stands at `next_pts` has not passed its end.
pub open spec fn due(next_pts: int, time_base: Rational) -> bool {
    next_pts * time_base.num <= STREAM_DURATION * time_base.den
}

/// Whether a stream that stands at `next_pts` has not passed its end.
pub fn frame_due(next_pts: i64, time_base: Rational) -> (is_due: bool)
    ensures
        is_due == due(next_pts as int, time_base),
        is_due <==> next_pts * time_base.num <= 10 * time_base.den,
{
    let next = Timestamp { pts: next_pts, time_base };
    let end = Timestamp { pts: STREAM_DURATION, time_base: Rational { num: 1, den: 1 } };
    compare_ts(next, end) <= 0
}

/// A stream of the file: what its frames are made from, and how far it is.
#[derive(Debug)]
pub struct OutputStream<T> {
    pub encoder: T,
    /// Where the stream stands, in units of the encoder's time base.
    pub next_pts: i64,
    pub logging_enabled: bool,
    pub frame_count: usize,
    pub last_log_frame_count: usize,
    /// When the stream was made, in nanoseconds of a monotonic clock.
    pub starting_time: u128,
    /// When progress was last logged, in nanoseconds of the same clock.
    pub last_log_time: u128,
}

/// What a line of the log reports.
#[derive(Debug, Clone, Copy, PartialEq, Eq, Structural)]
pub struct Progress {
    /// Nanoseconds since the stream was made.
    pub elapsed: u128,
    pub frame_count: usize,
}

/// Whether progress is to be logged, `frames` frames and `elapsed` nanoseconds
/// after it was last.
pub open spec fn log_due(logging_enabled: bool, frames: int, elapsed: int) -> bool {
    logging_enabled && (frames >= LOG_FRAMES || elapsed >= LOG_NANOS)
}

/// How much later than `then` it is `now`; nothing if the clock has stepped back.
pub open spec fn since(now: u128, then: u128) -> int {
    if now >= then {
        now - then
    } else {
        0
    }
}

impl<T> OutputStream<T> {
    /// The counts of frames say that none was logged before it was counted.
    pub open spec fn counts_ordered(self) -> bool {
        self.last_log_frame_count <= self.frame_count
    }

    /// `self` differs from `before` at most in when it was last logged.
    pub open spec fn same_but_log(self, before: Self) -> bool {
        &&& self.encoder == before.encoder
        &&& self.next_pts == before.next_pts
        &&& self.logging_enabled == before.logging_enabled
        &&& self.frame_count == before.frame_count
        &&& self.starting_time == before.starting_time
    }

    /// The stream was made `now`, and has given out and logged nothing.
    pub open spec fn is_fresh(self, now: u128) -> bool {
        &&& self.next_pts == 0
        &&& self.frame_count == 0
        &&& self.last_log_frame_count == 0
        &&& self.starting_time == now
        &&& self.last_log_time == now
    }

    /// A stream that is made `now` and has given out no frame yet.
    pub fn new(encoder: T, logging_enabled: bool, now: u128) -> (stream: Self)
        ensures
            stream == (OutputStream {
                encoder,
                next_pts: 0,
                logging_enabled,
                frame_count: 0,
                last_log_frame_count: 0,
                starting_time: now,
                last_log_time: now,
            }),
            stream.counts_ordered(),
            stream.is_fresh(now),
    {
        OutputStream {
            encoder,
            next_pts: 0,
            logging_enabled,
            frame_count: 0,
            last_log_frame_count: 0,
            starting_time: now,
            last_log_time: now,
        }
    }

    /// Says what to log if a line is due `now`: at once after `LOG_FRAMES` frames,
    /// else when `LOG_NANOS` have passed since the last line. A line that is due
    /// counts as logged.
    pub fn log_progress(&mut self, now: u128) -> (line: Option<Progress>)
        requires
            old(self).logging_enabled ==> old(self).counts_ordered(),
        ensures
            line is Some <==> log_due(
                old(self).logging_enabled,
                old(self).frame_count - old(self).last_log_frame_count,
                since(now, old(self).last_log_time),
            ),
            line is None ==> *final(self) == *old(self),
            line matches Some(progress) ==> {
                &&& progress.elapsed == since(now, old(self).starting_time)
                &&& progress.frame_count == old(self).frame_count
                &&& final(self).last_log_frame_count == old(self).frame_count
                &&& final(self).last_log_time == now
                &&& final(self).same_but_log(*old(self))
            },
            line is Some <==> old(self).logging_enabled && (old(self).frame_count - old(
                self,
            ).last_log_frame_count >= 10 || now >= old(self).last_log_time + 1_000_000_000),
            line matches Some(progress) ==> now >= old(self).starting_time ==> progress.elapsed
                == now - old(self).starting_time,
            line matches Some(progress) ==> now < old(self).starting_time ==> progress.elapsed
                == 0,
            final(self).encoder == old(self).encoder,
            final(self).next_pts == old(self).next_pts,
            final(self).logging_enabled == old(self).logging_enabled,
            final(self).frame_count == old(self).frame_count,
            final(self).starting_time == old(self).starting_time,
            old(self).counts_ordered() ==> final(self).counts_ordered(),
    {
        if !self.logging_enabled {
            return None;
        }
        if self.frame_count - self.last_log_frame_count < LOG_FRAMES && nanos_since(
            now,
            self.last_log_time,
        ) < LOG_NANOS {
            return None;
        }
        let line = Progress {
            elapsed: nanos_since(now, self.starting_time),
            frame_count: self.frame_count,
        };
        self.last_log_frame_count = self.frame_count;
        self.last_log_time = now;
        Some(line)
    }
}

/// How much later than `then` it is `now`; nothing if the clock has stepped back.
fn nanos_since(now: u128, then: u128) -> (nanos: u128)
    ensures
        nanos == since(now, then),
{
    if now >= then {
        now - then
    } else {
        0
    }
}

/// What a picture buffer is made for.
#[derive(Debug, Clone, Copy, PartialEq, Eq, Structural)]
pub struct PictureDef {
    pub format: PixelFormat,
    pub width: u32,
    pub height: u32,
}

/// How the samples of a picture are computed when it is converted.
#[derive(Debug, Clone, Copy, PartialEq, Eq, Structural)]
pub enum ScalingFilter {
    Bicubic,
}

/// From what to what pictures are converted.
#[derive(Debug, Clone, Copy, PartialEq, Eq, Structural)]
pub struct ScalingDef {
    pub input: PictureDef,
    pub output: PictureDef,
    pub filter: ScalingFilter,
}

/// The buffers of a video stream: the frame that goes to the encoder, the frame
/// that is drawn into, and the way from the second to the first.
#[derive(Debug, Clone, Copy, PartialEq, Eq, Structural)]
pub struct VideoPlan {
    pub frame: PictureDef,
    pub tmp_frame: PictureDef,
    pub scaling: ScalingDef,
}

/// The buffers for an encoder that takes pictures of the given format and size.
pub open spec fn video_plan(format: PixelFormat, width: u32, height: u32) -> VideoPlan {
    let frame = PictureDef { format, width, height };
    let tmp_frame = PictureDef { format: PixelFormat::Yuv420p, width, height };
    VideoPlan {
        frame,
        tmp_frame,
        scaling: ScalingDef { input: tmp_frame, output: frame, filter: ScalingFilter::Bicubic },
    }
}

/// What the frames of the video stream are made from.
#[derive(Debug)]
pub struct VideoStream {
    pub time_base: Rational,
    pub width: usize,
    pub height: usize,
    /// The picture that is drawn into.
    pub tmp_frame: Picture,
    /// The timestamp of the frame that goes to the encoder.
    pub frame_pts: Option<i64>,
}

impl VideoStream {
    /// The buffers of a stream whose opened encoder takes pictures of the given
    /// format and size.
    pub fn plan(format: PixelFormat, width: u32, height: u32) -> (plan: VideoPlan)
        ensures
            plan.frame == (PictureDef { format, width, height }),
            plan.tmp_frame == (PictureDef { format: PixelFormat::Yuv420p, width, height }),
            plan.scaling == (ScalingDef {
                input: plan.tmp_frame,
                output: plan.frame,
                filter: ScalingFilter::Bicubic,
            }),
            plan == video_plan(format, width, height),
    {
        let frame = PictureDef { format, width, height };
        let tmp_frame = PictureDef { format: PixelFormat::Yuv420p, width, height };
        VideoPlan {
            frame,
            tmp_frame,
            scaling: ScalingDef {
                input: tmp_frame,
                output: frame,
                filter: ScalingFilter::Bicubic,
            },
        }
    }

    /// The source of a stream whose opened encoder has the given time base and
    /// size; `tmp_frame` is the buffer to draw into.
    pub fn open(time_base: Rational, width: usize, height: usize, tmp_frame: Picture) -> (stream:
        Self)
        ensures
            stream == (VideoStream { time_base, width, height, tmp_frame, frame_pts: None }),
    {
        VideoStream { time_base, width, height, tmp_frame, frame_pts: None }
    }
}

impl OutputStream<VideoStream> {
    /// If a frame is due, there is room for it and a number after it.
    pub open spec fn ready(self) -> bool {
        due(self.next_pts as int, self.encoder.time_base) ==> {
            &&& self.next_pts < i64::MAX
            &&& self.encoder.tmp_frame.holds(self.encoder.width, self.encoder.height)
        }
    }

    /// The stream gave out one frame and stands one unit after where it stood
    /// `before`: it drew the image with the number at which it stood then.
    pub open spec fn gave_frame(self, before: Self) -> bool {
        &&& due(before.next_pts as int, before.encoder.time_base)
        &&& self.next_pts == before.next_pts + 1
        &&& self.encoder.frame_pts == Some(self.next_pts)
        &&& self.encoder.tmp_frame.shows(
            before.encoder.tmp_frame,
            before.next_pts as int,
            before.encoder.width,
            before.encoder.height,
        )
        &&& self.encoder.time_base == before.encoder.time_base
        &&& self.encoder.width == before.encoder.width
        &&& self.encoder.height == before.encoder.height
    }

    /// Draws the next frame and gives its timestamp; `None` once the stream has
    /// passed its end. The image that is drawn has the number that the stream
    /// stands at; the stream then moves on by one unit, and the frame is stamped
    /// with where it stands after that.
    pub fn get_frame(&mut self) -> (pts: Option<i64>)
        requires
            old(self).ready(),
        ensures
            pts is Some <==> due(old(self).next_pts as int, old(self).encoder.time_base),
            pts is Some <==> old(self).next_pts * old(self).encoder.time_base.num <= 10 * old(
                self,
            ).encoder.time_base.den,
            pts is Some ==> final(self).gave_frame(*old(self)),
            pts is None ==> *final(self) == *old(self),
            pts matches Some(pts) ==> {
                &&& pts == old(self).next_pts + 1
                &&& final(self).next_pts == pts
                &&& final(self).encoder.frame_pts == Some(pts)
                &&& final(self).encoder.tmp_frame.shows(
                    old(self).encoder.tmp_frame,
                    old(self).next_pts as int,
                    old(self).encoder.width,
                    old(self).encoder.height,
                )
                &&& final(self).encoder.time_base == old(self).encoder.time_base
                &&& final(self).encoder.width == old(self).encoder.width
                &&& final(self).encoder.height == old(self).encoder.height
                &&& final(self).logging_enabled == old(self).logging_enabled
                &&& final(self).frame_count == old(self).frame_count
                &&& final(self).last_log_frame_count == old(self).last_log_frame_count
                &&& final(self).starting_time == old(self).starting_time
                &&& final(self).last_log_time == old(self).last_log_time
            },
            old(self).encoder.time_base.positive() ==> final(self).ready(),
    {
        if !frame_due(self.next_pts, self.encoder.time_base) {
            return None;
        }
        let width: usize = self.encoder.width;
        let height: usize = self.encoder.height;
        fill_yuv_image(&mut self.encoder.tmp_frame, self.next_pts, width, height);
        self.next_pts += 1;
        self.encoder.frame_pts = Some(self.next_pts);
        proof {
            if self.encoder.time_base.positive() && due(
                self.next_pts as int,
                self.encoder.time_base,
            ) {
                lemma_due_bounded(self.next_pts as int, self.encoder.time_base);
            }
        }
        Some(self.next_pts)
    }
}

/// What an audio buffer is made for.
#[derive(Debug, Clone, Copy, PartialEq, Eq, Structural)]
pub struct AudioFrameDef {
    pub format: SampleFormat,
    pub channel_layout: u64,
    pub rate: u32,
    pub samples: usize,
}

/// The form of some audio samples.
#[derive(Debug, Clone, Copy, PartialEq, Eq, Structural)]
pub struct AudioDef {
    pub format: SampleFormat,
    pub channel_layout: u64,
    pub rate: u32,
}

/// From what to what samples are converted.
#[derive(Debug, Clone, Copy, PartialEq, Eq, Structural)]
pub struct ResamplingDef {
    pub input: AudioDef,
    pub output: AudioDef,
}

/// The buffers of an audio stream: the frame that goes to the encoder, the frame
/// that is played into, and the way from the second to the first.
#[derive(Debug, Clone, Copy, PartialEq, Eq, Structural)]
pub struct AudioPlan {
    pub frame: AudioFrameDef,
    pub tmp_frame: AudioFrameDef,
    pub resampling: ResamplingDef,
}

/// The buffers for an encoder that takes samples of the given format, channel
/// layout and rate, `samples` of them in a frame.
pub open spec fn audio_plan(
    samples: usize,
    format: SampleFormat,
    channel_layout: u64,
    rate: u32,
) -> AudioPlan {
    let tmp_format = SampleFormat::I16(SampleLayout::Packed);
    AudioPlan {
        frame: AudioFrameDef { format, channel_layout, rate, samples },
        tmp_frame: AudioFrameDef { format: tmp_format, channel_layout, rate, samples },
        resampling: ResamplingDef {
            input: AudioDef { format: tmp_format, channel_layout, rate },
            output: AudioDef { format, channel_layout, rate },
        },
    }
}

/// What the frames of the audio stream are made from.
#[derive(Debug)]
pub struct AudioStream {
    pub time_base: Rational,
    pub channels: i32,
    /// The samples of one frame.
    pub num_samples: usize,
    pub samples_count: i64,
    /// The buffer that is played into.
    pub tmp_data: Vec<u8>,
    /// The timestamp of the frame that goes to the encoder.
    pub frame_pts: Option<i64>,
}

impl AudioStream {
    /// The buffers of a stream whose opened encoder takes samples of the given
    /// format, channel layout and rate, `frame_size` of them in a frame unless
    /// the codec leaves their number open.
    pub fn plan(
        variable_frame_size: bool,
        frame_size: u32,
        format: SampleFormat,
        channel_layout: u64,
        rate: u32,
    ) -> (plan: AudioPlan)
        ensures
            plan.frame.samples == if variable_frame_size {
                VARIABLE_FRAME_SAMPLES as int
            } else {
                frame_size as int
            },
            variable_frame_size ==> plan.frame.samples == 10_000,
            !variable_frame_size ==> plan.frame.samples == frame_size,
            plan.frame == (AudioFrameDef {
                format,
                channel_layout,
                rate,
                samples: plan.frame.samples,
            }),
            plan.tmp_frame == (AudioFrameDef {
                format: SampleFormat::I16(SampleLayout::Packed),
                channel_layout,
                rate,
                samples: plan.frame.samples,
            }),
            plan.resampling == (ResamplingDef {
                input: AudioDef {
                    format: SampleFormat::I16(SampleLayout::Packed),
                    channel_layout,
                    rate,
                },
                output: AudioDef { format, channel_layout, rate },
            }),
            plan == audio_plan(
                if variable_frame_size {
                    10_000
                } else {
                    frame_size as usize
                },
                format,
                channel_layout,
                rate,
            ),
    {
        let samples: usize = if variable_frame_size {
            VARIABLE_FRAME_SAMPLES
        } else {
            frame_size as usize
        };
        let tmp_format = SampleFormat::I16(SampleLayout::Packed);
        AudioPlan {
            frame: AudioFrameDef { format, channel_layout, rate, samples },
            tmp_frame: AudioFrameDef { format: tmp_format, channel_layout, rate, samples },
            resampling: ResamplingDef {
                input: AudioDef { format: tmp_format, channel_layout, rate },
                output: AudioDef { format, channel_layout, rate },
            },
        }
    }

    /// The source of a stream whose opened encoder has the given time base and
    /// number of channels; `tmp_data` is the buffer to play `num_samples`
    /// samples into.
    pub fn open(time_base: Rational, channels: i32, num_samples: usize, tmp_data: Vec<u8>) -> (
        stream: Self)
        ensures
            stream == (AudioStream {
                time_base,
                channels,
                num_samples,
                samples_count: 0,
                tmp_data,
                frame_pts: None,
            }),
    {
        AudioStream {
            time_base,
            channels,
            num_samples,
            samples_count: 0,
            tmp_data,
            frame_pts: None,
        }
    }

    /// The buffer has room for one frame.
    pub open spec fn holds_frame(self) -> bool {
        self.channels > 0 ==> self.num_samples * self.channels <= self.tmp_data@.len()
    }
}

impl OutputStream<AudioStream> {
    /// If a frame is due, there is room for it and a number after it.
    pub open spec fn ready(self) -> bool {
        due(self.next_pts as int, self.encoder.time_base) ==> {
            &&& self.next_pts < i64::MAX
            &&& self.encoder.holds_frame()
        }
    }

    /// The stream played `samples` into one frame, gave it out and stands one unit
    /// after where it stood `before`.
    pub open spec fn gave_frame(self, before: Self, samples: Seq<u8>) -> bool {
        &&& due(before.next_pts as int, before.encoder.time_base)
        &&& self.next_pts == before.next_pts + 1
        &&& self.encoder.frame_pts == Some(self.next_pts)
        &&& self.encoder.tmp_data@ == interleaved(
            before.encoder.tmp_data@,
            samples,
            before.encoder.channels as int,
        )
        &&& self.encoder.time_base == before.encoder.time_base
        &&& self.encoder.channels == before.encoder.channels
        &&& self.encoder.num_samples == before.encoder.num_samples
    }

    /// Plays `samples` into the next frame and gives its timestamp; `None` once
    /// the stream has passed its end. The stream moves on by one unit, and the
    /// frame is stamped with where it stands after that.
    pub fn get_frame(&mut self, samples: &Vec<u8>) -> (pts: Option<i64>)
        requires
            old(self).ready(),
            due(old(self).next_pts as int, old(self).encoder.time_base) ==> samples@.len() == old(
                self,
            ).encoder.num_samples,
        ensures
            pts is Some <==> due(old(self).next_pts as int, old(self).encoder.time_base),
            pts is Some <==> old(self).next_pts * old(self).encoder.time_base.num <= 10 * old(
                self,
            ).encoder.time_base.den,
            pts is Some ==> final(self).gave_frame(*old(self), samples@),
            pts is None ==> *final(self) == *old(self),
            pts matches Some(pts) ==> {
                &&& pts == old(self).next_pts + 1
                &&& final(self).next_pts == pts
                &&& final(self).encoder.frame_pts == Some(pts)
                &&& final(self).encoder.tmp_data@ == interleaved(
                    old(self).encoder.tmp_data@,
                    samples@,
                    old(self).encoder.channels as int,
                )
                &&& final(self).encoder.time_base == old(self).encoder.time_base
                &&& final(self).encoder.channels == old(self).encoder.channels
                &&& final(self).encoder.num_samples == old(self).encoder.num_samples
                &&& final(self).encoder.samples_count == old(self).encoder.samples_count
                &&& final(self).logging_enabled == old(self).logging_enabled
                &&& final(self).frame_count == old(self).frame_count
                &&& final(self).last_log_frame_count == old(self).last_log_frame_count
                &&& final(self).starting_time == old(self).starting_time
                &&& final(self).last_log_time == old(self).last_log_time
            },
            old(self).encoder.time_base.positive() ==> final(self).ready(),
    {
        if !frame_due(self.next_pts, self.encoder.time_base) {
            return None;
        }
        let channels: i32 = self.encoder.channels;
        interleave(&mut self.encoder.tmp_data, samples, channels);
        self.next_pts += 1;
        self.encoder.frame_pts = Some(self.next_pts);
        proof {
            if self.encoder.time_base.positive() && due(
                self.next_pts as int,
                self.encoder.time_base,
            ) {
                lemma_due_bounded(self.next_pts as int, self.encoder.time_base);
            }
        }
        Some(self.next_pts)
    }
}

/// How much later it is: the time that has passed since `then`, and nothing where
/// the clock shows a time before it.
pub proof fn lemma_since(now: u128, then: u128)
    ensures
        now >= then ==> then + since(now, then) == now,
        now <= then ==> since(now, then) == 0,
{
}

/// A line is logged exactly if logging is on and there are ten further frames, or
/// a second has passed since the last line.
pub proof fn lemma_log_line(logging_enabled: bool, frames: int, now: u128, then: u128)
    ensures
        log_due(logging_enabled, frames, since(now, then)) <==> logging_enabled && (frames >= 10
            || now >= then + 1_000_000_000),
{
}

/// A stream that is the same but for the log differs in nothing but when it was last
/// logged, and at which frame. Its counts are in order if that frame was counted.
pub proof fn lemma_same_but_log<T>(after: OutputStream<T>, before: OutputStream<T>)
    ensures
        after.same_but_log(before) <==> after == (OutputStream {
            last_log_frame_count: after.last_log_frame_count,
            last_log_time: after.last_log_time,
            ..before
        }),
        after.counts_ordered() <==> after.last_log_frame_count <= after.frame_count,
{
}

/// A fresh stream stands at its start, whose frame is due, and has nothing to log
/// at the time it was made.
pub proof fn lemma_fresh<T>(stream: OutputStream<T>, now: u128, time_base: Rational)
    requires
        stream.is_fresh(now),
        time_base.positive(),
    ensures
        stream.next_pts == 0,
        due(stream.next_pts as int, time_base),
        stream.counts_ordered(),
        stream.starting_time == now,
        stream.last_log_time == now,
        stream.frame_count == 0,
        !log_due(
            stream.logging_enabled,
            stream.frame_count - stream.last_log_frame_count,
            since(now, stream.last_log_time),
        ),
{
}

/// The picture that is drawn into has the size of the one that goes to the encoder,
/// and is converted from the format in which it is drawn to that of the encoder.
pub proof fn lemma_video_plan(format: PixelFormat, width: u32, height: u32)
    ensures
        ({
            let plan = video_plan(format, width, height);
            &&& plan.frame.format == format
            &&& plan.frame.width == width
            &&& plan.frame.height == height
            &&& plan.tmp_frame.format == PixelFormat::Yuv420p
            &&& plan.tmp_frame.width == plan.frame.width
            &&& plan.tmp_frame.height == plan.frame.height
            &&& plan.scaling.input == plan.tmp_frame
            &&& plan.scaling.output == plan.frame
            &&& plan.scaling.filter == ScalingFilter::Bicubic
        }),
{
}

/// The samples that are played are as many as go to the encoder, of the same rate
/// and layout, and only their format is converted.
pub proof fn lemma_audio_plan(
    samples: usize,
    format: SampleFormat,
    channel_layout: u64,
    rate: u32,
)
    ensures
        ({
            let plan = audio_plan(samples, format, channel_layout, rate);
            &&& plan.frame.format == format
            &&& plan.frame.channel_layout == channel_layout
            &&& plan.frame.rate == rate
            &&& plan.frame.samples == samples
            &&& plan.tmp_frame == AudioFrameDef {
                format: SampleFormat::I16(SampleLayout::Packed),
                ..plan.frame
            }
            &&& plan.resampling.input.format == plan.tmp_frame.format
            &&& plan.resampling.output.format == plan.frame.format
            &&& plan.resampling.input.channel_layout == channel_layout
            &&& plan.resampling.output.channel_layout == channel_layout
            &&& plan.resampling.input.rate == rate
            &&& plan.resampling.output.rate == rate
        }),
{
}

/// A frame is due exactly if the stream does not stand after ten seconds.
pub proof fn lemma_due_within_duration(next_pts: i64, time_base: Rational)
    ensures
        ({
            let next = Timestamp { pts: next_pts, time_base };
            let end = Timestamp { pts: 10, time_base: Rational { num: 1, den: 1 } };
            due(next_pts as int, time_base) <==> sign(next.lead(end)) <= 0
        }),
        due(next_pts as int, time_base) <==> next_pts * time_base.num <= 10 * time_base.den,
{
    lemma_compare_by_time(
        Timestamp { pts: next_pts, time_base },
        Timestamp { pts: 10, time_base: Rational { num: 1, den: 1 } },
    );
}

/// What a stream needs for its next frame, if it does not stand after ten seconds:
/// a number after its own, and room for the image in its picture.
pub proof fn lemma_video_ready(stream: OutputStream<VideoStream>)
    ensures
        stream.ready() <==> (stream.next_pts * stream.encoder.time_base.num <= 10
            * stream.encoder.time_base.den ==> stream.next_pts < i64::MAX
            && stream.encoder.tmp_frame.holds(stream.encoder.width, stream.encoder.height)),
{
}

/// What a stream needs for its next frame, if it does not stand after ten seconds:
/// a number after its own, and a byte for each channel of each sample.
pub proof fn lemma_audio_ready(stream: OutputStream<AudioStream>)
    ensures
        stream.ready() <==> (stream.next_pts * stream.encoder.time_base.num <= 10
            * stream.encoder.time_base.den ==> stream.next_pts < i64::MAX && (
        stream.encoder.channels <= 0 || stream.encoder.num_samples * stream.encoder.channels
            <= stream.encoder.tmp_data@.len())),
{
}

/// The frames of a video stream from its start: the `k`-th moves it to `k`, is
/// stamped `k` and shows the image with the number `k - 1`. There is one more
/// after it exactly if `k` does not stand after ten seconds.
pub proof fn lemma_video_frames(streams: Seq<OutputStream<VideoStream>>, k: int)
    requires
        0 <= k < streams.len(),
        streams[0].next_pts == 0,
        forall|i: int|
            0 < i < streams.len() ==> (#[trigger] streams[i]).gave_frame(streams[i - 1]),
    ensures
        streams[k].next_pts == k,
        streams[k].encoder.time_base == streams[0].encoder.time_base,
        streams[k].encoder.width == streams[0].encoder.width,
        streams[k].encoder.height == streams[0].encoder.height,
        k > 0 ==> streams[k].encoder.frame_pts == Some(k as i64),
        k > 0 ==> streams[k].encoder.tmp_frame.shows(
            streams[k - 1].encoder.tmp_frame,
            k - 1,
            streams[0].encoder.width,
            streams[0].encoder.height,
        ),
        k > 0 ==> (k - 1) * streams[0].encoder.time_base.num <= 10
            * streams[0].encoder.time_base.den,
    decreases k,
{
    if k > 0 {
        lemma_video_frames(streams, k - 1);
        assert(streams[k].gave_frame(streams[k - 1]));
    }
}

/// The frames of an audio stream from its start: the `k`-th moves it to `k`, is
/// stamped `k` and holds the samples that were played into it.
pub proof fn lemma_audio_frames(
    streams: Seq<OutputStream<AudioStream>>,
    samples: Seq<Seq<u8>>,
    k: int,
)
    requires
        0 <= k < streams.len(),
        samples.len() == streams.len(),
        streams[0].next_pts == 0,
        forall|i: int|
            0 < i < streams.len() ==> (#[trigger] streams[i]).gave_frame(
                streams[i - 1],
                samples[i],
            ),
    ensures
        streams[k].next_pts == k,
        streams[k].encoder.time_base == streams[0].encoder.time_base,
        streams[k].encoder.channels == streams[0].encoder.channels,
        streams[k].encoder.num_samples == streams[0].encoder.num_samples,
        k > 0 ==> streams[k].encoder.frame_pts == Some(k as i64),
        k > 0 ==> streams[k].encoder.tmp_data@ == interleaved(
            streams[k - 1].encoder.tmp_data@,
            samples[k],
            streams[0].encoder.channels as int,
        ),
        k > 0 ==> (k - 1) * streams[0].encoder.time_base.num <= 10
            * streams[0].encoder.time_base.den,
    decreases k,
{
    if k > 0 {
        lemma_audio_frames(streams, samples, k - 1);
        assert(streams[k].gave_frame(streams[k - 1], samples[k]));
    }
}

/// After a line that was logged at `then`, none is logged before there are
/// `LOG_FRAMES` further frames or `LOG_NANOS` have passed.
pub proof fn lemma_log_pause(logging_enabled: bool, frames: int, now: u128, then: u128)
    requires
        frames < LOG_FRAMES,
        now < then + LOG_NANOS,
    ensures
        !log_due(logging_enabled, frames, since(now, then)),
{
}

/// A stream in a positive time base is over long before its count runs out.
pub proof fn lemma_due_bounded(next_pts: int, time_base: Rational)
    requires
        time_base.positive(),
        due(next_pts, time_base),
    ensures
        next_pts <= STREAM_DURATION * i32::MAX,
{
    assert(next_pts <= STREAM_DURATION * time_base.den) by (nonlinear_arith)
        requires
            next_pts * time_base.num <= STREAM_DURATION * time_base.den,
            time_base.num >= 1,
            time_base.den >= 0,
            STREAM_DURATION >= 0,
    ;
}

/// How many frames a stream has: in a positive time base, the last frame is the
/// one that is drawn at the last whole unit of time within the duration.
pub proof fn lemma_last_frame(next_pts: int, time_base: Rational)
    requires
        time_base.positive(),
    ensures
        due(next_pts, time_base) <==> next_pts <= (STREAM_DURATION * time_base.den)
            / time_base.num as int,
{
    let span = STREAM_DURATION * time_base.den;
    let unit = time_base.num as int;
    let last = span / unit;
    vstd::arithmetic::div_mod::lemma_fundamental_div_mod(span, unit);
    vstd::arithmetic::div_mod::lemma_mod_bound(span, unit);
    if next_pts <= last {
        assert(next_pts * unit <= last * unit) by (nonlinear_arith)
            requires
                next_pts <= last,
                unit > 0,
        ;
        assert(last * unit == unit * last) by (nonlinear_arith);
    } else {
        assert(next_pts * unit >= unit * last + unit) by (nonlinear_arith)
            requires
                next_pts >= last + 1,
                unit > 0,
        ;
    }
}

/// A stream of `fps` frames a second gives out the images with the numbers from
/// 0 to ten times `fps`, both of them too.
pub proof fn lemma_frame_numbers(next_pts: int, fps: i32)
    requires
        fps > 0,
    ensures
        due(next_pts, Rational { num: 1, den: fps }) <==> next_pts <= 10 * fps,
{
}

/// A stream that has passed its end stays past it.
pub proof fn lemma_end_is_final(next_pts: int, later: int, time_base: Rational)
    requires
        time_base.positive(),
        next_pts <= later,
        !due(next_pts, time_base),
    ensures
        !due(later, time_base),
{
    assert(next_pts * time_base.num <= later * time_base.num) by (nonlinear_arith)
        requires
            next_pts <= later,
            time_base.num > 0,
    ;
}

} // verus!
