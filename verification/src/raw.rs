//! The same two streams, driven through the C interface of the media library:
//! pictures are drawn into the encoder's frame where it takes them as they are,
//! audio is stamped by the samples that came before it, and a stream that has
//! passed its end is flushed (see [`crate::writer::begin_write_or_flush`]).

use vstd::prelude::*;

use crate::codec::{
    audio_settings, configure_audio, configure_video, default_params, video_settings, AudioSettings,
    CodecId, Decision, PixelFormat, SampleFormat, SampleLayout, VideoParams, VideoSettings,
    PREFERRED_RATE, STEREO,
};
use crate::picture::{fill_yuv_image, Picture};
use crate::stream::{due, frame_due, lemma_due_bounded};
use crate::time::{lemma_played_at, lemma_sample_clock, played_at, sample_time, Rational};
use crate::tone::{interleave, interleaved, sine_byte};

verus! {

/// The samples of an audio frame where the codec leaves their number open.
pub const VARIABLE_FRAME_SAMPLES: i32 = 10000;

/// What kind of stream a codec is for.
#[derive(Debug, Clone, Copy, PartialEq, Eq, Structural)]
pub enum MediaType {
    Video,
    Audio,
    Other,
}

/// The configuration of an encoder.
#[derive(Debug, Clone, Copy, PartialEq, Eq, Structural)]
pub enum StreamSettings {
    Video(VideoSettings),
    Audio(AudioSettings),
    /// Everything is left at the codec's own values.
    Untouched,
}

/// A stream that was added to the file.
#[derive(Debug, Clone, Copy, PartialEq, Eq, Structural)]
pub struct AddedStream {
    pub id: i32,
    pub settings: StreamSettings,
    /// Whether the stream headers go into the container.
    pub global_header: bool,
}

/// The configuration of the encoder of an added stream. An audio encoder takes
/// the first sample format that its codec supports, or planar floats where the
/// codec names none.
pub open spec fn stream_settings(
    media: MediaType,
    codec_id: CodecId,
    first_format: Option<SampleFormat>,
    global_header: bool,
) -> StreamSettings {
    match media {
        MediaType::Video => StreamSettings::Video(
            video_settings(codec_id, default_params(), global_header),
        ),
        MediaType::Audio => StreamSettings::Audio(
            audio_settings(
                match first_format {
                    Some(format) => format,
                    None => SampleFormat::F32(SampleLayout::Planar),
                },
                PREFERRED_RATE,
                STEREO,
                global_header,
            ),
        ),
        MediaType::Other => StreamSettings::Untouched,
    }
}

/// Two sets of flags have a flag in common.
pub open spec fn shares_bit(flags: i32, others: i32) -> bool {
    flags & others != 0
}

/// Configures the stream that was just added to a file as the last of
/// `nb_streams`. The container asks for global headers if its flags share a bit
/// with `global_header_flag`.
pub fn add_stream(
    media: MediaType,
    codec_id: CodecId,
    first_format: Option<SampleFormat>,
    nb_streams: u32,
    format_flags: i32,
    global_header_flag: i32,
) -> (stream: AddedStream)
    requires
        nb_streams as i32 > i32::MIN,
    ensures
        stream.id == (nb_streams as i32) - 1,
        stream.global_header == (format_flags & global_header_flag != 0),
        stream.settings == stream_settings(media, codec_id, first_format, stream.global_header),
        nb_streams <= i32::MAX ==> stream.id == nb_streams - 1,
        stream.global_header == shares_bit(format_flags, global_header_flag),
        media == MediaType::Other ==> stream.settings == StreamSettings::Untouched,
        media == MediaType::Video ==> {
            &&& stream.settings matches StreamSettings::Video(settings)
            &&& settings.codec_id == codec_id
            &&& settings.bit_rate == 400_000
            &&& settings.width == 352
            &&& settings.height == 288
            &&& settings.time_base.num == 1
            &&& settings.time_base.den == 25
            &&& settings.gop == 12
            &&& settings.format == PixelFormat::Yuv420p
            &&& settings.max_b_frames == if codec_id == CodecId::Mpeg2Video {
                Some(2usize)
            } else {
                None
            }
            &&& settings.mb_decision == if codec_id == CodecId::Mpeg1Video {
                Some(Decision::RateDistortion)
            } else {
                None
            }
            &&& settings.global_header == stream.global_header
        },
        media == MediaType::Audio ==> {
            &&& stream.settings matches StreamSettings::Audio(settings)
            &&& first_format matches Some(format) ==> settings.format == format
            &&& first_format is None ==> settings.format == SampleFormat::F32(
                SampleLayout::Planar,
            )
            &&& settings.bit_rate == 64000
            &&& settings.rate == 44100
            &&& settings.channel_layout == 0x3
            &&& settings.time_base.num == 1
            &&& settings.time_base.den == 44100
            &&& settings.global_header == stream.global_header
        },
{
    let global_header = (format_flags & global_header_flag) != 0;
    let settings = match media {
        MediaType::Audio => {
            let format = match first_format {
                Some(format) => format,
                None => SampleFormat::F32(SampleLayout::Planar),
            };
            StreamSettings::Audio(
                configure_audio(format, PREFERRED_RATE, STEREO, global_header),
            )
        },
        MediaType::Video => StreamSettings::Video(
            configure_video(codec_id, &VideoParams::default(), global_header),
        ),
        MediaType::Other => StreamSettings::Untouched,
    };
    AddedStream { id: (nb_streams as i32) - 1, settings, global_header }
}

/// Flags have one in common in either order, no flags have none, flags have one in
/// common with themselves, and more flags have it too.
pub proof fn lemma_shares_bit(flags: i32, others: i32, more: i32)
    ensures
        shares_bit(flags, others) <==> shares_bit(others, flags),
        !shares_bit(flags, 0),
        shares_bit(flags, flags) <==> flags != 0,
        shares_bit(flags | more, others) <==> shares_bit(flags, others) || shares_bit(
            more,
            others,
        ),
        flags & others == 0 <==> !shares_bit(flags, others),
{
    assert(flags & others == others & flags) by (bit_vector);
    assert(flags & 0 == 0) by (bit_vector);
    assert(flags & flags == flags) by (bit_vector);
    assert((flags | more) & others != 0 <==> flags & others != 0 || more & others != 0)
        by (bit_vector);
}

/// What an added stream is configured for: a video stream as the defaults ask for,
/// of 25 pictures a second; an audio stream in stereo, of 44100 samples a second,
/// in the first format of its codec; and any other stream not at all.
pub proof fn lemma_stream_settings(
    codec_id: CodecId,
    format: SampleFormat,
    first_format: Option<SampleFormat>,
    global_header: bool,
)
    ensures
        stream_settings(MediaType::Other, codec_id, first_format, global_header)
            == StreamSettings::Untouched,
        ({
            let settings = stream_settings(
                MediaType::Video,
                codec_id,
                first_format,
                global_header,
            );
            &&& settings is Video
            &&& settings->Video_0.codec_id == codec_id
            &&& settings->Video_0.time_base.num == 1
            &&& settings->Video_0.time_base.den == 25
            &&& settings->Video_0.width == 352
            &&& settings->Video_0.height == 288
            &&& settings->Video_0.bit_rate == 400_000
            &&& settings->Video_0.global_header == global_header
            &&& settings->Video_0 == video_settings(codec_id, default_params(), global_header)
        }),
        ({
            let named = stream_settings(
                MediaType::Audio,
                codec_id,
                Some(format),
                global_header,
            );
            let unnamed = stream_settings(MediaType::Audio, codec_id, None, global_header);
            &&& named is Audio
            &&& named->Audio_0.format == format
            &&& named->Audio_0.rate == 44100
            &&& named->Audio_0.channel_layout == 0x3
            &&& named->Audio_0.time_base.num == 1
            &&& named->Audio_0.time_base.den == 44100
            &&& named->Audio_0.bit_rate == 64000
            &&& named->Audio_0.global_header == global_header
            &&& unnamed == stream_settings(
                MediaType::Audio,
                codec_id,
                Some(SampleFormat::F32(SampleLayout::Planar)),
                global_header,
            )
        }),
{
}

/// What a picture buffer is made for.
#[derive(Debug, Clone, Copy, PartialEq, Eq, Structural)]
pub struct PictureDef {
    pub format: PixelFormat,
    pub width: i32,
    pub height: i32,
}

/// The buffers of a video stream: the frame that goes to the encoder and, where
/// the encoder does not take pictures as they are drawn, one to draw into.
#[derive(Debug, Clone, Copy, PartialEq, Eq, Structural)]
pub struct VideoPlan {
    pub frame: PictureDef,
    pub tmp_frame: Option<PictureDef>,
}

/// Whether an encoder that takes pictures of the given format does not take them as
/// they are drawn.
pub open spec fn needs_scaling(format: PixelFormat) -> bool {
    format != PixelFormat::Yuv420p
}

/// The buffers for an encoder that takes pictures of the given format and size.
pub open spec fn video_buffers(format: PixelFormat, width: i32, height: i32) -> VideoPlan {
    VideoPlan {
        frame: PictureDef { format, width, height },
        tmp_frame: if needs_scaling(format) {
            Some(PictureDef { format: PixelFormat::Yuv420p, width, height })
        } else {
            None
        },
    }
}

/// The frame is of the encoder's format and size. There is another one to draw into
/// exactly if that is not the format in which pictures are drawn, and it has the
/// same size.
pub proof fn lemma_video_buffers(format: PixelFormat, width: i32, height: i32)
    ensures
        ({
            let plan = video_buffers(format, width, height);
            &&& plan.frame.format == format
            &&& plan.frame.width == width
            &&& plan.frame.height == height
            &&& plan.tmp_frame is None <==> format == PixelFormat::Yuv420p
            &&& plan.tmp_frame matches Some(tmp_frame) ==> {
                &&& tmp_frame.format == PixelFormat::Yuv420p
                &&& tmp_frame.width == width
                &&& tmp_frame.height == height
            }
        }),
{
}

/// Pictures are converted for every format but the one that they are drawn in.
pub proof fn lemma_needs_scaling(number: i32)
    ensures
        !needs_scaling(PixelFormat::Yuv420p),
        needs_scaling(PixelFormat::Other(number)),
{
}

/// The buffers of a stream whose opened encoder takes pictures of the given
/// format and size.
pub fn open_video(format: PixelFormat, width: i32, height: i32) -> (plan: VideoPlan)
    ensures
        plan.frame == (PictureDef { format, width, height }),
        plan.tmp_frame == if format != PixelFormat::Yuv420p {
            Some(PictureDef { format: PixelFormat::Yuv420p, width, height })
        } else {
            None
        },
        plan.tmp_frame is Some <==> needs_scaling(format),
        plan == video_buffers(format, width, height),
{
    let frame = PictureDef { format, width, height };
    let mut tmp_frame: Option<PictureDef> = None;
    if format != PixelFormat::Yuv420p {
        tmp_frame = Some(PictureDef { format: PixelFormat::Yuv420p, width, height });
    }
    VideoPlan { frame, tmp_frame }
}

/// What an audio buffer is made for.
#[derive(Debug, Clone, Copy, PartialEq, Eq, Structural)]
pub struct AudioDef {
    pub format: SampleFormat,
    pub channel_layout: u64,
    pub sample_rate: i32,
    pub nb_samples: i32,
}

impl AudioDef {
    /// Whether there is anything to allocate.
    pub fn needs_buffer(&self) -> (needed: bool)
        ensures
            needed == (self.nb_samples != 0),
    {
        self.nb_samples != 0
    }
}

/// The options of a resampler, in the order in which they are set.
#[derive(Debug, Clone, Copy, PartialEq, Eq, Structural)]
pub struct ResamplerOptions {
    pub in_channel_count: i32,
    pub in_sample_rate: i32,
    pub in_sample_fmt: SampleFormat,
    pub out_channel_count: i32,
    pub out_sample_rate: i32,
    pub out_sample_fmt: SampleFormat,
}

/// The buffers of an audio stream: the frame that goes to the encoder, the frame
/// that is played into, and the way from the second to the first.
#[derive(Debug, Clone, Copy, PartialEq, Eq, Structural)]
pub struct AudioPlan {
    pub frame: AudioDef,
    pub tmp_frame: AudioDef,
    pub resampler: ResamplerOptions,
}

/// The samples of a frame: their number is left open by a codec whose
/// capabilities, cut down to `variable_flag`, are the lowest bit alone.
pub open spec fn frame_samples(capabilities: u32, variable_flag: u32, frame_size: i32) -> i32 {
    if capabilities & variable_flag == 1 {
        VARIABLE_FRAME_SAMPLES
    } else {
        frame_size
    }
}

/// The buffers for an encoder that takes samples of the given format, channel
/// layout, rate and number of channels, `nb_samples` of them in a frame.
pub open spec fn audio_buffers(
    nb_samples: i32,
    format: SampleFormat,
    channel_layout: u64,
    sample_rate: i32,
    channels: i32,
) -> AudioPlan {
    let tmp_format = SampleFormat::I16(SampleLayout::Packed);
    AudioPlan {
        frame: AudioDef { format, channel_layout, sample_rate, nb_samples },
        tmp_frame: AudioDef { format: tmp_format, channel_layout, sample_rate, nb_samples },
        resampler: ResamplerOptions {
            in_channel_count: channels,
            in_sample_rate: sample_rate,
            in_sample_fmt: tmp_format,
            out_channel_count: channels,
            out_sample_rate: sample_rate,
            out_sample_fmt: format,
        },
    }
}

/// The samples that are played are as many as go to the encoder, of the same rate,
/// layout and number of channels, and only their format is converted.
pub proof fn lemma_audio_buffers(
    nb_samples: i32,
    format: SampleFormat,
    channel_layout: u64,
    sample_rate: i32,
    channels: i32,
)
    ensures
        ({
            let plan = audio_buffers(nb_samples, format, channel_layout, sample_rate, channels);
            &&& plan.frame.format == format
            &&& plan.frame.channel_layout == channel_layout
            &&& plan.frame.sample_rate == sample_rate
            &&& plan.frame.nb_samples == nb_samples
            &&& plan.tmp_frame == AudioDef {
                format: SampleFormat::I16(SampleLayout::Packed),
                ..plan.frame
            }
            &&& plan.resampler.in_sample_fmt == plan.tmp_frame.format
            &&& plan.resampler.out_sample_fmt == plan.frame.format
            &&& plan.resampler.in_channel_count == channels
            &&& plan.resampler.out_channel_count == channels
            &&& plan.resampler.in_sample_rate == sample_rate
            &&& plan.resampler.out_sample_rate == sample_rate
        }),
{
}

/// The buffers of a stream whose opened encoder takes samples of the given
/// format, channel layout, rate and number of channels, `frame_size` of them in
/// a frame.
pub fn open_audio(
    capabilities: u32,
    variable_flag: u32,
    frame_size: i32,
    format: SampleFormat,
    channel_layout: u64,
    sample_rate: i32,
    channels: i32,
) -> (plan: AudioPlan)
    ensures
        plan.frame == (AudioDef {
            format,
            channel_layout,
            sample_rate,
            nb_samples: frame_samples(capabilities, variable_flag, frame_size),
        }),
        plan.tmp_frame == (AudioDef {
            format: SampleFormat::I16(SampleLayout::Packed),
            channel_layout,
            sample_rate,
            nb_samples: frame_samples(capabilities, variable_flag, frame_size),
        }),
        capabilities & variable_flag == 1 ==> plan.frame.nb_samples == 10000,
        capabilities & variable_flag != 1 ==> plan.frame.nb_samples == frame_size,
        plan.tmp_frame.nb_samples == plan.frame.nb_samples,
        plan.resampler == (ResamplerOptions {
            in_channel_count: channels,
            in_sample_rate: sample_rate,
            in_sample_fmt: SampleFormat::I16(SampleLayout::Packed),
            out_channel_count: channels,
            out_sample_rate: sample_rate,
            out_sample_fmt: format,
        }),
        plan == audio_buffers(
            frame_samples(capabilities, variable_flag, frame_size),
            format,
            channel_layout,
            sample_rate,
            channels,
        ),
{
    let nb_samples: i32 = if capabilities & variable_flag == 1 {
        VARIABLE_FRAME_SAMPLES
    } else {
        frame_size
    };
    let tmp_format = SampleFormat::I16(SampleLayout::Packed);
    AudioPlan {
        frame: AudioDef { format, channel_layout, sample_rate, nb_samples },
        tmp_frame: AudioDef { format: tmp_format, channel_layout, sample_rate, nb_samples },
        resampler: ResamplerOptions {
            in_channel_count: channels,
            in_sample_rate: sample_rate,
            in_sample_fmt: tmp_format,
            out_channel_count: channels,
            out_sample_rate: sample_rate,
            out_sample_fmt: format,
        },
    }
}

/// A codec that leaves the number of samples open gets ten thousand of them,
/// whatever its frame size; any other gets its frame size.
pub proof fn lemma_frame_samples(capabilities: u32, variable_flag: u32, frame_size: i32)
    ensures
        capabilities & variable_flag == 1 ==> frame_samples(
            capabilities,
            variable_flag,
            frame_size,
        ) == 10000,
        capabilities & variable_flag != 1 ==> frame_samples(
            capabilities,
            variable_flag,
            frame_size,
        ) == frame_size,
{
}

/// A flag without the lowest bit never leaves the number of samples open.
pub proof fn lemma_frame_size_counts(capabilities: u32, variable_flag: u32, frame_size: i32)
    requires
        variable_flag & 1 == 0,
    ensures
        frame_samples(capabilities, variable_flag, frame_size) == frame_size,
{
    assert(capabilities & variable_flag != 1) by (bit_vector)
        requires
            variable_flag & 1 == 0,
    ;
}

/// What is left to be done with a picture that was drawn.
#[derive(Debug, Clone, Copy, PartialEq, Eq, Structural)]
pub enum Conversion {
    /// It was drawn into the frame that goes to the encoder.
    Direct,
    /// It is converted into that frame, for which a scaler is made first if
    /// there is none.
    Scale { make_scaler: bool },
}

/// A video frame to be sent.
#[derive(Debug, Clone, Copy, PartialEq, Eq, Structural)]
pub struct VideoFrame {
    pub pts: i64,
    pub conversion: Conversion,
}

/// A video stream: what its frames are made from, and how far it is.
#[derive(Debug)]
pub struct VideoOutput {
    pub next_pts: i64,
    pub time_base: Rational,
    pub format: PixelFormat,
    pub width: usize,
    pub height: usize,
    /// The picture that is drawn into: the frame that goes to the encoder, or
    /// the one that is converted into it.
    pub canvas: Picture,
    pub has_scaler: bool,
}

impl VideoOutput {
    /// If a frame is due, there is room for it and a number after it.
    pub open spec fn ready(self) -> bool {
        due(self.next_pts as int, self.time_base) ==> {
            &&& self.next_pts < i64::MAX
            &&& self.canvas.holds(self.width, self.height)
        }
    }

    /// The stream has given out nothing, and no scaler was made for it.
    pub open spec fn is_fresh(self) -> bool {
        self.next_pts == 0 && !self.has_scaler
    }

    /// The stream gave out `frame` and stands one unit after where it stood
    /// `before`: it drew the image with the number at which it stood then.
    pub open spec fn gave_frame(self, before: Self, frame: VideoFrame) -> bool {
        &&& due(before.next_pts as int, before.time_base)
        &&& self.next_pts == before.next_pts + 1
        &&& frame.pts == self.next_pts
        &&& frame.conversion == if needs_scaling(before.format) {
            Conversion::Scale { make_scaler: !before.has_scaler }
        } else {
            Conversion::Direct
        }
        &&& self.has_scaler == (before.has_scaler || needs_scaling(before.format))
        &&& self.canvas.shows(
            before.canvas,
            before.next_pts as int,
            before.width,
            before.height,
        )
        &&& self.time_base == before.time_base
        &&& self.format == before.format
        &&& self.width == before.width
        &&& self.height == before.height
    }

    /// A stream that has given out no frame yet.
    pub fn new(
        time_base: Rational,
        format: PixelFormat,
        width: usize,
        height: usize,
        canvas: Picture,
    ) -> (output: Self)
        ensures
            output == (VideoOutput {
                next_pts: 0,
                time_base,
                format,
                width,
                height,
                canvas,
                has_scaler: false,
            }),
            output.is_fresh(),
    {
        VideoOutput { next_pts: 0, time_base, format, width, height, canvas, has_scaler: false }
    }

    /// Draws the next frame and says how it is stamped and what is left to be done
    /// with it; `None` once the stream has passed its end. The image that is drawn
    /// has the number that the stream stands at; the stream then moves on by one
    /// unit, and the frame is stamped with where it stands after that.
    pub fn get_video_frame(&mut self) -> (frame: Option<VideoFrame>)
        requires
            old(self).ready(),
        ensures
            frame is Some <==> due(old(self).next_pts as int, old(self).time_base),
            frame is Some <==> old(self).next_pts * old(self).time_base.num <= 10 * old(
                self,
            ).time_base.den,
            frame matches Some(frame) ==> final(self).gave_frame(*old(self), frame),
            frame is None ==> *final(self) == *old(self),
            frame matches Some(frame) ==> {
                &&& frame.pts == old(self).next_pts + 1
                &&& frame.conversion == if old(self).format != PixelFormat::Yuv420p {
                    Conversion::Scale { make_scaler: !old(self).has_scaler }
                } else {
                    Conversion::Direct
                }
                &&& final(self).next_pts == frame.pts
                &&& final(self).has_scaler == (old(self).has_scaler || old(self).format
                    != PixelFormat::Yuv420p)
                &&& final(self).canvas.shows(
                    old(self).canvas,
                    old(self).next_pts as int,
                    old(self).width,
                    old(self).height,
                )
                &&& final(self).time_base == old(self).time_base
                &&& final(self).format == old(self).format
                &&& final(self).width == old(self).width
                &&& final(self).height == old(self).height
            },
            old(self).time_base.positive() ==> final(self).ready(),
    {
        if !frame_due(self.next_pts, self.time_base) {
            return None;
        }
        let mut conversion = Conversion::Direct;
        if self.format != PixelFormat::Yuv420p {
            conversion = Conversion::Scale { make_scaler: !self.has_scaler };
            self.has_scaler = true;
        }
        let width: usize = self.width;
        let height: usize = self.height;
        fill_yuv_image(&mut self.canvas, self.next_pts, width, height);
        self.next_pts += 1;
        proof {
            if self.time_base.positive() && due(self.next_pts as int, self.time_base) {
                lemma_due_bounded(self.next_pts as int, self.time_base);
            }
        }
        Some(VideoFrame { pts: self.next_pts, conversion })
    }
}

/// An audio stream: what its frames are made from, and how far it is.
#[derive(Debug)]
pub struct AudioOutput {
    pub next_pts: i64,
    pub time_base: Rational,
    pub sample_rate: i32,
    pub channels: i32,
    /// The samples of one frame.
    pub nb_samples: i32,
    /// The samples that were handed to the encoder.
    pub samples_count: i32,
    /// The buffer that is played into.
    pub tmp_data: Vec<u8>,
}

/// The bytes that stand for some sines that were cut to integers.
pub open spec fn sine_bytes(sines: Seq<i32>) -> Seq<u8> {
    Seq::new(sines.len(), |j: int| ((sines[j] * 10000) % 256) as u8)
}

impl AudioOutput {
    /// If a frame is due, there is room for it and a number after it.
    pub open spec fn ready(self) -> bool {
        due(self.next_pts as int, self.time_base) ==> {
            &&& self.next_pts + self.nb_samples <= i64::MAX
            &&& self.next_pts + self.nb_samples >= i64::MIN
            &&& self.nb_samples > 0 && self.channels > 0 ==> self.nb_samples * self.channels
                <= self.tmp_data@.len()
        }
    }

    /// The stream has given out and stamped nothing.
    pub open spec fn is_fresh(self) -> bool {
        self.next_pts == 0 && self.samples_count == 0
    }

    /// The stream played `sines` into a frame that begins at `pts`, where it stood
    /// `before`, and stands as many units after that as the frame has samples.
    pub open spec fn gave_frame(self, before: Self, pts: i64, sines: Seq<i32>) -> bool {
        &&& due(before.next_pts as int, before.time_base)
        &&& pts == before.next_pts
        &&& self.next_pts == before.next_pts + before.nb_samples
        &&& self.tmp_data@ == interleaved(
            before.tmp_data@,
            sine_bytes(sines),
            before.channels as int,
        )
        &&& self.time_base == before.time_base
        &&& self.sample_rate == before.sample_rate
        &&& self.channels == before.channels
        &&& self.nb_samples == before.nb_samples
        &&& self.samples_count == before.samples_count
    }

    /// The stream stamped a frame with `pts` and counted its samples, while the
    /// resampler held `delay` samples back.
    pub open spec fn stamped(self, before: Self, pts: i64, delay: int) -> bool {
        &&& pts == played_at(
            before.samples_count as int,
            before.sample_rate as int,
            before.time_base,
        )
        &&& self.samples_count == before.samples_count + delay + before.nb_samples
        &&& self.time_base == before.time_base
        &&& self.sample_rate == before.sample_rate
        &&& self.nb_samples == before.nb_samples
    }

    /// A stream that has given out no frame yet.
    pub fn new(
        time_base: Rational,
        sample_rate: i32,
        channels: i32,
        nb_samples: i32,
        tmp_data: Vec<u8>,
    ) -> (output: Self)
        ensures
            output == (AudioOutput {
                next_pts: 0,
                time_base,
                sample_rate,
                channels,
                nb_samples,
                samples_count: 0,
                tmp_data,
            }),
            output.is_fresh(),
    {
        AudioOutput {
            next_pts: 0,
            time_base,
            sample_rate,
            channels,
            nb_samples,
            samples_count: 0,
            tmp_data,
        }
    }

    /// Plays the next frame, given the sine of each of its samples cut to an
    /// integer, and says when it begins; `None` once the stream has passed its
    /// end.
    pub fn get_audio_frame(&mut self, sines: &Vec<i32>) -> (pts: Option<i64>)
        requires
            old(self).ready(),
            due(old(self).next_pts as int, old(self).time_base) ==> sines@.len() == if old(
                self,
            ).nb_samples > 0 {
                old(self).nb_samples as int
            } else {
                0
            },
            forall|j: int| 0 <= j < sines@.len() ==> -214748 <= #[trigger] sines@[j] <= 214748,
        ensures
            pts is Some <==> due(old(self).next_pts as int, old(self).time_base),
            pts is Some <==> old(self).next_pts * old(self).time_base.num <= 10 * old(
                self,
            ).time_base.den,
            pts matches Some(pts) ==> final(self).gave_frame(*old(self), pts, sines@),
            pts is Some ==> final(self).tmp_data@.len() == old(self).tmp_data@.len(),
            pts is Some ==> forall|k: int|
                0 <= k < old(self).tmp_data@.len() ==> #[trigger] final(self).tmp_data@[k]
                    == if old(self).channels > 0 && k < sines@.len() * old(self).channels {
                    (sines@[k / old(self).channels as int] * 10000) % 256
                } else {
                    old(self).tmp_data@[k] as int
                },
            pts is None ==> *final(self) == *old(self),
            pts matches Some(pts) ==> {
                &&& pts == old(self).next_pts
                &&& final(self).next_pts == old(self).next_pts + old(self).nb_samples
                &&& final(self).tmp_data@ == interleaved(
                    old(self).tmp_data@,
                    sine_bytes(sines@),
                    old(self).channels as int,
                )
                &&& final(self).time_base == old(self).time_base
                &&& final(self).sample_rate == old(self).sample_rate
                &&& final(self).channels == old(self).channels
                &&& final(self).nb_samples == old(self).nb_samples
                &&& final(self).samples_count == old(self).samples_count
            },
            old(self).time_base.positive() && old(self).nb_samples >= 0 ==> final(self).ready(),
    {
        if !frame_due(self.next_pts, self.time_base) {
            return None;
        }
        let mut samples: Vec<u8> = Vec::new();
        let mut j: usize = 0;
        while j < sines.len()
            invariant
                j <= sines.len(),
                forall|j: int|
                    0 <= j < sines@.len() ==> -214748 <= #[trigger] sines@[j] <= 214748,
                samples@ == sine_bytes(sines@.take(j as int)),
            decreases sines.len() - j,
        {
            samples.push(sine_byte(sines[j]));
            j += 1;
            assert(samples@ =~= sine_bytes(sines@.take(j as int)));
        }
        assert(sines@.take(j as int) =~= sines@);
        let channels: i32 = self.channels;
        assert(channels > 0 ==> samples@.len() * channels <= self.tmp_data@.len()) by {
            if self.nb_samples <= 0 {
                assert(samples@.len() == 0);
                assert(0 * channels == 0) by (nonlinear_arith);
            }
        }
        interleave(&mut self.tmp_data, &samples, channels);
        let pts: i64 = self.next_pts;
        self.next_pts += self.nb_samples as i64;
        proof {
            assert forall|k: int|
                0 <= k < self.tmp_data@.len() && channels > 0 && k < sines@.len()
                    * channels implies #[trigger] self.tmp_data@[k] == (sines@[k / channels as int]
                * 10000) % 256 by {
                let j = k / channels as int;
                assert(0 <= j < sines@.len()) by (nonlinear_arith)
                    requires
                        j == k / channels as int,
                        0 <= k < sines@.len() * channels,
                        channels > 0,
                ;
                lemma_sine_byte(sines@, j);
            }
            if self.time_base.positive() && due(self.next_pts as int, self.time_base) {
                lemma_due_bounded(self.next_pts as int, self.time_base);
            }
        }
        Some(pts)
    }

    /// How many samples the resampler gives out for a frame: it keeps the rate,
    /// so it is those of the frame and those that it holds back.
    pub fn converted_samples(&self, delay: i64) -> (samples: i64)
        requires
            i64::MIN <= delay + self.nb_samples <= i64::MAX,
        ensures
            samples == delay + self.nb_samples,
    {
        delay + self.nb_samples as i64
    }

    /// Says when the frame begins that goes to the encoder next, and counts its
    /// samples: those that the resampler gives out for a frame while it holds
    /// `delay` samples back.
    pub fn stamp_converted(&mut self, delay: i64) -> (pts: i64)
        requires
            old(self).sample_rate > 0,
            old(self).time_base.positive(),
            i64::MIN <= delay + old(self).nb_samples <= i64::MAX,
            i32::MIN <= old(self).samples_count + ((delay + old(self).nb_samples) as i64) as i32
                <= i32::MAX,
        ensures
            pts == played_at(
                old(self).samples_count as int,
                old(self).sample_rate as int,
                old(self).time_base,
            ),
            final(self).samples_count == old(self).samples_count + ((delay + old(
                self,
            ).nb_samples) as i64) as i32,
            i32::MIN <= delay + old(self).nb_samples <= i32::MAX ==> final(self).stamped(
                *old(self),
                pts,
                delay as int,
            ),
            i32::MIN <= delay + old(self).nb_samples <= i32::MAX ==> final(self).samples_count
                == old(self).samples_count + delay + old(self).nb_samples,
            ({
                let unit = old(self).time_base.num * old(self).sample_rate;
                let error = pts * unit - old(self).samples_count * old(self).time_base.den;
                &&& -unit <= 2 * error <= unit
                &&& old(self).samples_count >= 0 ==> 2 * error > -unit
                &&& old(self).samples_count <= 0 ==> 2 * error < unit
            }),
            final(self).next_pts == old(self).next_pts,
            final(self).time_base == old(self).time_base,
            final(self).sample_rate == old(self).sample_rate,
            final(self).channels == old(self).channels,
            final(self).nb_samples == old(self).nb_samples,
            final(self).tmp_data == old(self).tmp_data,
    {
        proof {
            lemma_played_at(
                self.samples_count as int,
                self.sample_rate as int,
                self.time_base,
            );
        }
        let samples: i64 = self.converted_samples(delay);
        self.stamp_frame(samples)
    }

    /// Says when a frame of `samples` samples begins that goes to the encoder
    /// next, and counts its samples.
    fn stamp_frame(&mut self, samples: i64) -> (pts: i64)
        requires
            old(self).sample_rate > 0,
            old(self).time_base.positive(),
            i32::MIN <= old(self).samples_count + samples as i32 <= i32::MAX,
        ensures
            pts == played_at(
                old(self).samples_count as int,
                old(self).sample_rate as int,
                old(self).time_base,
            ),
            final(self).samples_count == old(self).samples_count + samples as i32,
            final(self).next_pts == old(self).next_pts,
            final(self).time_base == old(self).time_base,
            final(self).sample_rate == old(self).sample_rate,
            final(self).channels == old(self).channels,
            final(self).nb_samples == old(self).nb_samples,
            final(self).tmp_data == old(self).tmp_data,
    {
        let pts: i64 = sample_time(self.samples_count, self.sample_rate, self.time_base);
        self.samples_count += samples as i32;
        pts
    }
}

/// What a stream needs for its next frame, if it does not stand after ten seconds:
/// a number after its own, and room for the image in its picture.
pub proof fn lemma_video_ready(output: VideoOutput)
    ensures
        output.ready() <==> (output.next_pts * output.time_base.num <= 10 * output.time_base.den
            ==> output.next_pts < i64::MAX && output.canvas.holds(output.width, output.height)),
{
}

/// What a stream needs for its next frame, if it does not stand after ten seconds:
/// a number for the end of the frame, and a byte for each channel of each sample.
pub proof fn lemma_audio_ready(output: AudioOutput)
    ensures
        output.ready() <==> (output.next_pts * output.time_base.num <= 10 * output.time_base.den
            ==> i64::MIN <= output.next_pts + output.nb_samples <= i64::MAX && (
        output.nb_samples <= 0 || output.channels <= 0 || output.nb_samples * output.channels
            <= output.tmp_data@.len())),
{
}

/// The frames of a video stream from its start: the `k`-th moves it to `k`, is
/// stamped `k` and shows the image with the number `k - 1`. If the encoder takes
/// another format, each is converted, by a scaler that is made for the first.
pub proof fn lemma_video_frames(outputs: Seq<VideoOutput>, frames: Seq<VideoFrame>, k: int)
    requires
        0 <= k < outputs.len(),
        frames.len() == outputs.len(),
        outputs[0].is_fresh(),
        forall|i: int|
            0 < i < outputs.len() ==> (#[trigger] outputs[i]).gave_frame(
                outputs[i - 1],
                frames[i],
            ),
    ensures
        outputs[k].next_pts == k,
        outputs[k].time_base == outputs[0].time_base,
        outputs[k].format == outputs[0].format,
        outputs[k].width == outputs[0].width,
        outputs[k].height == outputs[0].height,
        outputs[k].has_scaler <==> k > 0 && outputs[0].format != PixelFormat::Yuv420p,
        k > 0 ==> frames[k].pts == k,
        k > 0 ==> frames[k].conversion == if outputs[0].format == PixelFormat::Yuv420p {
            Conversion::Direct
        } else {
            Conversion::Scale { make_scaler: k == 1 }
        },
        k > 0 ==> outputs[k].canvas.shows(
            outputs[k - 1].canvas,
            k - 1,
            outputs[0].width,
            outputs[0].height,
        ),
        k > 0 ==> (k - 1) * outputs[0].time_base.num <= 10 * outputs[0].time_base.den,
    decreases k,
{
    if k > 0 {
        lemma_video_frames(outputs, frames, k - 1);
        assert(outputs[k].gave_frame(outputs[k - 1], frames[k]));
    }
}

/// The frames of an audio stream from its start: each begins where the one before
/// it ended, so the `k`-th begins after `k - 1` times the samples of a frame.
pub proof fn lemma_audio_frames(
    outputs: Seq<AudioOutput>,
    stamps: Seq<i64>,
    sines: Seq<Seq<i32>>,
    k: int,
)
    requires
        0 <= k < outputs.len(),
        stamps.len() == outputs.len(),
        sines.len() == outputs.len(),
        outputs[0].is_fresh(),
        forall|i: int|
            0 < i < outputs.len() ==> (#[trigger] outputs[i]).gave_frame(
                outputs[i - 1],
                stamps[i],
                sines[i],
            ),
    ensures
        outputs[k].next_pts == k * outputs[0].nb_samples,
        outputs[k].nb_samples == outputs[0].nb_samples,
        outputs[k].channels == outputs[0].channels,
        outputs[k].time_base == outputs[0].time_base,
        outputs[k].samples_count == outputs[0].samples_count,
        k > 0 ==> stamps[k] == (k - 1) * outputs[0].nb_samples,
        k > 0 ==> outputs[k].tmp_data@ == interleaved(
            outputs[k - 1].tmp_data@,
            sine_bytes(sines[k]),
            outputs[0].channels as int,
        ),
    decreases k,
{
    if k > 0 {
        lemma_audio_frames(outputs, stamps, sines, k - 1);
        assert(outputs[k].gave_frame(outputs[k - 1], stamps[k], sines[k]));
        let n = outputs[0].nb_samples as int;
        assert((k - 1) * n + n == k * n) by (nonlinear_arith);
    }
}

/// The stamps of converted frames: where the resampler holds nothing back, the
/// `k`-th frame from the start is stamped with the time of the first sample after
/// `k - 1` frames.
pub proof fn lemma_converted_stamps(outputs: Seq<AudioOutput>, stamps: Seq<i64>, k: int)
    requires
        0 <= k < outputs.len(),
        stamps.len() == outputs.len(),
        outputs[0].is_fresh(),
        forall|i: int|
            0 < i < outputs.len() ==> (#[trigger] outputs[i]).stamped(
                outputs[i - 1],
                stamps[i],
                0,
            ),
    ensures
        outputs[k].samples_count == k * outputs[0].nb_samples,
        outputs[k].nb_samples == outputs[0].nb_samples,
        outputs[k].sample_rate == outputs[0].sample_rate,
        outputs[k].time_base == outputs[0].time_base,
        k > 0 ==> stamps[k] == played_at(
            (k - 1) * outputs[0].nb_samples,
            outputs[0].sample_rate as int,
            outputs[0].time_base,
        ),
    decreases k,
{
    if k > 0 {
        lemma_converted_stamps(outputs, stamps, k - 1);
        assert(outputs[k].stamped(outputs[k - 1], stamps[k], 0));
        let n = outputs[0].nb_samples as int;
        assert((k - 1) * n + n == k * n) by (nonlinear_arith);
    }
}

/// The bytes of sines count them in steps of sixteen: zero for no sine, and sixteen more, past the end of a byte from the start again, for each
/// unit of it.
pub proof fn lemma_sine_bytes(sines: Seq<i32>, j: int, i: int)
    requires
        0 <= j < sines.len(),
        0 <= i < sines.len(),
    ensures
        sine_bytes(sines).len() == sines.len(),
        sines[j] == 0 ==> sine_bytes(sines)[j] == 0,
        sines[i] == sines[j] + 1 ==> sine_bytes(sines)[i] == (sine_bytes(sines)[j] + 16) % 256,
{
    lemma_sine_byte(sines, j);
    lemma_sine_byte(sines, i);
    lemma_sine_step(sines[j] * 10000);
}

/// What one unit of a sine adds to its byte.
proof fn lemma_sine_step(product: int)
    ensures
        (product + 10000) % 256 == (product % 256 + 16) % 256,
{
    let (quotient, remainder) = (product / 256, product % 256);
    assert(product + 10000 == 256 * (quotient + 39) + (remainder + 16));
}

/// The byte of a sine is the low byte of ten thousand times the sine.
pub proof fn lemma_sine_byte(sines: Seq<i32>, j: int)
    requires
        0 <= j < sines.len(),
    ensures
        sine_bytes(sines)[j] == (sines[j] * 10000) % 256,
{
    vstd::arithmetic::div_mod::lemma_mod_bound(sines[j] * 10000, 256);
}

/// The frames of an audio stream follow each other without a gap: in a time base
/// of one unit per sample, a frame begins as many units after the frame before
/// it as that frame has samples.
pub proof fn lemma_audio_gapless(samples_count: int, samples: int, sample_rate: i32)
    requires
        sample_rate > 0,
    ensures
        ({
            let time_base = Rational { num: 1, den: sample_rate };
            played_at(samples_count + samples, sample_rate as int, time_base) == played_at(
                samples_count,
                sample_rate as int,
                time_base,
            ) + samples
        }),
{
    lemma_sample_clock(samples_count + samples, sample_rate as int);
    lemma_sample_clock(samples_count, sample_rate as int);
}

/// Whether the file is opened by this program: a container opens its own where
/// its flags share a bit with `no_file_flag`.
pub fn opens_file(format_flags: i32, no_file_flag: i32) -> (opens: bool)
    ensures
        opens == (format_flags & no_file_flag == 0),
        opens == !shares_bit(format_flags, no_file_flag),
{
    (format_flags & no_file_flag) == 0
}

} // verus!
