//! How the two encoders are configured.

use vstd::prelude::*;

use crate::time::Rational;

verus! {

/// The pixel format that the encoder of the video stream is asked for, and in
/// which the pictures are drawn.
pub const STREAM_FORMAT: PixelFormat = PixelFormat::Yuv420p;

/// The sample rate that an audio encoder is asked for where it has the choice.
pub const PREFERRED_RATE: i32 = 44100;

/// The channel layout of front left and front right.
pub const STEREO: u64 = 0x3;

/// A codec, as far as its configuration depends on which one it is.
#[derive(Debug, Clone, Copy, PartialEq, Eq, Structural)]
pub enum CodecId {
    /// No codec: the container has no stream of the kind in question.
    Absent,
    Mpeg1Video,
    Mpeg2Video,
    /// Any other codec, by its number.
    Other(u32),
}

/// A pixel format: the one that the pictures are drawn in, or any other, by its
/// number.
#[derive(Debug, Clone, Copy, PartialEq, Eq, Structural)]
pub enum PixelFormat {
    Yuv420p,
    Other(i32),
}

/// Whether the samples of the channels alternate in one plane or fill a plane
/// each.
#[derive(Debug, Clone, Copy, PartialEq, Eq, Structural)]
pub enum SampleLayout {
    Packed,
    Planar,
}

/// The type of an audio sample.
#[derive(Debug, Clone, Copy, PartialEq, Eq, Structural)]
pub enum SampleFormat {
    Unset,
    U8(SampleLayout),
    I16(SampleLayout),
    I32(SampleLayout),
    I64(SampleLayout),
    F32(SampleLayout),
    F64(SampleLayout),
}

/// How an encoder picks the mode of a macroblock.
#[derive(Debug, Clone, Copy, PartialEq, Eq, Structural)]
pub enum Decision {
    Simple,
    Bits,
    RateDistortion,
}

/// What the user asks of the video stream.
#[derive(Debug, Clone, Copy, PartialEq, Eq, Structural)]
pub struct VideoParams {
    pub fps: i32,
    pub width: u32,
    pub height: u32,
    pub bit_rate: usize,
}

/// What is asked of the video stream.
pub open spec fn default_params() -> VideoParams {
    VideoParams { fps: 25, width: 352, height: 288, bit_rate: 400_000 }
}

impl Default for VideoParams {
    /// What is asked of the video stream: 25 pictures of 352 by 288 pixels a
    /// second, in 400 kbit/s.
    fn default() -> (params: Self)
        ensures
            params == default_params(),
            params.fps == 25,
            params.width == 352,
            params.height == 288,
            params.bit_rate == 400_000,
    {
        VideoParams { fps: 25, width: 352, height: 288, bit_rate: 400_000 }
    }
}

/// The configuration of a video encoder and its stream. What is `None` is left
/// at the codec's own value.
#[derive(Debug, Clone, Copy, PartialEq, Eq, Structural)]
pub struct VideoSettings {
    pub codec_id: CodecId,
    pub bit_rate: usize,
    pub width: u32,
    pub height: u32,
    /// The time base of the stream and of the encoder.
    pub time_base: Rational,
    pub gop: u32,
    pub format: PixelFormat,
    pub max_b_frames: Option<usize>,
    pub mb_decision: Option<Decision>,
    /// Whether the stream headers go into the container instead of each
    /// key frame.
    pub global_header: bool,
}

/// The configuration of an audio encoder and its stream.
#[derive(Debug, Clone, Copy, PartialEq, Eq, Structural)]
pub struct AudioSettings {
    pub format: SampleFormat,
    pub bit_rate: usize,
    pub rate: i32,
    pub channel_layout: u64,
    /// The time base of the stream.
    pub time_base: Rational,
    pub global_header: bool,
}

/// The configuration of a video encoder. A group of pictures is twelve frames
/// long; MPEG-2 may have two B-frames in a row, and MPEG-1 has its macroblock
/// modes picked by rate and distortion.
pub open spec fn video_settings(
    codec_id: CodecId,
    params: VideoParams,
    global_header: bool,
) -> VideoSettings {
    VideoSettings {
        codec_id,
        bit_rate: params.bit_rate,
        width: params.width,
        height: params.height,
        time_base: Rational { num: 1, den: params.fps },
        gop: 12,
        format: PixelFormat::Yuv420p,
        max_b_frames: if codec_id == CodecId::Mpeg2Video {
            Some(2)
        } else {
            None
        },
        mb_decision: if codec_id == CodecId::Mpeg1Video {
            Some(Decision::RateDistortion)
        } else {
            None
        },
        global_header,
    }
}

/// The configuration of an audio encoder with the given sample format, rate and
/// channel layout: 64 kbit/s, one unit of time per sample.
pub open spec fn audio_settings(
    format: SampleFormat,
    rate: i32,
    channel_layout: u64,
    global_header: bool,
) -> AudioSettings {
    AudioSettings {
        format,
        bit_rate: 64000,
        rate,
        channel_layout,
        time_base: Rational { num: 1, den: rate },
        global_header,
    }
}

/// Configures a video encoder and its stream.
pub fn prepare_video_encoder(codec_id: CodecId, video_params: &VideoParams) -> (settings:
    VideoSettings)
    ensures
        settings == video_settings(codec_id, *video_params, true),
        settings.codec_id == codec_id,
        settings.bit_rate == video_params.bit_rate,
        settings.width == video_params.width,
        settings.height == video_params.height,
        settings.time_base.num == 1,
        settings.time_base.den == video_params.fps,
        settings.gop == 12,
        settings.format == PixelFormat::Yuv420p,
        codec_id == CodecId::Mpeg2Video ==> settings.max_b_frames == Some(2usize),
        codec_id != CodecId::Mpeg2Video ==> settings.max_b_frames is None,
        codec_id == CodecId::Mpeg1Video ==> settings.mb_decision == Some(Decision::RateDistortion),
        codec_id != CodecId::Mpeg1Video ==> settings.mb_decision is None,
        settings.global_header,
{
    configure_video(codec_id, video_params, true)
}

/// Configures a video encoder and its stream; `global_header` says where the
/// stream headers go.
pub(crate) fn configure_video(
    codec_id: CodecId,
    video_params: &VideoParams,
    global_header: bool,
) -> (settings: VideoSettings)
    ensures
        settings == video_settings(codec_id, *video_params, global_header),
        settings.codec_id == codec_id,
        settings.bit_rate == video_params.bit_rate,
        settings.width == video_params.width,
        settings.height == video_params.height,
        settings.time_base.num == 1,
        settings.time_base.den == video_params.fps,
        settings.gop == 12,
        settings.format == PixelFormat::Yuv420p,
        codec_id == CodecId::Mpeg2Video ==> settings.max_b_frames == Some(2usize),
        codec_id != CodecId::Mpeg2Video ==> settings.max_b_frames is None,
        codec_id == CodecId::Mpeg1Video ==> settings.mb_decision == Some(Decision::RateDistortion),
        codec_id != CodecId::Mpeg1Video ==> settings.mb_decision is None,
        settings.global_header == global_header,
{
    let mut settings = VideoSettings {
        codec_id,
        bit_rate: video_params.bit_rate,
        width: video_params.width,
        height: video_params.height,
        time_base: Rational { num: 1, den: video_params.fps },
        gop: 12,
        format: STREAM_FORMAT,
        max_b_frames: None,
        mb_decision: None,
        global_header,
    };
    if codec_id == CodecId::Mpeg2Video {
        settings.max_b_frames = Some(2);
    }
    if codec_id == CodecId::Mpeg1Video {
        settings.mb_decision = Some(Decision::RateDistortion);
    }
    settings
}

/// The wanted entry of a list if the list has it, else the first entry.
pub open spec fn preferred<T>(list: Seq<T>, wanted: T) -> T {
    if list.contains(wanted) {
        wanted
    } else {
        list[0]
    }
}

/// Picks a sample rate from those that a codec supports.
pub fn choose_rate(rates: &Vec<i32>) -> (rate: i32)
    requires
        rates@.len() > 0,
    ensures
        rate == preferred(rates@, PREFERRED_RATE),
        rates@.contains(44100) ==> rate == 44100,
        !rates@.contains(44100) ==> rate == rates@[0],
{
    let mut rate: i32 = rates[0];
    let mut i: usize = 1;
    while i < rates.len()
        invariant
            1 <= i <= rates.len(),
            rate == preferred(rates@.take(i as int), PREFERRED_RATE),
        decreases rates.len() - i,
    {
        proof {
            lemma_preferred_next(rates@, PREFERRED_RATE, i as int);
        }
        if rates[i] == PREFERRED_RATE {
            rate = PREFERRED_RATE;
        }
        i += 1;
    }
    assert(rates@.take(i as int) =~= rates@);
    rate
}

/// Picks a channel layout from those that a codec supports.
pub fn choose_channel_layout(layouts: &Vec<u64>) -> (layout: u64)
    requires
        layouts@.len() > 0,
    ensures
        layout == preferred(layouts@, STEREO),
        layouts@.contains(0x3) ==> layout == 0x3,
        !layouts@.contains(0x3) ==> layout == layouts@[0],
{
    let mut layout: u64 = layouts[0];
    let mut i: usize = 1;
    while i < layouts.len()
        invariant
            1 <= i <= layouts.len(),
            layout == preferred(layouts@.take(i as int), STEREO),
        decreases layouts.len() - i,
    {
        proof {
            lemma_preferred_next(layouts@, STEREO, i as int);
        }
        if layouts[i] == STEREO {
            layout = STEREO;
        }
        i += 1;
    }
    assert(layouts@.take(i as int) =~= layouts@);
    layout
}

/// The sample format that an audio encoder is opened with: the first that the
/// codec supports, or planar floats where it names none.
pub open spec fn chosen_format(formats: Option<Vec<SampleFormat>>) -> SampleFormat {
    match formats {
        Some(formats) => formats@[0],
        None => SampleFormat::F32(SampleLayout::Planar),
    }
}

/// The sample rate that an audio encoder is opened with.
pub open spec fn chosen_rate(rates: Option<Vec<i32>>) -> i32 {
    match rates {
        Some(rates) => preferred(rates@, PREFERRED_RATE),
        None => PREFERRED_RATE,
    }
}

/// The channel layout that an audio encoder is opened with.
pub open spec fn chosen_layout(layouts: Option<Vec<u64>>) -> u64 {
    match layouts {
        Some(layouts) => preferred(layouts@, STEREO),
        None => STEREO,
    }
}

/// Configures an audio encoder and its stream, given what the codec says that
/// it supports: a list that is there has an entry, and `None` is a codec that
/// does not say.
pub fn prepare_audio_encoder(
    formats: &Option<Vec<SampleFormat>>,
    rates: &Option<Vec<i32>>,
    channel_layouts: &Option<Vec<u64>>,
) -> (settings: AudioSettings)
    requires
        *formats matches Some(list) ==> list@.len() > 0,
        *rates matches Some(list) ==> list@.len() > 0,
        *channel_layouts matches Some(list) ==> list@.len() > 0,
    ensures
        settings == audio_settings(
            chosen_format(*formats),
            chosen_rate(*rates),
            chosen_layout(*channel_layouts),
            true,
        ),
        *formats matches Some(list) ==> settings.format == list@[0],
        *formats is None ==> settings.format == SampleFormat::F32(SampleLayout::Planar),
        *rates matches Some(list) ==> if list@.contains(44100) {
            settings.rate == 44100
        } else {
            settings.rate == list@[0]
        },
        *rates is None ==> settings.rate == 44100,
        *channel_layouts matches Some(list) ==> if list@.contains(0x3) {
            settings.channel_layout == 0x3
        } else {
            settings.channel_layout == list@[0]
        },
        *channel_layouts is None ==> settings.channel_layout == 0x3,
        settings.bit_rate == 64000,
        settings.time_base.num == 1,
        settings.time_base.den == settings.rate,
        settings.global_header,
{
    let format = match formats {
        Some(list) => list[0],
        None => SampleFormat::F32(SampleLayout::Planar),
    };
    let rate: i32 = match rates {
        Some(list) => choose_rate(list),
        None => PREFERRED_RATE,
    };
    let channel_layout: u64 = match channel_layouts {
        Some(list) => choose_channel_layout(list),
        None => STEREO,
    };
    configure_audio(format, rate, channel_layout, true)
}

/// Configures an audio encoder with the given sample format, rate and channel
/// layout.
pub(crate) fn configure_audio(
    format: SampleFormat,
    rate: i32,
    channel_layout: u64,
    global_header: bool,
) -> (settings: AudioSettings)
    ensures
        settings == audio_settings(format, rate, channel_layout, global_header),
        settings.format == format,
        settings.bit_rate == 64000,
        settings.rate == rate,
        settings.channel_layout == channel_layout,
        settings.time_base.num == 1,
        settings.time_base.den == rate,
        settings.global_header == global_header,
{
    AudioSettings {
        format,
        bit_rate: 64000,
        rate,
        channel_layout,
        time_base: Rational { num: 1, den: rate },
        global_header,
    }
}

/// What one more entry of a list changes.
proof fn lemma_preferred_next<T>(list: Seq<T>, wanted: T, i: int)
    requires
        0 < i < list.len(),
    ensures
        preferred(list.take(i + 1), wanted) == if list[i] == wanted {
            wanted
        } else {
            preferred(list.take(i), wanted)
        },
{
    let shorter = list.take(i);
    let longer = list.take(i + 1);
    assert(longer[i] == list[i]);
    if shorter.contains(wanted) {
        let j = choose|j: int| 0 <= j < shorter.len() && shorter[j] == wanted;
        assert(longer[j] == wanted);
    } else if longer.contains(wanted) {
        let j = choose|j: int| 0 <= j < longer.len() && longer[j] == wanted;
        if j < i {
            assert(shorter[j] == wanted);
        }
    }
}

/// A video encoder is configured as it was asked for, whichever codec it is for:
/// one unit of its time base lasts one picture, and the size and the bit rate are
/// those of the parameters.
pub proof fn lemma_video_as_asked(codec_id: CodecId, params: VideoParams, global_header: bool)
    ensures
        ({
            let settings = video_settings(codec_id, params, global_header);
            &&& settings.codec_id == codec_id
            &&& settings.time_base.num == 1
            &&& settings.time_base.den == params.fps
            &&& settings.width == params.width
            &&& settings.height == params.height
            &&& settings.bit_rate == params.bit_rate
            &&& settings.gop == 12
            &&& settings.format == PixelFormat::Yuv420p
            &&& settings.global_header == global_header
        }),
{
}

/// Two codecs are configured alike but for the B-frames of MPEG-2, of which two
/// may follow each other, and the macroblock modes of MPEG-1, which are picked by
/// rate and distortion; every other codec keeps its own values.
pub proof fn lemma_video_codecs_alike(
    first: CodecId,
    second: CodecId,
    params: VideoParams,
    global_header: bool,
)
    ensures
        ({
            let a = video_settings(first, params, global_header);
            let b = video_settings(second, params, global_header);
            &&& b == VideoSettings {
                codec_id: second,
                max_b_frames: b.max_b_frames,
                mb_decision: b.mb_decision,
                ..a
            }
            &&& a.max_b_frames is Some <==> first == CodecId::Mpeg2Video
            &&& a.max_b_frames matches Some(frames) ==> frames == 2
            &&& a.mb_decision is Some <==> first == CodecId::Mpeg1Video
            &&& a.mb_decision matches Some(decision) ==> decision == Decision::RateDistortion
        }),
{
}

/// The parameters that are asked for by default: 25 pictures a second, of 352 by
/// 288 pixels, in 400 kbit/s.
pub proof fn lemma_default_params()
    ensures
        default_params().fps == 25,
        default_params().width == 352,
        default_params().height == 288,
        default_params().bit_rate == 400_000,
{
}

/// An audio encoder is configured with the format, the rate and the layout that
/// were chosen, in 64 kbit/s, and one unit of its time base lasts one sample.
pub proof fn lemma_audio_as_chosen(
    format: SampleFormat,
    rate: i32,
    layout: u64,
    global_header: bool,
)
    ensures
        ({
            let settings = audio_settings(format, rate, layout, global_header);
            &&& settings.format == format
            &&& settings.bit_rate == 64000
            &&& settings.rate == rate
            &&& settings.channel_layout == layout
            &&& settings.time_base.num == 1
            &&& settings.time_base.den == rate
            &&& settings.global_header == global_header
        }),
{
}

/// A codec that supports 44100 samples a second, or that does not say what it
/// supports, gets that rate, wherever in the list it stands; any other codec gets
/// the first rate of its list. The same holds of the stereo layout.
pub proof fn lemma_choice_preferred(rates: Vec<i32>, layouts: Vec<u64>, i: int)
    ensures
        0 <= i < rates@.len() && rates@[i] == 44100 ==> chosen_rate(Some(rates)) == 44100,
        !rates@.contains(44100) ==> chosen_rate(Some(rates)) == rates@[0],
        chosen_rate(None) == 44100,
        0 <= i < layouts@.len() && layouts@[i] == 0x3 ==> chosen_layout(Some(layouts)) == 0x3,
        !layouts@.contains(0x3) ==> chosen_layout(Some(layouts)) == layouts@[0],
        chosen_layout(None) == 0x3,
{
}

/// The first sample format of a codec's list is taken, and planar floats where
/// there is no list.
pub proof fn lemma_choice_of_format(formats: Vec<SampleFormat>)
    ensures
        chosen_format(Some(formats)) == formats@[0],
        chosen_format(None) == SampleFormat::F32(SampleLayout::Planar),
{
}

/// The order in which a codec names the entries behind the first does not matter:
/// two lists with the same entries, and the same first one, give the same choice.
pub proof fn lemma_choice_without_order<T>(list: Seq<T>, other: Seq<T>, wanted: T)
    requires
        list[0] == other[0],
        forall|entry: T| list.contains(entry) <==> other.contains(entry),
    ensures
        preferred(list, wanted) == preferred(other, wanted),
{
}

/// The wanted entry is chosen exactly if the list has it, and else the first.
pub proof fn lemma_preferred<T>(list: Seq<T>, wanted: T, i: int)
    requires
        0 <= i < list.len(),
    ensures
        list[i] == wanted ==> preferred(list, wanted) == wanted,
        preferred(list, wanted) != wanted ==> preferred(list, wanted) == list[0] && list[i]
            != wanted,
        list.contains(preferred(list, wanted)),
{
    assert(list.contains(list[0]));
}

/// An encoder is never opened with a sample rate, a channel layout or a sample
/// format that its codec does not support.
pub proof fn lemma_choice_supported(
    formats: Vec<SampleFormat>,
    rates: Vec<i32>,
    layouts: Vec<u64>,
)
    requires
        formats@.len() > 0,
        rates@.len() > 0,
        layouts@.len() > 0,
    ensures
        formats@.contains(chosen_format(Some(formats))),
        rates@.contains(chosen_rate(Some(rates))),
        layouts@.contains(chosen_layout(Some(layouts))),
{
    assert(formats@[0] == chosen_format(Some(formats)));
}

} // verus!
