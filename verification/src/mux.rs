//! Which of the two streams is written next.

use vstd::prelude::*;

use crate::codec::CodecId;
use crate::time::{
    compare_ts, lemma_compare_antisymmetric, lemma_compare_by_time, lemma_compare_same_base,
    lemma_compare_transitive, Timestamp,
};

verus! {

/// One of the two streams.
#[derive(Debug, Clone, Copy, PartialEq, Eq, Structural)]
pub enum Turn {
    Video,
    Audio,
}

/// Which streams are still being written.
#[derive(Debug, Clone, Copy, PartialEq, Eq, Structural)]
pub struct Muxer {
    pub encode_video: bool,
    pub encode_audio: bool,
}

impl Turn {
    /// What belongs to the stream, of what belongs to the two.
    pub open spec fn pick(self, video: Timestamp, audio: Timestamp) -> Timestamp {
        match self {
            Turn::Video => video,
            Turn::Audio => audio,
        }
    }
}

impl Muxer {
    /// The stream whose turn it is: the one that is behind, or the video stream
    /// where both are at the same point in time. A stream that is written alone
    /// always has its turn.
    pub open spec fn turn(self, video: Timestamp, audio: Timestamp) -> Option<Turn> {
        if self.encode_video && self.encode_audio {
            if video.lead(audio) <= 0 {
                Some(Turn::Video)
            } else {
                Some(Turn::Audio)
            }
        } else if self.encode_video {
            Some(Turn::Video)
        } else if self.encode_audio {
            Some(Turn::Audio)
        } else {
            None
        }
    }

    /// The streams after one of them had its turn.
    pub open spec fn after_turn(self, turn: Turn, more: bool) -> Muxer {
        match turn {
            Turn::Video => Muxer { encode_video: more, ..self },
            Turn::Audio => Muxer { encode_audio: more, ..self },
        }
    }

    /// The streams for which there is a codec.
    pub open spec fn with_codecs(video_codec: CodecId, audio_codec: CodecId) -> Muxer {
        Muxer {
            encode_video: video_codec != CodecId::Absent,
            encode_audio: audio_codec != CodecId::Absent,
        }
    }

    /// Both streams.
    pub open spec fn both() -> Muxer {
        Muxer { encode_video: true, encode_audio: true }
    }

    /// Both streams are to be written.
    pub fn new() -> (muxer: Self)
        ensures
            muxer == (Muxer { encode_video: true, encode_audio: true }),
            muxer == Muxer::both(),
    {
        Muxer { encode_video: true, encode_audio: true }
    }

    /// The streams for which the container has a codec are to be written.
    pub fn for_codecs(video_codec: CodecId, audio_codec: CodecId) -> (muxer: Self)
        ensures
            muxer == (Muxer {
                encode_video: video_codec != CodecId::Absent,
                encode_audio: audio_codec != CodecId::Absent,
            }),
            muxer == Muxer::with_codecs(video_codec, audio_codec),
    {
        Muxer {
            encode_video: video_codec != CodecId::Absent,
            encode_audio: audio_codec != CodecId::Absent,
        }
    }

    /// The stream to be written next, given where each stream stands; `None` when
    /// both are done. Where they stand matters only if both streams are still
    /// being written.
    pub fn next_turn(&self, video: Timestamp, audio: Timestamp) -> (turn: Option<Turn>)
        ensures
            turn == self.turn(video, audio),
            turn is None <==> !self.encode_video && !self.encode_audio,
            self.encode_video && !self.encode_audio ==> turn == Some(Turn::Video),
            !self.encode_video && self.encode_audio ==> turn == Some(Turn::Audio),
            self.encode_video && self.encode_audio ==> {
                let video_time = video.pts * (video.time_base.num * audio.time_base.den);
                let audio_time = audio.pts * (audio.time_base.num * video.time_base.den);
                turn == Some(
                    if video_time <= audio_time {
                        Turn::Video
                    } else {
                        Turn::Audio
                    },
                )
            },
    {
        if !self.encode_audio && !self.encode_video {
            return None;
        }
        if self.encode_video && (!self.encode_audio || compare_ts(video, audio) <= 0) {
            Some(Turn::Video)
        } else {
            Some(Turn::Audio)
        }
    }

    /// Notes that a stream had its turn, and whether there is more of it.
    pub fn record(&mut self, turn: Turn, more: bool)
        ensures
            *final(self) == old(self).after_turn(turn, more),
            turn == Turn::Video ==> final(self).encode_video == more && final(self).encode_audio
                == old(self).encode_audio,
            turn == Turn::Audio ==> final(self).encode_audio == more && final(self).encode_video
                == old(self).encode_video,
    {
        match turn {
            Turn::Video => {
                self.encode_video = more;
            },
            Turn::Audio => {
                self.encode_audio = more;
            },
        }
    }
}

/// The turn always goes to a stream that is still being written.
pub proof fn lemma_turn_is_open(muxer: Muxer, video: Timestamp, audio: Timestamp)
    ensures
        muxer.turn(video, audio) == Some(Turn::Video) ==> muxer.encode_video,
        muxer.turn(video, audio) == Some(Turn::Audio) ==> muxer.encode_audio,
        muxer.turn(video, audio) is None <==> !muxer.encode_video && !muxer.encode_audio,
{
}

/// Where both streams are written, either has its turn when the other is ahead, and
/// the other goes on when it has ended.
pub proof fn lemma_both_have_turns(turn: Turn, video: Timestamp, audio: Timestamp)
    ensures
        video.lead(audio) < 0 ==> Muxer::both().turn(video, audio) == Some(Turn::Video),
        video.lead(audio) > 0 ==> Muxer::both().turn(video, audio) == Some(Turn::Audio),
        Muxer::both().after_turn(turn, false).turn(video, audio) == Some(
            match turn {
                Turn::Video => Turn::Audio,
                Turn::Audio => Turn::Video,
            },
        ),
{
}

/// A stream for which there is no codec never has a turn, and one for which there
/// is a codec, whichever it is, has every turn if there is none for the other.
pub proof fn lemma_codecs_have_turns(codec: CodecId, video: Timestamp, audio: Timestamp)
    ensures
        Muxer::with_codecs(CodecId::Absent, codec).turn(video, audio) == if codec
            == CodecId::Absent {
            None
        } else {
            Some(Turn::Audio)
        },
        Muxer::with_codecs(codec, CodecId::Absent).turn(video, audio) == if codec
            == CodecId::Absent {
            None
        } else {
            Some(Turn::Video)
        },
        codec != CodecId::Absent ==> forall|other: CodecId|
            (#[trigger] Muxer::with_codecs(codec, other)).encode_video
                && Muxer::with_codecs(codec, other).encode_audio == (other != CodecId::Absent),
{
}

/// A turn says of its own stream whether there is more of it, and leaves the
/// other stream as it was.
pub proof fn lemma_turn_is_its_own(muxer: Muxer, more: bool)
    ensures
        muxer.after_turn(Turn::Video, more).encode_video == more,
        muxer.after_turn(Turn::Video, more).encode_audio == muxer.encode_audio,
        muxer.after_turn(Turn::Audio, more).encode_audio == more,
        muxer.after_turn(Turn::Audio, more).encode_video == muxer.encode_video,
{
}

/// When one of two streams ends, the other goes on: it has every turn from then
/// on, wherever the two stand, until it ends too, and then there is no turn.
pub proof fn lemma_other_goes_on(muxer: Muxer, video: Timestamp, audio: Timestamp)
    ensures
        muxer.encode_audio ==> {
            let rest = muxer.after_turn(Turn::Video, false);
            &&& rest.turn(video, audio) == Some(Turn::Audio)
            &&& rest.after_turn(Turn::Audio, true) == rest
            &&& rest.after_turn(Turn::Audio, false).turn(video, audio) is None
        },
        muxer.encode_video ==> {
            let rest = muxer.after_turn(Turn::Audio, false);
            &&& rest.turn(video, audio) == Some(Turn::Video)
            &&& rest.after_turn(Turn::Video, true) == rest
            &&& rest.after_turn(Turn::Video, false).turn(video, audio) is None
        },
{
}

/// What two turns of different streams record does not depend on their order,
/// and of two turns of one stream the later one counts.
pub proof fn lemma_turns_commute(muxer: Muxer, turn: Turn, a: bool, b: bool)
    ensures
        muxer.after_turn(Turn::Video, a).after_turn(Turn::Audio, b) == muxer.after_turn(
            Turn::Audio,
            b,
        ).after_turn(Turn::Video, a),
        muxer.after_turn(turn, a).after_turn(turn, b) == muxer.after_turn(turn, b),
{
}

/// With both streams open, the turn is that of the stream that stands earlier in
/// time, and of the video stream where they stand at the same time. A stream that
/// is open alone has its turn wherever the two stand.
pub proof fn lemma_turn_of_the_earlier(muxer: Muxer, video: Timestamp, audio: Timestamp)
    ensures
        ({
            let video_time = (video.pts * video.time_base.num) * audio.time_base.den;
            let audio_time = (audio.pts * audio.time_base.num) * video.time_base.den;
            &&& muxer.encode_video && muxer.encode_audio && video_time <= audio_time
                ==> muxer.turn(video, audio) == Some(Turn::Video)
            &&& muxer.encode_video && muxer.encode_audio && video_time > audio_time
                ==> muxer.turn(video, audio) == Some(Turn::Audio)
            &&& muxer.encode_video && !muxer.encode_audio ==> muxer.turn(video, audio) == Some(
                Turn::Video,
            )
            &&& !muxer.encode_video && muxer.encode_audio ==> muxer.turn(video, audio) == Some(
                Turn::Audio,
            )
        }),
{
    lemma_compare_by_time(video, audio);
}

/// Whatever the stream does that has its turn, the moment after it is one that
/// the turn leads to, if the stream does not move backwards.
pub proof fn lemma_turn_leads_on(moment: Moment, pts: i64, more: bool)
    requires
        moment.turn() is Some,
        pts >= moment.position().pts,
    ensures
        moment.turn() == Some(Turn::Video) ==> moment.leads_to(
            Moment {
                muxer: Muxer { encode_video: more, ..moment.muxer },
                video: Timestamp { pts, ..moment.video },
                audio: moment.audio,
            },
        ),
        moment.turn() == Some(Turn::Audio) ==> moment.leads_to(
            Moment {
                muxer: Muxer { encode_audio: more, ..moment.muxer },
                video: moment.video,
                audio: Timestamp { pts, ..moment.audio },
            },
        ),
{
}

/// Writing goes on for as long as every turn leaves more to write, and the
/// streams that are written stay the same.
pub proof fn lemma_goes_on(muxer: Muxer, video: Timestamp, audio: Timestamp)
    requires
        muxer.turn(video, audio) is Some,
    ensures
        muxer.after_turn(muxer.turn(video, audio)->0, true) == muxer,
{
}

/// A stream that is done has no further turn.
pub proof fn lemma_done_is_final(muxer: Muxer, turn: Turn, video: Timestamp, audio: Timestamp)
    ensures
        muxer.after_turn(turn, false).turn(video, audio) != Some(turn),
{
}

/// A moment of a run: which streams are still being written, and where each
/// stream stands.
pub struct Moment {
    pub muxer: Muxer,
    pub video: Timestamp,
    pub audio: Timestamp,
}

impl Moment {
    /// The stream whose turn it is.
    pub open spec fn turn(self) -> Option<Turn> {
        self.muxer.turn(self.video, self.audio)
    }

    /// Where the stream stands whose turn it is.
    pub open spec fn position(self) -> Timestamp
        recommends
            self.turn() is Some,
    {
        self.turn()->0.pick(self.video, self.audio)
    }

    /// The timestamp of the frame that is written next, in a stream that stamps
    /// its frames one unit after where it stands.
    pub open spec fn stamp(self) -> Timestamp
        recommends
            self.turn() is Some,
            self.position().pts < i64::MAX,
    {
        Timestamp { pts: (self.position().pts + 1) as i64, ..self.position() }
    }

    /// Both streams count in positive time bases.
    pub open spec fn positive(self) -> bool {
        self.video.time_base.positive() && self.audio.time_base.positive()
    }

    /// One turn leads from `self` to `next`: the stream whose turn it is moves on,
    /// or stays where it is, and may come to its end; the other is left alone.
    pub open spec fn leads_to(self, next: Moment) -> bool {
        &&& self.turn() is Some
        &&& next.muxer == self.muxer.after_turn(self.turn()->0, true) || next.muxer
            == self.muxer.after_turn(self.turn()->0, false)
        &&& next.video.time_base == self.video.time_base
        &&& next.audio.time_base == self.audio.time_base
        &&& next.video.pts >= self.video.pts
        &&& next.audio.pts >= self.audio.pts
        &&& self.turn() == Some(Turn::Video) ==> next.audio == self.audio
        &&& self.turn() == Some(Turn::Audio) ==> next.video == self.video
    }

    /// `self` leads to `next`, and the stream that moves does so by its own step.
    pub open spec fn steps_to(self, next: Moment, video_step: int, audio_step: int) -> bool {
        &&& self.leads_to(next)
        &&& self.turn() == Some(Turn::Video) ==> next.video.pts == self.video.pts + video_step
        &&& self.turn() == Some(Turn::Audio) ==> next.audio.pts == self.audio.pts + audio_step
    }
}

/// Moments of which each leads to the next.
pub open spec fn is_run(moments: Seq<Moment>) -> bool {
    forall|i: int|
        0 <= i < moments.len() - 1 ==> (#[trigger] moments[i]).leads_to(moments[i + 1])
}

/// Over a whole run, the turns follow the time: a stream that has its turn does
/// not stand after a stream that has a later turn, whichever of the two each is.
pub proof fn lemma_run_in_order(moments: Seq<Moment>, i: int, j: int)
    requires
        is_run(moments),
        0 <= i <= j < moments.len(),
        moments[i].positive(),
        moments[j].turn() is Some,
    ensures
        moments[i].turn() is Some,
        moments[i].position().lead(moments[j].position()) <= 0,
    decreases j - i,
{
    if i < j {
        let (now, next) = (moments[i], moments[i + 1]);
        assert(now.leads_to(next));
        lemma_run_in_order(moments, i + 1, j);
        lemma_turns_in_order(
            now.muxer,
            now.video,
            now.audio,
            next.muxer == now.muxer.after_turn(now.turn()->0, true),
            next.video,
            next.audio,
        );
        lemma_run_forward(moments, i, j);
        lemma_compare_transitive(now.position(), next.position(), moments[j].position());
    } else {
        lemma_compare_antisymmetric(moments[i].position(), moments[i].position());
    }
}

/// Over a whole run, frames that are stamped one unit after where their stream
/// stands are all but in order: a frame may carry a later timestamp than one that
/// is written after it, but by less than one unit of its own time base.
pub proof fn lemma_run_stamps(moments: Seq<Moment>, i: int, j: int)
    requires
        is_run(moments),
        0 <= i <= j < moments.len(),
        moments[i].positive(),
        moments[j].turn() is Some,
        moments[i].position().pts < i64::MAX,
        moments[j].position().pts < i64::MAX,
    ensures
        ({
            let (earlier, later) = (moments[i].stamp(), moments[j].stamp());
            earlier.lead(later) < earlier.time_base.num * later.time_base.den
        }),
{
    lemma_run_in_order(moments, i, j);
    lemma_run_forward(moments, i, j);
    let (a, b) = (moments[i].position(), moments[j].position());
    let a_unit = a.time_base.num * b.time_base.den;
    let b_unit = b.time_base.num * a.time_base.den;
    assert((a.pts + 1) * a_unit == a.pts * a_unit + a_unit) by (nonlinear_arith);
    assert((b.pts + 1) * b_unit == b.pts * b_unit + b_unit) by (nonlinear_arith);
    assert(b_unit > 0) by (nonlinear_arith)
        requires
            b_unit == b.time_base.num * a.time_base.den,
            b.time_base.num > 0,
            a.time_base.den > 0,
    ;
}

/// Within one stream the stamps never go back, and they go on whenever the
/// stream moves.
pub proof fn lemma_stream_stamps(moments: Seq<Moment>, i: int, j: int)
    requires
        is_run(moments),
        0 <= i <= j < moments.len(),
        moments[j].turn() is Some,
        moments[i].turn() == moments[j].turn(),
        moments[i].position().pts < i64::MAX,
        moments[j].position().pts < i64::MAX,
    ensures
        moments[i].stamp().time_base == moments[j].stamp().time_base,
        moments[i].stamp().pts <= moments[j].stamp().pts,
        moments[i].position().pts < moments[j].position().pts ==> moments[i].stamp().pts
            < moments[j].stamp().pts,
{
    lemma_run_forward(moments, i, j);
}

/// No stream runs backwards over a run, and each keeps its time base.
proof fn lemma_run_forward(moments: Seq<Moment>, i: int, j: int)
    requires
        is_run(moments),
        0 <= i <= j < moments.len(),
    ensures
        moments[i].video.time_base == moments[j].video.time_base,
        moments[i].audio.time_base == moments[j].audio.time_base,
        moments[i].video.pts <= moments[j].video.pts,
        moments[i].audio.pts <= moments[j].audio.pts,
    decreases j - i,
{
    if i < j {
        assert(moments[i].leads_to(moments[i + 1]));
        lemma_run_forward(moments, i + 1, j);
    }
}

/// Over a whole run that starts at time zero, the streams stay together:
/// `video_step` and `audio_step` are how far one frame takes a stream, and for
/// as long as both streams are written, the video stream is never ahead by more
/// than one of its frames, and the audio stream never by more than one of its own.
pub proof fn lemma_run_together(
    moments: Seq<Moment>,
    video_step: int,
    audio_step: int,
    i: int,
)
    requires
        video_step >= 0,
        audio_step >= 0,
        0 <= i < moments.len(),
        moments[0].video.pts == 0,
        moments[0].audio.pts == 0,
        moments[0].positive(),
        forall|k: int|
            0 <= k < moments.len() - 1 ==> (#[trigger] moments[k]).steps_to(
                moments[k + 1],
                video_step,
                audio_step,
            ),
        forall|k: int|
            0 <= k < i ==> (#[trigger] moments[k]).muxer.encode_video
                && moments[k].muxer.encode_audio,
    ensures
        moments[i].positive(),
        together(moments[i].video, moments[i].audio, video_step, audio_step),
        ({
            let (video, audio) = (moments[i].video, moments[i].audio);
            let video_time = (video.pts * video.time_base.num) * audio.time_base.den;
            let audio_time = (audio.pts * audio.time_base.num) * video.time_base.den;
            &&& video_time - audio_time <= video_step * (video.time_base.num
                * audio.time_base.den)
            &&& audio_time - video_time <= audio_step * (audio.time_base.num
                * video.time_base.den)
        }),
    decreases i,
{
    lemma_compare_by_time(moments[i].video, moments[i].audio);
    if i == 0 {
        lemma_streams_start_together(
            moments[0].video,
            moments[0].audio,
            video_step,
            audio_step,
        );
    } else {
        lemma_run_together(moments, video_step, audio_step, i - 1);
        let (before, now) = (moments[i - 1], moments[i]);
        assert(before.steps_to(moments[i - 1 + 1], video_step, audio_step));
        lemma_streams_stay_together(
            before.muxer,
            before.video,
            before.audio,
            now.video,
            now.audio,
            video_step,
            audio_step,
        );
    }
}

/// The stream that has its turn does not stand after the stream of the next turn.
proof fn lemma_turns_in_order(
    muxer: Muxer,
    video: Timestamp,
    audio: Timestamp,
    more: bool,
    video_next: Timestamp,
    audio_next: Timestamp,
)
    requires
        video.time_base.positive(),
        audio.time_base.positive(),
        video_next.time_base == video.time_base,
        audio_next.time_base == audio.time_base,
        video_next.pts >= video.pts,
        audio_next.pts >= audio.pts,
        muxer.turn(video, audio) is Some,
        muxer.turn(video, audio) == Some(Turn::Video) ==> audio_next == audio,
        muxer.turn(video, audio) == Some(Turn::Audio) ==> video_next == video,
    ensures
        ({
            let turn = muxer.turn(video, audio)->0;
            let position = turn.pick(video, audio);
            let next = muxer.after_turn(turn, more).turn(video_next, audio_next);
            next matches Some(next) ==> position.lead(next.pick(video_next, audio_next)) <= 0
        }),
{
    lemma_same_stream(video, video_next);
    lemma_same_stream(audio, audio_next);
}

/// A stream that does not run backwards is never ahead of where it is later.
proof fn lemma_same_stream(earlier: Timestamp, later: Timestamp)
    requires
        earlier.time_base.positive(),
        later.time_base == earlier.time_base,
        later.pts >= earlier.pts,
    ensures
        earlier.lead(later) <= 0,
{
    lemma_compare_same_base(earlier, later);
}

/// Two streams start together.
proof fn lemma_streams_start_together(
    video: Timestamp,
    audio: Timestamp,
    video_step: int,
    audio_step: int,
)
    requires
        video.pts == 0,
        audio.pts == 0,
        video.time_base.positive(),
        audio.time_base.positive(),
        video_step >= 0,
        audio_step >= 0,
    ensures
        together(video, audio, video_step, audio_step),
{
    let video_unit = video.time_base.num * audio.time_base.den;
    let audio_unit = audio.time_base.num * video.time_base.den;
    assert(video_step * video_unit >= 0 && audio_step * audio_unit >= 0) by (nonlinear_arith)
        requires
            video_unit == video.time_base.num * audio.time_base.den,
            audio_unit == audio.time_base.num * video.time_base.den,
            video.time_base.num > 0,
            video.time_base.den > 0,
            audio.time_base.num > 0,
            audio.time_base.den > 0,
            video_step >= 0,
            audio_step >= 0,
    ;
}

/// Streams that are together stay so over a turn.
proof fn lemma_streams_stay_together(
    muxer: Muxer,
    video: Timestamp,
    audio: Timestamp,
    video_next: Timestamp,
    audio_next: Timestamp,
    video_step: int,
    audio_step: int,
)
    requires
        muxer.encode_video && muxer.encode_audio,
        video.time_base.positive(),
        audio.time_base.positive(),
        video_step >= 0,
        audio_step >= 0,
        video_next.time_base == video.time_base,
        audio_next.time_base == audio.time_base,
        together(video, audio, video_step, audio_step),
        muxer.turn(video, audio) == Some(Turn::Video) ==> video_next.pts == video.pts + video_step
            && audio_next == audio,
        muxer.turn(video, audio) == Some(Turn::Audio) ==> audio_next.pts == audio.pts + audio_step
            && video_next == video,
    ensures
        together(video_next, audio_next, video_step, audio_step),
{
    let video_unit = video.time_base.num * audio.time_base.den;
    let audio_unit = audio.time_base.num * video.time_base.den;
    assert(video_unit > 0 && audio_unit > 0) by (nonlinear_arith)
        requires
            video_unit == video.time_base.num * audio.time_base.den,
            audio_unit == audio.time_base.num * video.time_base.den,
            video.time_base.num > 0,
            video.time_base.den > 0,
            audio.time_base.num > 0,
            audio.time_base.den > 0,
    ;
    assert((video.pts + video_step) * video_unit == video.pts * video_unit + video_step
        * video_unit) by (nonlinear_arith);
    assert((audio.pts + audio_step) * audio_unit == audio.pts * audio_unit + audio_step
        * audio_unit) by (nonlinear_arith);
    assert(video_step * video_unit >= 0 && audio_step * audio_unit >= 0) by (nonlinear_arith)
        requires
            video_step >= 0,
            audio_step >= 0,
            video_unit > 0,
            audio_unit > 0,
    ;
}

/// Neither stream is ahead of the other by more than one of its own frames.
pub open spec fn together(
    video: Timestamp,
    audio: Timestamp,
    video_step: int,
    audio_step: int,
) -> bool {
    let video_unit = video.time_base.num * audio.time_base.den;
    let audio_unit = audio.time_base.num * video.time_base.den;
    -(audio_step * audio_unit) <= video.lead(audio) <= video_step * video_unit
}

} // verus!
