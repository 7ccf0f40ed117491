//! How a frame gets from the encoder into the file: the frame is sent to the
//! encoder, and the packets that the encoder has ready are written one by one.
//!
//! What is asked of the encoder and of the container is a [`Request`]; what
//! they answered decides about the next one.

use vstd::prelude::*;

verus! {

/// What is to be done next.
#[derive(Debug, Clone, Copy, PartialEq, Eq, Structural)]
pub enum Request {
    /// Send the frame to the encoder.
    SendFrame,
    /// Receive a packet from the encoder.
    ReceivePacket,
    /// Write the packet that was received last.
    WritePacket,
    /// Nothing is left to be done.
    Finish(Outcome),
}

/// How writing a frame ended.
#[derive(Debug, Clone, Copy, PartialEq, Eq, Structural)]
pub enum Outcome {
    /// The encoder has no packet ready: it wants another frame, or, if `eof`, it
    /// was flushed and has nothing left.
    Drained { eof: bool },
    /// A call failed with an error code, which is returned.
    Failed(i32),
    /// Receiving a packet failed with an error code that is not expected.
    Unexpected(i32),
}

/// The error codes by which an encoder says that it has no packet ready.
#[derive(Debug, Clone, Copy, PartialEq, Eq, Structural)]
pub struct DrainCodes {
    /// It wants another frame first.
    pub again: i32,
    /// It was flushed and has nothing left.
    pub eof: i32,
}

/// What becomes of an error that an encoder should not give when a packet is
/// received.
#[derive(Debug, Clone, Copy, PartialEq, Eq, Structural)]
pub enum OnReceiveError {
    /// It is returned like any other.
    Return,
    /// It ends the program.
    Abort,
}

/// What the sign of a return code says.
pub open spec fn checked_code(ret: i32) -> Result<i32, i32> {
    if ret < 0 {
        Err(ret)
    } else {
        Ok(ret)
    }
}

/// The first request for a frame, or for none.
pub open spec fn first_request(frame: Option<i64>) -> Request {
    match frame {
        Some(_) => Request::SendFrame,
        None => Request::Finish(Outcome::Drained { eof: false }),
    }
}

/// The first request for a frame, and whether it is a null frame that is sent.
pub open spec fn first_or_flush(frame: Option<i64>) -> (Request, bool) {
    (Request::SendFrame, frame is None)
}

/// Whether a stream goes on after `outcome`, where only a failure ends it.
pub open spec fn until_failed(outcome: Outcome) -> bool {
    outcome is Drained
}

/// Whether a stream goes on after `outcome`, where the end of its encoder is the
/// end of the stream.
pub open spec fn until_flushed(outcome: Outcome) -> Result<bool, i32> {
    match outcome {
        Outcome::Drained { eof } => Ok(!eof),
        Outcome::Failed(code) => Err(code),
        Outcome::Unexpected(code) => Err(code),
    }
}

/// The sign of a return code tells an error from a success.
pub fn avcheck(ret: i32) -> (checked: Result<i32, i32>)
    ensures
        checked == if ret < 0 {
            Err::<i32, i32>(ret)
        } else {
            Ok(ret)
        },
        checked == checked_code(ret),
{
    if ret < 0 {
        Err(ret)
    } else {
        Ok(ret)
    }
}

/// What follows a request that was answered with `answer`.
pub open spec fn after(
    request: Request,
    answer: Result<(), i32>,
    codes: DrainCodes,
    on_error: OnReceiveError,
) -> Request {
    match (request, answer) {
        (Request::SendFrame, Ok(_)) => Request::ReceivePacket,
        (Request::SendFrame, Err(code)) => Request::Finish(Outcome::Failed(code)),
        (Request::ReceivePacket, Ok(_)) => Request::WritePacket,
        (Request::ReceivePacket, Err(code)) => Request::Finish(
            if code == codes.again || code == codes.eof {
                Outcome::Drained { eof: code == codes.eof }
            } else if on_error == OnReceiveError::Abort {
                Outcome::Unexpected(code)
            } else {
                Outcome::Failed(code)
            },
        ),
        (Request::WritePacket, Ok(_)) => Request::ReceivePacket,
        (Request::WritePacket, Err(code)) => Request::Finish(Outcome::Failed(code)),
        (Request::Finish(_), _) => request,
    }
}

/// The first request for a frame: a stream that has passed its end has no frame
/// and nothing is asked for.
pub fn begin_write(frame: Option<i64>) -> (request: Request)
    ensures
        request == if frame is Some {
            Request::SendFrame
        } else {
            Request::Finish(Outcome::Drained { eof: false })
        },
        request == first_request(frame),
{
    match frame {
        Some(_) => Request::SendFrame,
        None => Request::Finish(Outcome::Drained { eof: false }),
    }
}

/// The first request for a frame of a stream that is flushed at its end, and
/// whether it is a null frame that is sent: a stream that has passed its end has
/// no frame, and a null frame tells its encoder to give out what it holds.
pub fn begin_write_or_flush(frame: Option<i64>) -> (first: (Request, bool))
    ensures
        first == (Request::SendFrame, frame is None),
        first == first_or_flush(frame),
{
    (Request::SendFrame, frame.is_none())
}

/// The request that follows one that was answered: a sent frame is followed by
/// receiving packets, and each packet that is received is written, until the
/// encoder has none ready or a call fails.
pub fn write_frame(
    request: Request,
    answer: Result<(), i32>,
    codes: &DrainCodes,
    on_error: OnReceiveError,
) -> (next: Request)
    ensures
        next == after(request, answer, *codes, on_error),
        request == Request::SendFrame && answer is Ok ==> next == Request::ReceivePacket,
        request == Request::ReceivePacket && answer is Ok ==> next == Request::WritePacket,
        request == Request::WritePacket && answer is Ok ==> next == Request::ReceivePacket,
        request is Finish ==> next == request,
        request == Request::SendFrame || request == Request::WritePacket ==> (answer matches Err(
            code,
        ) ==> next == Request::Finish(Outcome::Failed(code))),
        request == Request::ReceivePacket ==> (answer matches Err(code) ==> next
            == Request::Finish(
            if code == codes.eof {
                Outcome::Drained { eof: true }
            } else if code == codes.again {
                Outcome::Drained { eof: false }
            } else {
                match on_error {
                    OnReceiveError::Return => Outcome::Failed(code),
                    OnReceiveError::Abort => Outcome::Unexpected(code),
                }
            },
        )),
{
    match request {
        Request::SendFrame => match answer {
            Ok(_) => Request::ReceivePacket,
            Err(code) => Request::Finish(Outcome::Failed(code)),
        },
        Request::ReceivePacket => match answer {
            Ok(_) => Request::WritePacket,
            Err(code) => if code == codes.again || code == codes.eof {
                Request::Finish(Outcome::Drained { eof: code == codes.eof })
            } else if on_error == OnReceiveError::Abort {
                Request::Finish(Outcome::Unexpected(code))
            } else {
                Request::Finish(Outcome::Failed(code))
            },
        },
        Request::WritePacket => match answer {
            Ok(_) => Request::ReceivePacket,
            Err(code) => Request::Finish(Outcome::Failed(code)),
        },
        Request::Finish(_) => request,
    }
}

/// Whether a stream goes on after a frame was written: it does unless a call
/// failed.
pub fn goes_on(outcome: Outcome) -> (more: bool)
    requires
        !(outcome is Unexpected),
    ensures
        more == (outcome is Drained),
        more == until_failed(outcome),
{
    match outcome {
        Outcome::Drained { .. } => true,
        Outcome::Failed(_) => false,
        Outcome::Unexpected(_) => false,
    }
}

/// Whether a stream that is flushed at its end goes on after a frame was
/// written: it does until its encoder has nothing left. A call that failed is
/// an error.
pub fn goes_on_until_flushed(outcome: Outcome) -> (more: Result<bool, i32>)
    ensures
        more == match outcome {
            Outcome::Drained { eof } => Ok::<bool, i32>(!eof),
            Outcome::Failed(code) => Err(code),
            Outcome::Unexpected(code) => Err(code),
        },
        more == until_flushed(outcome),
{
    match outcome {
        Outcome::Drained { eof } => Ok(!eof),
        Outcome::Failed(code) => Err(code),
        Outcome::Unexpected(code) => Err(code),
    }
}

/// The request that stands after a run of answers.
pub open spec fn run(
    first: Request,
    answers: Seq<Result<(), i32>>,
    codes: DrainCodes,
    on_error: OnReceiveError,
) -> Request
    decreases answers.len(),
{
    if answers.len() == 0 {
        first
    } else {
        after(run(first, answers.drop_last(), codes, on_error), answers.last(), codes, on_error)
    }
}

/// How many times in a run `kind` was asked for and done.
pub open spec fn times_done(
    kind: Request,
    first: Request,
    answers: Seq<Result<(), i32>>,
    codes: DrainCodes,
    on_error: OnReceiveError,
) -> nat
    decreases answers.len(),
{
    if answers.len() == 0 {
        0
    } else {
        let earlier = answers.drop_last();
        let before = times_done(kind, first, earlier, codes, on_error);
        if run(first, earlier, codes, on_error) == kind && answers.last() is Ok {
            before + 1
        } else {
            before
        }
    }
}

/// A return code is kept, and is an error exactly if it is negative.
pub proof fn lemma_checked_code(ret: i32)
    ensures
        checked_code(ret) is Err <==> ret < 0,
        checked_code(ret) matches Ok(code) ==> code == ret,
        checked_code(ret) matches Err(code) ==> code == ret,
{
}

/// What a success leads to: packets are received once the frame was sent, a packet
/// that was received is written, and one that was written is followed by the next.
pub proof fn lemma_after_success(codes: DrainCodes, on_error: OnReceiveError)
    ensures
        after(Request::SendFrame, Ok(()), codes, on_error) == Request::ReceivePacket,
        after(Request::ReceivePacket, Ok(()), codes, on_error) == Request::WritePacket,
        after(Request::WritePacket, Ok(()), codes, on_error) == Request::ReceivePacket,
{
}

/// What an error leads to: the end of the run, with the code that was answered.
/// Only an encoder that is asked for a packet can say that it has none, and only
/// there is an error unexpected, if it is to end the program.
pub proof fn lemma_after_error(code: i32, codes: DrainCodes, on_error: OnReceiveError)
    ensures
        after(Request::SendFrame, Err(code), codes, on_error) == Request::Finish(
            Outcome::Failed(code),
        ),
        after(Request::WritePacket, Err(code), codes, on_error) == Request::Finish(
            Outcome::Failed(code),
        ),
        code == codes.eof ==> after(Request::ReceivePacket, Err(code), codes, on_error)
            == Request::Finish(Outcome::Drained { eof: true }),
        code == codes.again && code != codes.eof ==> after(
            Request::ReceivePacket,
            Err(code),
            codes,
            on_error,
        ) == Request::Finish(Outcome::Drained { eof: false }),
        code != codes.again && code != codes.eof ==> after(
            Request::ReceivePacket,
            Err(code),
            codes,
            OnReceiveError::Return,
        ) == Request::Finish(Outcome::Failed(code)),
        code != codes.again && code != codes.eof ==> after(
            Request::ReceivePacket,
            Err(code),
            codes,
            OnReceiveError::Abort,
        ) == Request::Finish(Outcome::Unexpected(code)),
{
}

/// One more answer takes a run on from where it stands, and counts for the request
/// that it answers if that was done.
pub proof fn lemma_run_next(
    kind: Request,
    first: Request,
    answers: Seq<Result<(), i32>>,
    answer: Result<(), i32>,
    codes: DrainCodes,
    on_error: OnReceiveError,
)
    ensures
        run(first, Seq::empty(), codes, on_error) == first,
        times_done(kind, first, Seq::empty(), codes, on_error) == 0,
        run(first, answers.push(answer), codes, on_error) == after(
            run(first, answers, codes, on_error),
            answer,
            codes,
            on_error,
        ),
        times_done(kind, first, answers.push(answer), codes, on_error) == times_done(
            kind,
            first,
            answers,
            codes,
            on_error,
        ) + if answer is Ok && run(first, answers, codes, on_error) == kind {
            1int
        } else {
            0int
        },
{
    assert(answers.push(answer).drop_last() =~= answers);
}

/// An error of a run is not lost: a run that was going on ends with the code that
/// failed, the stream ends, and one that is flushed at its end hands that code on.
pub proof fn lemma_error_returned(
    first: Request,
    answers: Seq<Result<(), i32>>,
    code: i32,
    codes: DrainCodes,
    on_error: OnReceiveError,
)
    requires
        !(run(first, answers, codes, on_error) is Finish),
        code != codes.again,
        code != codes.eof,
    ensures
        ({
            let last = run(first, answers.push(Err(code)), codes, on_error);
            &&& last matches Request::Finish(outcome) && until_flushed(outcome)
                == Err::<bool, i32>(code)
            &&& !until_failed(last->0)
        }),
{
    lemma_run_next(first, first, answers, Err(code), codes, on_error);
}

/// A stream that is flushed at its end goes on for as long as its encoder wants
/// another frame, and ends when its encoder has nothing left. One that only a
/// failure ends goes on in both cases.
pub proof fn lemma_flush_ends_stream(
    first: Request,
    answers: Seq<Result<(), i32>>,
    codes: DrainCodes,
    on_error: OnReceiveError,
)
    requires
        run(first, answers, codes, on_error) == Request::ReceivePacket,
        codes.again != codes.eof,
    ensures
        ({
            let wanting = run(first, answers.push(Err(codes.again)), codes, on_error);
            let flushed = run(first, answers.push(Err(codes.eof)), codes, on_error);
            &&& wanting is Finish
            &&& flushed is Finish
            &&& until_flushed(wanting->0) == Ok::<bool, i32>(true)
            &&& until_flushed(flushed->0) == Ok::<bool, i32>(false)
            &&& until_failed(wanting->0)
            &&& until_failed(flushed->0)
        }),
{
    lemma_run_next(first, first, answers, Err(codes.again), codes, on_error);
    lemma_run_next(first, first, answers, Err(codes.eof), codes, on_error);
}

/// A frame is sent whatever its timestamp; without one nothing is asked for,
/// whatever is answered, and nothing has failed. A stream that is flushed at its
/// end sends a null frame in that case, and in no other.
pub proof fn lemma_first_request(
    pts: i64,
    answers: Seq<Result<(), i32>>,
    codes: DrainCodes,
    on_error: OnReceiveError,
)
    ensures
        first_request(Some(pts)) == Request::SendFrame,
        first_or_flush(Some(pts)).0 == Request::SendFrame,
        first_or_flush(None).0 == Request::SendFrame,
        !first_or_flush(Some(pts)).1,
        first_or_flush(None).1,
        run(first_request(None), answers, codes, on_error) == Request::Finish(
            Outcome::Drained { eof: false },
        ),
{
    lemma_finish_is_final(Outcome::Drained { eof: false }, answers, codes, on_error);
}

/// The answers of an encoder with `packets` packets: one to the frame, and two to
/// each packet, none of them an error.
pub proof fn lemma_smooth(packets: nat, i: int)
    ensures
        smooth(packets).len() == 1 + 2 * packets,
        0 <= i < smooth(packets).len() ==> smooth(packets)[i] == Ok::<(), i32>(()),
{
}

/// When a frame has been written, no packet is left behind: every packet that
/// was received has been written, and a run that ends in a failure has left at
/// most the last one.
pub proof fn lemma_no_packet_lost(
    answers: Seq<Result<(), i32>>,
    codes: DrainCodes,
    on_error: OnReceiveError,
)
    ensures
        ({
            let last = run(Request::SendFrame, answers, codes, on_error);
            let received = times_done(
                Request::ReceivePacket,
                Request::SendFrame,
                answers,
                codes,
                on_error,
            );
            let written = times_done(
                Request::WritePacket,
                Request::SendFrame,
                answers,
                codes,
                on_error,
            );
            &&& written <= received <= written + 1
            &&& last == Request::SendFrame ==> received == written
            &&& last == Request::ReceivePacket ==> received == written
            &&& last == Request::WritePacket ==> received == written + 1
            &&& last is Finish && last->0 is Drained ==> received == written
            &&& last is Finish && last->0 is Unexpected ==> received == written
        }),
    decreases answers.len(),
{
    if answers.len() > 0 {
        lemma_no_packet_lost(answers.drop_last(), codes, on_error);
    }
}

/// A frame is sent once, and packets are only received after it was taken.
pub proof fn lemma_frame_sent_once(
    answers: Seq<Result<(), i32>>,
    codes: DrainCodes,
    on_error: OnReceiveError,
)
    ensures
        ({
            let last = run(Request::SendFrame, answers, codes, on_error);
            let sent = times_done(
                Request::SendFrame,
                Request::SendFrame,
                answers,
                codes,
                on_error,
            );
            let received = times_done(
                Request::ReceivePacket,
                Request::SendFrame,
                answers,
                codes,
                on_error,
            );
            &&& sent <= 1
            &&& received > 0 ==> sent == 1
            &&& last == Request::SendFrame ==> sent == 0 && received == 0
            &&& last == Request::ReceivePacket || last == Request::WritePacket ==> sent == 1
            &&& last is Finish && last->0 is Drained ==> sent == 1
        }),
    decreases answers.len(),
{
    if answers.len() > 0 {
        lemma_frame_sent_once(answers.drop_last(), codes, on_error);
    }
}

/// The answers of an encoder that takes the frame and has `packets` packets
/// ready, and of a file that takes them all.
pub open spec fn smooth(packets: nat) -> Seq<Result<(), i32>> {
    Seq::new((1 + 2 * packets) as nat, |i: int| Ok::<(), i32>(()))
}

/// Where nothing fails, all packets that the encoder has ready are written, and
/// the run ends when the encoder says that it has no more.
pub proof fn lemma_smooth_run(
    packets: nat,
    code: i32,
    codes: DrainCodes,
    on_error: OnReceiveError,
)
    requires
        code == codes.again || code == codes.eof,
    ensures
        run(Request::SendFrame, smooth(packets).push(Err(code)), codes, on_error)
            == Request::Finish(Outcome::Drained { eof: code == codes.eof }),
        times_done(
            Request::WritePacket,
            Request::SendFrame,
            smooth(packets).push(Err(code)),
            codes,
            on_error,
        ) == packets,
{
    lemma_smooth_prefix(packets, codes, on_error);
    assert(smooth(packets).push(Err(code)).drop_last() =~= smooth(packets));
}

/// The run before the encoder says that it has no more.
proof fn lemma_smooth_prefix(packets: nat, codes: DrainCodes, on_error: OnReceiveError)
    ensures
        run(Request::SendFrame, smooth(packets), codes, on_error) == Request::ReceivePacket,
        times_done(Request::WritePacket, Request::SendFrame, smooth(packets), codes, on_error)
            == packets,
    decreases packets,
{
    if packets == 0 {
        let none = smooth(0).drop_last();
        assert(none =~= Seq::empty());
        assert(run(Request::SendFrame, none, codes, on_error) == Request::SendFrame);
        assert(times_done(Request::WritePacket, Request::SendFrame, none, codes, on_error) == 0);
    } else {
        let shorter = smooth((packets - 1) as nat);
        let middle = smooth(packets).drop_last();
        lemma_smooth_prefix((packets - 1) as nat, codes, on_error);
        assert(middle.drop_last() =~= shorter);
        assert(run(Request::SendFrame, middle, codes, on_error) == Request::WritePacket);
        assert(times_done(Request::WritePacket, Request::SendFrame, middle, codes, on_error)
            == packets - 1);
    }
}

/// Only a run that ends the program on an error of the encoder ends unexpectedly.
pub proof fn lemma_unexpected_only_on_abort(
    answers: Seq<Result<(), i32>>,
    codes: DrainCodes,
)
    ensures
        !({
            let last = run(Request::SendFrame, answers, codes, OnReceiveError::Return);
            last is Finish && last->0 is Unexpected
        }),
    decreases answers.len(),
{
    if answers.len() > 0 {
        lemma_unexpected_only_on_abort(answers.drop_last(), codes);
    }
}

/// Once finished, a run stays as it ended, whatever is answered.
pub proof fn lemma_finish_is_final(
    outcome: Outcome,
    answers: Seq<Result<(), i32>>,
    codes: DrainCodes,
    on_error: OnReceiveError,
)
    ensures
        run(Request::Finish(outcome), answers, codes, on_error) == Request::Finish(outcome),
    decreases answers.len(),
{
    if answers.len() > 0 {
        lemma_finish_is_final(outcome, answers.drop_last(), codes, on_error);
    }
}

} // verus!
