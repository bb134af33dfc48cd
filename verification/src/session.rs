//! A session with the service, step by step: what to do about each thing that
//! happens.

use crate::event::{ErrorView, EventView, StreamingEvent, TranscribeError};
use crate::stream::{append_all, carried, concat, found, Outgoing, OutgoingView};
use crate::stream::{lemma_carried, lemma_found_more};
use crate::text;
use crate::wire;
use crate::wire::{ServerEvent, ServerEventView, WireMessage};
use vstd::prelude::*;

verus! {

/// The sample rate of the recording.
pub const SOURCE_SAMPLE_RATE: u32 = 16_000;

/// Audio is sent in messages of 80 ms each.
pub const CHUNK_BYTES: usize = 3_840;

/// How long connecting may take.
pub const CONNECT_TIMEOUT_SECS: u64 = 30;

/// How long the server may take to set the session up.
pub const SESSION_UPDATE_TIMEOUT_SECS: u64 = 10;

/// How long events are awaited after the recording stopped.
pub const DRAIN_TIMEOUT_SECS: u64 = 3;

/// How long the transcript of a whole recording is awaited.
pub const BATCH_TIMEOUT_SECS: u64 = 30;

/// How many samples of a whole recording go into a message.
pub const BATCH_INPUT_CHUNK_SAMPLES: usize = 1_600;

/// What is left of a time limit, in nanoseconds, once `elapsed` of them have
/// passed; nothing once the limit is reached.
pub fn time_left(elapsed: u128, limit_secs: u64) -> (res: Option<u128>)
    ensures
        match res {
            Some(left) => left > 0 && left + elapsed == limit_secs * 1_000_000_000,
            None => elapsed >= limit_secs * 1_000_000_000,
        },
{
    let limit: u128 = limit_secs as u128 * 1_000_000_000;
    if elapsed < limit {
        Some(limit - elapsed)
    } else {
        None
    }
}

/// What is left, in nanoseconds, of the time for events after the recording,
/// once `since_stop` of them have passed since the server was told of its end;
/// nothing once that time is over.
pub fn drain_left(since_stop: u128) -> (res: Option<u128>)
    ensures
        match res {
            Some(left) => left > 0 && left + since_stop == 3_000_000_000,
            None => since_stop >= 3_000_000_000,
        },
{
    time_left(since_stop, DRAIN_TIMEOUT_SECS)
}

/// Failures on the way to the server, each with what was said of it.
#[derive(Debug)]
pub enum LinkFailure {
    ConnectTimeout,
    Connect(String),
    SendSessionUpdate(String),
    SendAudio(String),
    SendCommit(String),
    Socket(String),
}

impl LinkFailure {
    /// What is said of the failure.
    pub open spec fn text(self) -> Seq<char> {
        match self {
            LinkFailure::ConnectTimeout => "OpenAI Realtime: connect timeout"@,
            LinkFailure::Connect(e) => "OpenAI Realtime: WS connect failed: "@ + e@,
            LinkFailure::SendSessionUpdate(e) => "OpenAI Realtime: send session.update failed: "@
                + e@,
            LinkFailure::SendAudio(e) => "OpenAI Realtime: send audio failed: "@ + e@,
            LinkFailure::SendCommit(e) => "OpenAI Realtime: send commit failed: "@ + e@,
            LinkFailure::Socket(e) => "OpenAI Realtime: WS error: "@ + e@,
        }
    }

    /// The failure as an error of the transcription.
    pub fn to_error(&self) -> (res: TranscribeError)
        ensures
            res@ == ErrorView::InferenceFailed(self.text()),
    {
        let message = match self {
            LinkFailure::ConnectTimeout => "OpenAI Realtime: connect timeout".to_owned(),
            LinkFailure::Connect(e) => text::joined(
                "OpenAI Realtime: WS connect failed: ",
                e.as_str(),
            ),
            LinkFailure::SendSessionUpdate(e) => text::joined(
                "OpenAI Realtime: send session.update failed: ",
                e.as_str(),
            ),
            LinkFailure::SendAudio(e) => text::joined(
                "OpenAI Realtime: send audio failed: ",
                e.as_str(),
            ),
            LinkFailure::SendCommit(e) => text::joined(
                "OpenAI Realtime: send commit failed: ",
                e.as_str(),
            ),
            LinkFailure::Socket(e) => text::joined("OpenAI Realtime: WS error: ", e.as_str()),
        };
        TranscribeError::InferenceFailed(message)
    }
}

/// The events of a session that fails before it starts: the error, then the
/// end.
pub fn fatal_events(message: String) -> (res: Vec<StreamingEvent>)
    ensures
        res@.len() == 2,
        res@[0]@ == EventView::Error(ErrorView::InferenceFailed(message@)),
        res@[1]@ == EventView::Ended,
{
    let mut events: Vec<StreamingEvent> = Vec::new();
    events.push(StreamingEvent::Error(TranscribeError::InferenceFailed(message)));
    events.push(StreamingEvent::Ended);
    events
}

/// What came of waiting for a message under a time limit.
#[derive(Debug)]
pub enum Received {
    Message(WireMessage),
    /// The socket failed.
    SocketError(String),
    /// The stream of messages is over.
    EndOfStream,
    /// The limit was reached while waiting.
    TimedOut,
    /// The limit had been reached before.
    Expired,
}

/// What to do while the session is being set up.
#[derive(Debug)]
pub enum HandshakeStep {
    /// Wait for the next message.
    Wait,
    /// Go on: the session is set up.
    Ready,
    /// Give up.
    Fail(TranscribeError),
}

/// A [`HandshakeStep`] with its text as a sequence.
pub enum HandshakeView {
    Wait,
    Ready,
    Fail(ErrorView),
}

impl View for HandshakeStep {
    type V = HandshakeView;

    open spec fn view(&self) -> HandshakeView {
        match *self {
            HandshakeStep::Wait => HandshakeView::Wait,
            HandshakeStep::Ready => HandshakeView::Ready,
            HandshakeStep::Fail(e) => HandshakeView::Fail(e@),
        }
    }
}

/// Only the acknowledgement sets the session up, and an error before it is
/// fatal, with the server's own words.
pub open spec fn handshake_on_event(event: ServerEventView) -> HandshakeView {
    match event {
        ServerEventView::SessionUpdated => HandshakeView::Ready,
        ServerEventView::Error { detail } => HandshakeView::Fail(
            ErrorView::InferenceFailed(
                "OpenAI Realtime: fatal error during session configuration: "@ + detail,
            ),
        ),
        _ => HandshakeView::Wait,
    }
}

pub open spec fn handshake_on(received: Received) -> HandshakeView {
    match received {
        Received::Message(WireMessage::Text(t)) => handshake_on_event(wire::event_in(t@)),
        Received::Message(WireMessage::Close) => HandshakeView::Fail(
            ErrorView::InferenceFailed(
                "OpenAI Realtime: connection closed awaiting session.updated"@,
            ),
        ),
        Received::Message(_) => HandshakeView::Wait,
        Received::SocketError(e) => HandshakeView::Fail(
            ErrorView::InferenceFailed(
                "OpenAI Realtime: WS error while awaiting session.updated: "@ + e@,
            ),
        ),
        Received::EndOfStream => HandshakeView::Fail(
            ErrorView::InferenceFailed(
                "OpenAI Realtime: connection closed/timed out awaiting session.updated"@,
            ),
        ),
        Received::TimedOut => HandshakeView::Fail(
            ErrorView::InferenceFailed(
                "OpenAI Realtime: connection closed/timed out awaiting session.updated"@,
            ),
        ),
        Received::Expired => HandshakeView::Fail(
            ErrorView::InferenceFailed("OpenAI Realtime: timed out waiting for session.updated"@),
        ),
    }
}

/// What to do about an event while the session is being set up.
pub fn handshake_event(event: &ServerEvent) -> (res: HandshakeStep)
    ensures
        res@ == handshake_on_event(event@),
{
    match event {
        ServerEvent::SessionUpdated => HandshakeStep::Ready,
        ServerEvent::Error { detail } => HandshakeStep::Fail(
            TranscribeError::InferenceFailed(
                text::joined(
                    "OpenAI Realtime: fatal error during session configuration: ",
                    detail.as_str(),
                ),
            ),
        ),
        _ => HandshakeStep::Wait,
    }
}

/// What to do while the session is being set up.
pub fn handshake_step(received: &Received) -> (res: HandshakeStep)
    ensures
        res@ == handshake_on(*received),
{
    match received {
        Received::Message(message) => match message {
            WireMessage::Text(t) => handshake_event(&wire::read_event(t.as_str())),
            WireMessage::Close => HandshakeStep::Fail(
                TranscribeError::InferenceFailed(
                    "OpenAI Realtime: connection closed awaiting session.updated".to_owned(),
                ),
            ),
            WireMessage::Ping(_) => HandshakeStep::Wait,
            WireMessage::Other => HandshakeStep::Wait,
        },
        Received::SocketError(e) => HandshakeStep::Fail(
            TranscribeError::InferenceFailed(
                text::joined(
                    "OpenAI Realtime: WS error while awaiting session.updated: ",
                    e.as_str(),
                ),
            ),
        ),
        Received::EndOfStream => HandshakeStep::Fail(
            TranscribeError::InferenceFailed(
                "OpenAI Realtime: connection closed/timed out awaiting session.updated".to_owned(),
            ),
        ),
        Received::TimedOut => HandshakeStep::Fail(
            TranscribeError::InferenceFailed(
                "OpenAI Realtime: connection closed/timed out awaiting session.updated".to_owned(),
            ),
        ),
        Received::Expired => HandshakeStep::Fail(
            TranscribeError::InferenceFailed(
                "OpenAI Realtime: timed out waiting for session.updated".to_owned(),
            ),
        ),
    }
}

/// The pieces of a recording that hold any audio.
pub open spec fn non_empty(pieces: Seq<Seq<u8>>) -> Seq<Seq<u8>>
    decreases pieces.len(),
{
    if pieces.len() == 0 {
        Seq::empty()
    } else if pieces.last().len() == 0 {
        non_empty(pieces.drop_last())
    } else {
        non_empty(pieces.drop_last()).push(pieces.last())
    }
}

/// The messages of a whole recording, once the session is set up: its audio in
/// order, piece by piece, and then the commit that makes one item of it.
pub open spec fn batch_plan(pieces: Seq<Seq<u8>>) -> Seq<OutgoingView> {
    append_all(non_empty(pieces)).push(OutgoingView::Text(wire::commit_text()))
}

/// The messages of a whole recording, once the session is set up. The server
/// finds all of the recording in those before the last.
pub fn batch_messages(pieces: &[Vec<u8>]) -> (res: Vec<Outgoing>)
    requires
        forall|i: int| 0 <= i < pieces@.len() ==> (#[trigger] pieces@[i])@.len() <= usize::MAX / 4,
    ensures
        res@.map_values(|o: Outgoing| o@) == batch_plan(pieces@.map_values(|p: Vec<u8>| p@)),
        carried(res@.map_values(|o: Outgoing| o@).drop_last()) == concat(
            pieces@.map_values(|p: Vec<u8>| p@),
        ),
{
    let mut send: Vec<Outgoing> = Vec::new();
    let ghost view = |o: Outgoing| o@;
    let ghost all = pieces@.map_values(|p: Vec<u8>| p@);
    proof {
        assert(all.take(0) =~= Seq::empty());
        assert(send@.map_values(view) =~= append_all(non_empty(all.take(0))));
    }
    for i in 0..pieces.len()
        invariant
            view == (|o: Outgoing| o@),
            all == pieces@.map_values(|p: Vec<u8>| p@),
            forall|k: int|
                0 <= k < pieces@.len() ==> (#[trigger] pieces@[k])@.len() <= usize::MAX / 4,
            send@.map_values(view) == append_all(non_empty(all.take(i as int))),
            found(non_empty(all.take(i as int))),
    {
        let ghost before = non_empty(all.take(i as int));
        let ghost sent = send@;
        proof {
            assert(all.take(i + 1).drop_last() =~= all.take(i as int));
            assert(all.take(i + 1).last() == pieces@[i as int]@);
        }
        if let Some(message) = wire::append_frame(pieces[i].as_slice()) {
            send.push(Outgoing::Text(message));
            proof {
                let now = non_empty(all.take(i + 1));
                assert(now == before.push(pieces@[i as int]@));
                assert(append_all(now) =~= append_all(before).push(
                    OutgoingView::Text(wire::append_text(pieces@[i as int]@)),
                ));
                assert(send@.map_values(view) =~= sent.map_values(view).push(
                    OutgoingView::Text(wire::append_text(pieces@[i as int]@)),
                ));
                lemma_found_more(before, pieces@[i as int]@);
            }
        }
    }
    let ghost sent = send@;
    send.push(Outgoing::Text(wire::commit_message()));
    proof {
        assert(all.take(all.len() as int) =~= all);
        assert(send@.map_values(view) =~= sent.map_values(view).push(
            OutgoingView::Text(wire::commit_text()),
        ));
        assert(send@.map_values(view).drop_last() =~= append_all(non_empty(all)));
        lemma_carried(non_empty(all));
        law_batch_plan(all);
    }
    send
}

/// No piece of a recording is lost or changes place, and exactly one message,
/// the last, is not a piece of it: the commit.
pub proof fn law_batch_plan(pieces: Seq<Seq<u8>>)
    ensures
        concat(non_empty(pieces)) == concat(pieces),
        batch_plan(pieces).len() == non_empty(pieces).len() + 1,
        batch_plan(pieces).last() == OutgoingView::Text(wire::commit_text()),
        forall|i: int|
            0 <= i < non_empty(pieces).len() ==> #[trigger] batch_plan(pieces)[i]
                == OutgoingView::Text(wire::append_text(non_empty(pieces)[i]))
                && non_empty(pieces)[i].len() > 0,
    decreases pieces.len(),
{
    if pieces.len() > 0 {
        let rest = pieces.drop_last();
        law_batch_plan(rest);
        if pieces.last().len() == 0 {
            assert(concat(pieces) =~= concat(rest));
        } else {
            assert(non_empty(pieces).drop_last() =~= non_empty(rest));
            assert forall|i: int| 0 <= i < non_empty(pieces).len() implies non_empty(
                pieces,
            )[i].len() > 0 by {
                if i < non_empty(rest).len() {
                    assert(batch_plan(rest)[i] == OutgoingView::Text(
                        wire::append_text(non_empty(rest)[i]),
                    ));
                    assert(non_empty(pieces)[i] == non_empty(rest)[i]);
                }
            }
        }
    }
}

/// What it means that the message at `index`, of `total` that a recording
/// becomes, cannot be sent.
pub fn lost_message(index: usize, total: usize, reason: String) -> (res: LinkFailure)
    requires
        index < total,
    ensures
        res == (if index + 1 == total {
            LinkFailure::SendCommit(reason)
        } else {
            LinkFailure::SendAudio(reason)
        }),
{
    if index + 1 == total {
        LinkFailure::SendCommit(reason)
    } else {
        LinkFailure::SendAudio(reason)
    }
}

/// What to do for the transcript of a whole recording.
#[derive(Debug)]
pub enum BatchStep {
    /// Wait for the next message.
    Wait,
    /// Send the recording, then wait under a new time limit.
    Send(Vec<Outgoing>),
    /// Answer a ping, then wait.
    Pong(Vec<u8>),
    /// Finish, with a close message first where `close` says so.
    Done { close: bool, result: Result<String, TranscribeError> },
}

/// A [`BatchStep`] with its texts as sequences.
pub enum BatchView {
    Wait,
    Send(Seq<OutgoingView>),
    Pong(Seq<u8>),
    Done { close: bool, result: Result<Seq<char>, ErrorView> },
}

impl View for BatchStep {
    type V = BatchView;

    open spec fn view(&self) -> BatchView {
        match *self {
            BatchStep::Wait => BatchView::Wait,
            BatchStep::Send(messages) => BatchView::Send(
                messages@.map_values(|o: Outgoing| o@),
            ),
            BatchStep::Pong(payload) => BatchView::Pong(payload@),
            BatchStep::Done { close, result } => BatchView::Done {
                close,
                result: match result {
                    Ok(t) => Ok(t@),
                    Err(e) => Err(e@),
                },
            },
        }
    }
}

/// The first transcript is the result, without the white space around it.
pub open spec fn batch_on_event(event: ServerEventView) -> BatchView {
    match event {
        ServerEventView::Completed { transcript, .. } => BatchView::Done {
            close: true,
            result: Ok(text::trimmed(transcript)),
        },
        ServerEventView::Failed { .. } => BatchView::Done {
            close: true,
            result: Err(
                ErrorView::InferenceFailed("OpenAI Realtime: transcription item failed"@),
            ),
        },
        ServerEventView::Error { detail } => BatchView::Done {
            close: true,
            result: Err(ErrorView::InferenceFailed("OpenAI Realtime error: "@ + detail)),
        },
        _ => BatchView::Wait,
    }
}

/// A connection that ends without a transcript gives the empty one.
pub open spec fn batch_on(received: Received) -> BatchView {
    match received {
        Received::Message(WireMessage::Text(t)) => batch_on_event(wire::event_in(t@)),
        Received::Message(WireMessage::Ping(payload)) => BatchView::Pong(payload@),
        Received::Message(WireMessage::Close) => BatchView::Done {
            close: false,
            result: Ok(Seq::empty()),
        },
        Received::Message(WireMessage::Other) => BatchView::Wait,
        Received::SocketError(e) => BatchView::Done {
            close: false,
            result: Err(ErrorView::InferenceFailed("OpenAI Realtime: WS error: "@ + e@)),
        },
        Received::EndOfStream => BatchView::Done { close: false, result: Ok(Seq::empty()) },
        Received::TimedOut => BatchView::Done {
            close: false,
            result: Err(ErrorView::InferenceFailed("OpenAI Realtime: batch timeout"@)),
        },
        Received::Expired => BatchView::Done {
            close: false,
            result: Err(ErrorView::InferenceFailed("OpenAI Realtime: batch timeout"@)),
        },
    }
}

/// What to do about an event while the transcript of a whole recording is
/// awaited.
pub fn batch_event(event: &ServerEvent) -> (res: BatchStep)
    ensures
        res@ == batch_on_event(event@),
{
    match event {
        ServerEvent::Completed { transcript, .. } => BatchStep::Done {
            close: true,
            result: Ok(transcript.as_str().trim().to_owned()),
        },
        ServerEvent::Failed { .. } => BatchStep::Done {
            close: true,
            result: Err(
                TranscribeError::InferenceFailed(
                    "OpenAI Realtime: transcription item failed".to_owned(),
                ),
            ),
        },
        ServerEvent::Error { detail } => BatchStep::Done {
            close: true,
            result: Err(
                TranscribeError::InferenceFailed(
                    text::joined("OpenAI Realtime error: ", detail.as_str()),
                ),
            ),
        },
        _ => BatchStep::Wait,
    }
}

/// What to do while the transcript of a whole recording is awaited.
pub fn batch_step(received: Received) -> (res: BatchStep)
    ensures
        res@ == batch_on(received),
{
    match received {
        Received::Message(message) => match message {
            WireMessage::Text(t) => batch_event(&wire::read_event(t.as_str())),
            WireMessage::Ping(payload) => BatchStep::Pong(payload),
            WireMessage::Close => BatchStep::Done { close: false, result: Ok(String::new()) },
            WireMessage::Other => BatchStep::Wait,
        },
        Received::SocketError(e) => BatchStep::Done {
            close: false,
            result: Err(LinkFailure::Socket(e).to_error()),
        },
        Received::EndOfStream => BatchStep::Done { close: false, result: Ok(String::new()) },
        Received::TimedOut => BatchStep::Done {
            close: false,
            result: Err(
                TranscribeError::InferenceFailed("OpenAI Realtime: batch timeout".to_owned()),
            ),
        },
        Received::Expired => BatchStep::Done {
            close: false,
            result: Err(
                TranscribeError::InferenceFailed("OpenAI Realtime: batch timeout".to_owned()),
            ),
        },
    }
}

/// A whole recording on its way to its transcript, once the session was asked
/// for.
#[derive(Debug)]
pub struct BatchSession {
    /// The recording as PCM.
    pub pieces: Vec<Vec<u8>>,
    /// Whether the session is set up and the recording was sent.
    pub set_up: bool,
}

impl BatchSession {
    /// Every piece fits in memory as Base64.
    pub open spec fn wf(self) -> bool {
        forall|i: int|
            0 <= i < self.pieces@.len() ==> (#[trigger] self.pieces@[i])@.len() <= usize::MAX / 4
    }

    /// Nothing is sent until the session is set up; then the recording is, and
    /// its transcript awaited.
    pub open spec fn on(self, received: Received) -> BatchView {
        if self.set_up {
            batch_on(received)
        } else {
            match handshake_on(received) {
                HandshakeView::Wait => BatchView::Wait,
                HandshakeView::Ready => BatchView::Send(
                    batch_plan(self.pieces@.map_values(|p: Vec<u8>| p@)),
                ),
                HandshakeView::Fail(e) => BatchView::Done { close: false, result: Err(e) },
            }
        }
    }

    /// The session after something was received.
    pub open spec fn after(self, received: Received) -> BatchSession {
        BatchSession { set_up: self.set_up || self.on(received) is Send, ..self }
    }

    /// A recording whose session was just asked for.
    pub fn new(pieces: Vec<Vec<u8>>) -> (res: Self)
        requires
            forall|i: int|
                0 <= i < pieces@.len() ==> (#[trigger] pieces@[i])@.len() <= usize::MAX / 4,
        ensures
            res.wf(),
            res.pieces == pieces,
            !res.set_up,
    {
        BatchSession { pieces, set_up: false }
    }

    /// How long the next message may take, in seconds: from when the session
    /// was asked for, or from when the recording was sent.
    pub fn limit_secs(&self) -> (res: u64)
        ensures
            res == (if self.set_up {
                30u64
            } else {
                10u64
            }),
    {
        if self.set_up {
            BATCH_TIMEOUT_SECS
        } else {
            SESSION_UPDATE_TIMEOUT_SECS
        }
    }

    /// What to do next.
    pub fn step(&mut self, received: Received) -> (res: BatchStep)
        requires
            old(self).wf(),
        ensures
            res@ == old(self).on(received),
            *final(self) == old(self).after(received),
            final(self).wf(),
            res matches BatchStep::Send(messages) ==> carried(
                messages@.map_values(|o: Outgoing| o@).drop_last(),
            ) == concat(old(self).pieces@.map_values(|p: Vec<u8>| p@)),
    {
        if self.set_up {
            batch_step(received)
        } else {
            match handshake_step(&received) {
                HandshakeStep::Wait => BatchStep::Wait,
                HandshakeStep::Ready => {
                    self.set_up = true;
                    BatchStep::Send(batch_messages(self.pieces.as_slice()))
                },
                HandshakeStep::Fail(e) => BatchStep::Done { close: false, result: Err(e) },
            }
        }
    }
}

/// A recording is sent when the server has acknowledged the session, and at no
/// other time, so once at most; before that nothing is sent at all.
pub proof fn law_recording_waits_for_the_session(s: BatchSession, received: Received)
    ensures
        s.on(received) is Send <==> !s.set_up && (received matches Received::Message(
            WireMessage::Text(t),
        ) && wire::event_in(t@) is SessionUpdated),
        !s.set_up ==> !(s.on(received) is Pong),
        !s.set_up ==> (s.on(received) matches BatchView::Done { close, result } ==> !close
            && result is Err),
{
}

/// The messages that are sent over what is received until there is a result.
pub open spec fn batch_sent(s: BatchSession, received: Seq<Received>) -> Seq<OutgoingView>
    decreases received.len(),
{
    if received.len() == 0 {
        Seq::empty()
    } else {
        let rest = batch_sent(s.after(received[0]), received.skip(1));
        match s.on(received[0]) {
            BatchView::Wait => rest,
            BatchView::Send(messages) => messages + rest,
            BatchView::Pong(payload) => seq![OutgoingView::Pong(payload)] + rest,
            BatchView::Done { .. } => Seq::empty(),
        }
    }
}

/// The result over what is received, once there is one.
pub open spec fn batch_result(s: BatchSession, received: Seq<Received>) -> Option<
    Result<Seq<char>, ErrorView>,
>
    decreases received.len(),
{
    if received.len() == 0 {
        None
    } else {
        match s.on(received[0]) {
            BatchView::Done { result, .. } => Some(result),
            _ => batch_result(s.after(received[0]), received.skip(1)),
        }
    }
}

/// Whatever is received, first of all the recording is sent, in full and in
/// order, with its commit, or nothing is; whatever is sent after it answers
/// pings. There is a transcript only of a recording that was sent.
pub proof fn law_recording_is_sent_once(s: BatchSession, received: Seq<Received>)
    ensures
        s.set_up ==> forall|i: int|
            0 <= i < batch_sent(s, received).len() ==> #[trigger] batch_sent(s, received)[i] is Pong,
        !s.set_up && batch_sent(s, received).len() > 0 ==> {
            let plan = batch_plan(s.pieces@.map_values(|p: Vec<u8>| p@));
            &&& plan.is_prefix_of(batch_sent(s, received))
            &&& forall|i: int|
                plan.len() <= i < batch_sent(s, received).len() ==> #[trigger] batch_sent(
                    s,
                    received,
                )[i] is Pong
        },
        !s.set_up && (batch_result(s, received) matches Some(result) && result is Ok)
            ==> batch_sent(s, received).len() > 0,
    decreases received.len(),
{
    if received.len() > 0 {
        let next = s.after(received[0]);
        let rest = batch_sent(next, received.skip(1));
        let all = batch_sent(s, received);
        law_recording_waits_for_the_session(s, received[0]);
        law_recording_is_sent_once(next, received.skip(1));
        match s.on(received[0]) {
            BatchView::Send(messages) => {
                assert(all == messages + rest);
                assert forall|i: int| messages.len() <= i < all.len() implies #[trigger] all[i]
                    is Pong by {
                    assert(rest[i - messages.len()] is Pong);
                }
                assert(messages.is_prefix_of(all));
            },
            BatchView::Pong(payload) => {
                assert forall|i: int| 0 <= i < all.len() implies #[trigger] all[i] is Pong by {
                    if i > 0 {
                        assert(rest[i - 1] is Pong);
                    }
                }
            },
            _ => {},
        }
    }
}

/// No session is taken for set up before the server has acknowledged it.
pub proof fn law_ready_means_acknowledged(received: Received)
    ensures
        handshake_on(received) is Ready <==> (received matches Received::Message(
            WireMessage::Text(t),
        ) && wire::event_in(t@) is SessionUpdated),
{
}

/// Before the session is set up, the server's error is the error of the
/// session, in the server's own words; and nothing else that the server says
/// makes it fail.
pub proof fn law_server_error_is_fatal(event: ServerEventView)
    ensures
        match event {
            ServerEventView::Error { detail } => handshake_on_event(event) == HandshakeView::Fail(
                ErrorView::InferenceFailed(
                    "OpenAI Realtime: fatal error during session configuration: "@ + detail,
                ),
            ),
            _ => !(handshake_on_event(event) is Fail),
        },
{
}

/// What is said of a failure names what failed, and why.
pub proof fn law_failures_are_named(reason: String)
    ensures
        LinkFailure::ConnectTimeout.text() == "OpenAI Realtime: connect timeout"@,
        LinkFailure::Connect(reason).text() == "OpenAI Realtime: WS connect failed: "@ + reason@,
        LinkFailure::SendSessionUpdate(reason).text()
            == "OpenAI Realtime: send session.update failed: "@ + reason@,
        LinkFailure::SendAudio(reason).text() == "OpenAI Realtime: send audio failed: "@ + reason@,
        LinkFailure::SendCommit(reason).text() == "OpenAI Realtime: send commit failed: "@
            + reason@,
        LinkFailure::Socket(reason).text() == "OpenAI Realtime: WS error: "@ + reason@,
{
}

/// While the session is being set up, only the acknowledgement ends the waiting
/// well; an error of the server, the end of the connection and of the time end
/// it badly, each in its own words; and nothing else ends it.
pub proof fn law_setting_up(message: String, reason: String, payload: Vec<u8>)
    ensures
        ({
            let on_text = handshake_on(Received::Message(WireMessage::Text(message)));
            match wire::event_in(message@) {
                ServerEventView::SessionUpdated => on_text == HandshakeView::Ready,
                ServerEventView::Error { detail } => on_text == HandshakeView::Fail(
                    ErrorView::InferenceFailed(
                        "OpenAI Realtime: fatal error during session configuration: "@ + detail,
                    ),
                ),
                _ => on_text == HandshakeView::Wait,
            }
        }),
        handshake_on(Received::Message(WireMessage::Ping(payload))) == HandshakeView::Wait,
        handshake_on(Received::Message(WireMessage::Other)) == HandshakeView::Wait,
        handshake_on(Received::Message(WireMessage::Close)) == HandshakeView::Fail(
            ErrorView::InferenceFailed(
                "OpenAI Realtime: connection closed awaiting session.updated"@,
            ),
        ),
        handshake_on(Received::SocketError(reason)) == HandshakeView::Fail(
            ErrorView::InferenceFailed(
                "OpenAI Realtime: WS error while awaiting session.updated: "@ + reason@,
            ),
        ),
        handshake_on(Received::EndOfStream) == handshake_on(Received::TimedOut),
        handshake_on(Received::TimedOut) == HandshakeView::Fail(
            ErrorView::InferenceFailed(
                "OpenAI Realtime: connection closed/timed out awaiting session.updated"@,
            ),
        ),
        handshake_on(Received::Expired) == HandshakeView::Fail(
            ErrorView::InferenceFailed("OpenAI Realtime: timed out waiting for session.updated"@),
        ),
{
}

/// Whether `result` is `transcript` but for the white space at its two ends: a
/// part of it that neither starts nor ends with white space, with nothing but
/// white space before and after.
pub open spec fn is_without_margins(result: Seq<char>, transcript: Seq<char>) -> bool {
    &&& exists|lo: int, hi: int|
        #![trigger transcript.subrange(lo, hi)]
        {
            &&& 0 <= lo <= hi <= transcript.len()
            &&& result == transcript.subrange(lo, hi)
            &&& forall|i: int| 0 <= i < lo ==> text::is_white_space(#[trigger] transcript[i])
            &&& forall|i: int|
                hi <= i < transcript.len() ==> text::is_white_space(#[trigger] transcript[i])
        }
    &&& result.len() > 0 ==> !text::is_white_space(result[0]) && !text::is_white_space(
        result.last(),
    )
}

/// The result of a recording that was sent is the transcript that completes it,
/// whole but for the white space around it.
pub proof fn law_transcript_is_the_result(
    s: BatchSession,
    message: String,
    item_id: Seq<char>,
    transcript: Seq<char>,
)
    requires
        s.set_up,
        wire::event_in(message@) == (ServerEventView::Completed { item_id, transcript }),
    ensures
        s.on(Received::Message(WireMessage::Text(message))) matches BatchView::Done {
            close,
            result,
        } && close && (result matches Ok(t) && is_without_margins(t, transcript) && (
        transcript.len() > 0 && !text::is_white_space(transcript[0]) && !text::is_white_space(
            transcript.last(),
        ) ==> t == transcript)),
{
    text::law_trimmed(transcript);
    text::law_nothing_to_trim(transcript);
}

/// What else a recording that was sent can come to: its failure, an error of
/// the server, one of the socket, or the end of the time, each in its own words;
/// the empty transcript where the connection ends. Pings are answered with what
/// they carry, and all else is passed over.
pub proof fn law_awaiting_the_transcript(
    s: BatchSession,
    message: String,
    reason: String,
    payload: Vec<u8>,
)
    requires
        s.set_up,
    ensures
        ({
            let on_text = s.on(Received::Message(WireMessage::Text(message)));
            match wire::event_in(message@) {
                ServerEventView::Completed { .. } => on_text is Done,
                ServerEventView::Failed { .. } => on_text == (BatchView::Done {
                    close: true,
                    result: Err(
                        ErrorView::InferenceFailed("OpenAI Realtime: transcription item failed"@),
                    ),
                }),
                ServerEventView::Error { detail } => on_text == (BatchView::Done {
                    close: true,
                    result: Err(ErrorView::InferenceFailed("OpenAI Realtime error: "@ + detail)),
                }),
                _ => on_text == BatchView::Wait,
            }
        }),
        s.on(Received::Message(WireMessage::Ping(payload))) == BatchView::Pong(payload@),
        s.on(Received::Message(WireMessage::Other)) == BatchView::Wait,
        s.on(Received::Message(WireMessage::Close)) == (BatchView::Done {
            close: false,
            result: Ok(Seq::empty()),
        }),
        s.on(Received::EndOfStream) == (BatchView::Done { close: false, result: Ok(Seq::empty()) }),
        s.on(Received::SocketError(reason)) == (BatchView::Done {
            close: false,
            result: Err(ErrorView::InferenceFailed("OpenAI Realtime: WS error: "@ + reason@)),
        }),
        s.on(Received::TimedOut) == (BatchView::Done {
            close: false,
            result: Err(ErrorView::InferenceFailed("OpenAI Realtime: batch timeout"@)),
        }),
        s.on(Received::Expired) == s.on(Received::TimedOut),
{
}

/// Before the session is set up, a recording goes by how that goes: it waits,
/// it is sent, or it fails with the same error.
pub proof fn law_before_the_recording_is_sent(s: BatchSession, received: Received)
    requires
        !s.set_up,
    ensures
        match handshake_on(received) {
            HandshakeView::Wait => s.on(received) == BatchView::Wait,
            HandshakeView::Ready => s.on(received) matches BatchView::Send(messages) && messages
                == batch_plan(s.pieces@.map_values(|p: Vec<u8>| p@)),
            HandshakeView::Fail(e) => s.on(received) == (BatchView::Done {
                close: false,
                result: Err(e),
            }),
        },
        s.after(received).pieces == s.pieces,
        s.after(received).set_up <==> handshake_on(received) is Ready,
{
}

/// Whether something received leaves a recording that was sent without a
/// result.
pub open spec fn is_passed_over(received: Received) -> bool {
    match received {
        Received::Message(WireMessage::Text(t)) => match wire::event_in(t@) {
            ServerEventView::Completed { .. } => false,
            ServerEventView::Failed { .. } => false,
            ServerEventView::Error { .. } => false,
            _ => true,
        },
        Received::Message(WireMessage::Ping(_)) => true,
        Received::Message(WireMessage::Other) => true,
        _ => false,
    }
}

/// The result of a recording that was sent is the first transcript that
/// arrives, whatever came before it and comes after.
pub proof fn law_first_transcript_is_the_result(
    s: BatchSession,
    received: Seq<Received>,
    k: int,
    message: String,
    item_id: Seq<char>,
    transcript: Seq<char>,
)
    requires
        s.set_up,
        0 <= k < received.len(),
        forall|i: int| 0 <= i < k ==> is_passed_over(#[trigger] received[i]),
        received[k] == Received::Message(WireMessage::Text(message)),
        wire::event_in(message@) == (ServerEventView::Completed { item_id, transcript }),
    ensures
        batch_result(s, received) matches Some(Ok(t)) && is_without_margins(t, transcript),
    decreases k,
{
    law_transcript_is_the_result(s, message, item_id, transcript);
    if k > 0 {
        assert(is_passed_over(received[0]));
        let rest = received.skip(1);
        assert forall|i: int| 0 <= i < k - 1 implies is_passed_over(#[trigger] rest[i]) by {
            assert(rest[i] == received[i + 1]);
        }
        law_first_transcript_is_the_result(
            s.after(received[0]),
            rest,
            k - 1,
            message,
            item_id,
            transcript,
        );
    }
}

/// The pieces of a recording are sent one by one, each as it is, but for those
/// without audio.
pub proof fn law_pieces_one_by_one(a: Seq<Seq<u8>>, b: Seq<Seq<u8>>, piece: Seq<u8>)
    ensures
        non_empty(a + b) == non_empty(a) + non_empty(b),
        piece.len() > 0 ==> non_empty(seq![piece]) == seq![piece],
        piece.len() == 0 ==> non_empty(seq![piece]).len() == 0,
        non_empty(Seq::<Seq<u8>>::empty()).len() == 0,
    decreases b.len(),
{
    assert(seq![piece].drop_last() =~= Seq::<Seq<u8>>::empty());
    assert(seq![piece].last() == piece);
    assert(non_empty(Seq::<Seq<u8>>::empty()) =~= Seq::empty());
    if piece.len() > 0 {
        assert(non_empty(seq![piece]) =~= seq![piece]);
    }
    if b.len() == 0 {
        assert(a + b =~= a);
        assert(non_empty(a) + non_empty(b) =~= non_empty(a));
    } else {
        law_pieces_one_by_one(a, b.drop_last(), piece);
        assert((a + b).drop_last() =~= a + b.drop_last());
        assert((a + b).last() == b.last());
        assert(non_empty(a + b) =~= non_empty(a) + non_empty(b));
    }
}

/// A step is seen as what it is, with all that it holds.
pub proof fn law_steps_keep_their_parts(
    error: TranscribeError,
    payload: Vec<u8>,
    transcript: String,
    close: bool,
    messages: Vec<Outgoing>,
)
    ensures
        HandshakeStep::Wait@ == HandshakeView::Wait,
        HandshakeStep::Ready@ == HandshakeView::Ready,
        HandshakeStep::Fail(error)@ == HandshakeView::Fail(error@),
        BatchStep::Wait@ == BatchView::Wait,
        BatchStep::Pong(payload)@ == BatchView::Pong(payload@),
        (BatchStep::Done { close, result: Ok(transcript) })@ == (BatchView::Done {
            close,
            result: Ok(transcript@),
        }),
        (BatchStep::Done { close, result: Err(error) })@ == (BatchView::Done {
            close,
            result: Err(error@),
        }),
        BatchStep::Send(messages)@ matches BatchView::Send(seen) && seen.len() == messages@.len()
            && forall|i: int| 0 <= i < seen.len() ==> #[trigger] seen[i] == messages@[i]@,
{
}

/// A message of a running recording holds 80 ms of audio at two bytes a sample,
/// one of a whole recording comes from 100 ms; connecting and a transcript may
/// take 30 s each, setting the session up 10 s, and last events 3 s.
pub proof fn law_sizes_and_times()
    ensures
        CHUNK_BYTES * 1000 == 2 * 24_000 * 80,
        BATCH_INPUT_CHUNK_SAMPLES * 1000 == SOURCE_SAMPLE_RATE * 100,
        SOURCE_SAMPLE_RATE == 16_000,
        CONNECT_TIMEOUT_SECS == 30 && BATCH_TIMEOUT_SECS == 30,
        SESSION_UPDATE_TIMEOUT_SECS == 10 && DRAIN_TIMEOUT_SECS == 3,
{
}

} // verus!
