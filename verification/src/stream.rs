//! A streaming session: audio out, events in.

use crate::cursor;
use crate::event::{event_view, typed, ErrorView, EventView, StreamingEvent, TranscribeError};
use crate::pcm;
use crate::reconcile::{Reconciler, ReconcilerView};
use crate::session::{LinkFailure, CHUNK_BYTES};
use crate::text;
use crate::wire;
use crate::wire::{ServerEvent, ServerEventView, WireMessage};
use vstd::arithmetic::div_mod::*;
use vstd::arithmetic::mul::*;
use vstd::prelude::*;
use vstd::slice::*;
use vstd::string::*;

verus! {

/// A session whose connection is set up.
pub struct StreamSession {
    pub reconciler: Reconciler,
    /// Audio that does not fill a message yet.
    pub pending: Vec<u8>,
    /// Whether the server finds the ends of turns itself.
    pub turn_detection: bool,
    /// Whether deltas are typed as they arrive.
    pub type_partials: bool,
    /// Whether the recording has stopped and the server was told.
    pub stopping: bool,
}

/// A [`StreamSession`] over sequences and maps.
#[verifier::ext_equal]
pub struct SessionView {
    pub reconciler: ReconcilerView,
    pub pending: Seq<u8>,
    pub turn_detection: bool,
    pub type_partials: bool,
    pub stopping: bool,
}

impl View for StreamSession {
    type V = SessionView;

    open spec fn view(&self) -> SessionView {
        SessionView {
            reconciler: self.reconciler@,
            pending: self.pending@,
            turn_detection: self.turn_detection,
            type_partials: self.type_partials,
            stopping: self.stopping,
        }
    }
}

/// What can happen to a session.
#[derive(Debug)]
pub enum StreamInput {
    /// The consumer wants no more.
    Cancelled,
    /// The time for events after the recording is over.
    DrainElapsed,
    /// Recorded audio, as PCM.
    Audio(Vec<u8>),
    /// The recording has stopped.
    AudioEnded,
    /// A message of the server.
    Message(WireMessage),
    /// The socket failed.
    SocketError(String),
    /// The stream of messages is over.
    EndOfStream,
    /// Recorded audio could not be sent.
    SendFailed(String),
    /// An event found no consumer.
    ConsumerGone,
}

/// A message to the server.
#[derive(Debug)]
pub enum Outgoing {
    Text(String),
    Pong(Vec<u8>),
    Close,
}

/// An [`Outgoing`] over sequences.
pub enum OutgoingView {
    Text(Seq<char>),
    Pong(Seq<u8>),
    Close,
}

impl View for Outgoing {
    type V = OutgoingView;

    open spec fn view(&self) -> OutgoingView {
        match *self {
            Outgoing::Text(t) => OutgoingView::Text(t@),
            Outgoing::Pong(p) => OutgoingView::Pong(p@),
            Outgoing::Close => OutgoingView::Close,
        }
    }
}

/// What to do about an input: send messages, emit an event, go on or stop.
#[derive(Debug)]
pub struct StreamOutput {
    pub send: Vec<Outgoing>,
    /// Whether a message that cannot be sent is the next input, in place of
    /// the messages after it. Otherwise it is passed over.
    pub must_send: bool,
    /// Whether the time for events after the recording starts once the
    /// messages are sent.
    pub drain: bool,
    pub event: Option<StreamingEvent>,
    pub stop: bool,
}

/// A [`StreamOutput`] over sequences.
#[verifier::ext_equal]
pub struct OutputView {
    pub send: Seq<OutgoingView>,
    pub must_send: bool,
    pub drain: bool,
    pub event: Option<EventView>,
    pub stop: bool,
}

impl View for StreamOutput {
    type V = OutputView;

    open spec fn view(&self) -> OutputView {
        OutputView {
            send: self.send@.map_values(|o: Outgoing| o@),
            must_send: self.must_send,
            drain: self.drain,
            event: event_view(self.event),
            stop: self.stop,
        }
    }
}

impl OutputView {
    pub open spec fn nothing() -> OutputView {
        OutputView {
            send: Seq::empty(),
            must_send: false,
            drain: false,
            event: None,
            stop: false,
        }
    }

    pub open spec fn stopped(event: Option<EventView>) -> OutputView {
        OutputView { event, stop: true, ..OutputView::nothing() }
    }

    pub open spec fn emitting(event: Option<EventView>) -> OutputView {
        OutputView { event, ..OutputView::nothing() }
    }

    pub open spec fn sending(send: Seq<OutgoingView>) -> OutputView {
        OutputView { send, ..OutputView::nothing() }
    }
}

/// How many full messages there are in `audio`.
pub open spec fn frame_count(audio: Seq<u8>) -> int {
    audio.len() as int / CHUNK_BYTES as int
}

/// The full messages in `audio`, in order.
pub open spec fn frames(audio: Seq<u8>) -> Seq<Seq<u8>> {
    Seq::new(
        frame_count(audio) as nat,
        |i: int| audio.subrange(i * CHUNK_BYTES, (i + 1) * CHUNK_BYTES),
    )
}

/// What is left of `audio` after its full messages.
pub open spec fn unframed(audio: Seq<u8>) -> Seq<u8> {
    audio.skip(frame_count(audio) * CHUNK_BYTES)
}

/// The audio that messages carry, one after the other.
pub open spec fn carried(send: Seq<OutgoingView>) -> Seq<u8>
    decreases send.len(),
{
    if send.len() == 0 {
        Seq::empty()
    } else {
        carried(send.drop_last()) + match send.last() {
            OutgoingView::Text(t) => wire::carried_audio(t),
            _ => Seq::empty(),
        }
    }
}

/// The messages that carry `frames`.
pub open spec fn append_all(frames: Seq<Seq<u8>>) -> Seq<OutgoingView> {
    frames.map_values(|f: Seq<u8>| OutgoingView::Text(wire::append_text(f)))
}

impl SessionView {
    pub open spec fn wf(self) -> bool {
        &&& self.reconciler.wf()
        &&& self.pending.len() < CHUNK_BYTES
    }

    /// Whether there is a segment for `event`, if it needs a new one.
    pub open spec fn has_segment_for(self, event: ServerEventView) -> bool {
        self.reconciler.next < u64::MAX || match event {
            ServerEventView::Delta { item_id, delta } => delta.len() == 0
                || self.reconciler.items.contains_key(item_id),
            ServerEventView::Completed { item_id, .. } => self.reconciler.items.contains_key(
                item_id,
            ),
            _ => true,
        }
    }

    /// The messages that end the last turn: the audio not sent yet, then
    /// silence where the server finds the end of the turn, or else a commit.
    pub open spec fn stop_messages(self) -> Seq<OutgoingView> {
        let tail = if self.pending.len() == 0 {
            Seq::empty()
        } else {
            seq![OutgoingView::Text(wire::append_text(self.pending))]
        };
        tail.push(
            if self.turn_detection {
                OutgoingView::Text(wire::append_text(pcm::silence()))
            } else {
                OutgoingView::Text(wire::commit_text())
            },
        )
    }

    /// Whether the server finds in `send` the audio not sent yet, and then the
    /// silence or else one more message.
    pub open spec fn rest_is_in(self, send: Seq<OutgoingView>) -> bool {
        if self.turn_detection {
            carried(send) == self.pending + pcm::silence()
        } else {
            carried(send.drop_last()) == self.pending
        }
    }

    pub open spec fn after_event(self, event: ServerEventView) -> SessionView {
        let r = self.reconciler;
        match event {
            ServerEventView::Delta { item_id, delta } => SessionView {
                reconciler: r.after_delta(item_id, delta, self.type_partials),
                ..self
            },
            ServerEventView::Completed { item_id, transcript } => SessionView {
                reconciler: r.after_completed(item_id),
                ..self
            },
            ServerEventView::Failed { item_id } => SessionView {
                reconciler: r.after_failed(item_id),
                ..self
            },
            _ => self,
        }
    }

    pub open spec fn on_event(self, event: ServerEventView) -> OutputView {
        let r = self.reconciler;
        match event {
            ServerEventView::Delta { item_id, delta } => OutputView::emitting(
                r.delta_event(item_id, delta, self.type_partials),
            ),
            ServerEventView::Completed { item_id, transcript } => OutputView::emitting(
                r.completed_event(item_id, transcript),
            ),
            ServerEventView::Failed { item_id } => OutputView::emitting(r.failed_event(item_id)),
            ServerEventView::Error { detail } => OutputView::stopped(
                Some(
                    EventView::Error(
                        ErrorView::InferenceFailed("OpenAI Realtime error: "@ + detail),
                    ),
                ),
            ),
            _ => OutputView::nothing(),
        }
    }

    pub open spec fn after(self, input: StreamInput) -> SessionView {
        match input {
            StreamInput::Audio(bytes) => if self.stopping {
                self
            } else {
                SessionView { pending: unframed(self.pending + bytes@), ..self }
            },
            StreamInput::AudioEnded => if self.stopping {
                self
            } else {
                SessionView { pending: Seq::empty(), stopping: true, ..self }
            },
            StreamInput::Message(WireMessage::Text(t)) => self.after_event(wire::event_in(t@)),
            _ => self,
        }
    }

    pub open spec fn on(self, input: StreamInput) -> OutputView {
        match input {
            StreamInput::Cancelled => OutputView::stopped(None),
            StreamInput::DrainElapsed => if self.stopping {
                OutputView::stopped(None)
            } else {
                OutputView::nothing()
            },
            StreamInput::Audio(bytes) => if self.stopping {
                OutputView::nothing()
            } else {
                OutputView {
                    must_send: true,
                    ..OutputView::sending(append_all(frames(self.pending + bytes@)))
                }
            },
            StreamInput::AudioEnded => if self.stopping {
                OutputView::nothing()
            } else {
                OutputView { drain: true, ..OutputView::sending(self.stop_messages()) }
            },
            StreamInput::Message(WireMessage::Text(t)) => self.on_event(wire::event_in(t@)),
            StreamInput::Message(WireMessage::Ping(p)) => OutputView::sending(
                seq![OutgoingView::Pong(p@)],
            ),
            StreamInput::Message(WireMessage::Close) => OutputView::stopped(None),
            StreamInput::Message(WireMessage::Other) => OutputView::nothing(),
            StreamInput::SocketError(e) => OutputView::stopped(
                Some(
                    EventView::Error(
                        ErrorView::InferenceFailed("OpenAI Realtime: WS error: "@ + e@),
                    ),
                ),
            ),
            StreamInput::EndOfStream => OutputView::stopped(None),
            StreamInput::SendFailed(e) => OutputView::stopped(
                Some(
                    EventView::Error(
                        ErrorView::InferenceFailed("OpenAI Realtime: send audio failed: "@ + e@),
                    ),
                ),
            ),
            StreamInput::ConsumerGone => OutputView::stopped(None),
        }
    }
}

/// The full messages in `audio`, and what is left of it.
fn cut(audio: &Vec<u8>) -> (res: (Vec<Vec<u8>>, Vec<u8>))
    ensures
        res.0@.len() == frame_count(audio@),
        forall|i: int|
            0 <= i < res.0@.len() ==> (#[trigger] res.0@[i])@ == frames(audio@)[i],
        res.1@ == unframed(audio@),
{
    let total: usize = audio.len();
    let count: usize = total / CHUNK_BYTES;
    let mut full: Vec<Vec<u8>> = Vec::new();
    let mut start: usize = 0;
    proof {
        lemma_fundamental_div_mod(audio@.len() as int, CHUNK_BYTES as int);
        lemma_mod_bound(audio@.len() as int, CHUNK_BYTES as int);
    }
    for i in 0..count
        invariant
            total == audio@.len(),
            count == frame_count(audio@),
            count * CHUNK_BYTES <= total,
            start == i * CHUNK_BYTES,
            full@.len() == i,
            forall|k: int| 0 <= k < i ==> (#[trigger] full@[k])@ == frames(audio@)[k],
    {
        proof {
            lemma_mul_inequality(i + 1, count as int, CHUNK_BYTES as int);
            lemma_mul_is_distributive_add_other_way(CHUNK_BYTES as int, i as int, 1);
        }
        let frame = slice_to_vec(
            slice_subrange(audio.as_slice(), start, start + CHUNK_BYTES),
        );
        full.push(frame);
        start = start + CHUNK_BYTES;
    }
    let rest = slice_to_vec(slice_subrange(audio.as_slice(), start, total));
    assert(rest@ =~= unframed(audio@));
    (full, rest)
}

/// An output that only stops the session, after an event if there is one.
fn stop(event: Option<StreamingEvent>) -> (res: StreamOutput)
    ensures
        res@ == OutputView::stopped(event_view(event)),
{
    let res = StreamOutput { send: Vec::new(), must_send: false, drain: false, event, stop: true };
    assert(res@.send =~= Seq::empty());
    res
}

/// An output that only emits an event, if there is one.
fn emit(event: Option<StreamingEvent>) -> (res: StreamOutput)
    ensures
        res@ == OutputView::emitting(event_view(event)),
{
    let res = StreamOutput { send: Vec::new(), must_send: false, drain: false, event, stop: false };
    assert(res@.send =~= Seq::empty());
    res
}

impl StreamSession {
    /// A session that was just set up.
    pub fn new(turn_detection: bool, type_partials: bool) -> (res: Self)
        ensures
            res@ == (SessionView {
                reconciler: ReconcilerView::empty(),
                pending: Seq::empty(),
                turn_detection,
                type_partials,
                stopping: false,
            }),
            res@.wf(),
    {
        StreamSession {
            reconciler: Reconciler::default(),
            pending: Vec::new(),
            turn_detection,
            type_partials,
            stopping: false,
        }
    }

    /// Whether there is a segment left for one more item.
    pub fn can_take_message(&self) -> (res: bool)
        ensures
            res == (self.reconciler.next_segment_id < u64::MAX),
    {
        self.reconciler.next_segment_id < u64::MAX
    }

    /// What to do about an event of the server.
    pub fn handle(&mut self, event: &ServerEvent) -> (res: StreamOutput)
        requires
            old(self)@.wf(),
            old(self)@.has_segment_for(event@),
        ensures
            final(self)@ == old(self)@.after_event(event@),
            res@ == old(self)@.on_event(event@),
            final(self)@.wf(),
    {
        match event {
            ServerEvent::Delta { item_id, delta } => emit(
                self.reconciler.process_delta(
                    item_id.as_str(),
                    delta.as_str(),
                    self.type_partials,
                ),
            ),
            ServerEvent::Completed { item_id, transcript } => emit(
                self.reconciler.process_completed(item_id.as_str(), transcript.as_str()),
            ),
            ServerEvent::Failed { item_id } => emit(
                self.reconciler.process_failed(item_id.as_str()),
            ),
            ServerEvent::Error { detail } => stop(
                Some(
                    StreamingEvent::Error(
                        TranscribeError::InferenceFailed(
                            text::joined("OpenAI Realtime error: ", detail.as_str()),
                        ),
                    ),
                ),
            ),
            _ => emit(None),
        }
    }

    /// Takes recorded audio and gives the messages that it fills.
    fn take_audio(&mut self, bytes: &[u8]) -> (res: Vec<Outgoing>)
        requires
            old(self)@.wf(),
        ensures
            final(self)@ == (SessionView {
                pending: unframed(old(self)@.pending + bytes@),
                ..old(self)@
            }),
            res@.map_values(|o: Outgoing| o@) == append_all(frames(old(self)@.pending + bytes@)),
            carried(res@.map_values(|o: Outgoing| o@)) + final(self)@.pending == old(self)@.pending
                + bytes@,
            final(self)@.wf(),
    {
        let mut audio: Vec<u8> = slice_to_vec(self.pending.as_slice());
        audio.extend_from_slice(bytes);
        assert(audio@ =~= self.pending@ + bytes@);
        let (full, rest) = cut(&audio);
        let mut send: Vec<Outgoing> = Vec::new();
        for i in 0..full.len()
            invariant
                full@.len() == frame_count(audio@),
                forall|k: int|
                    0 <= k < full@.len() ==> (#[trigger] full@[k])@ == frames(audio@)[k],
                send@.len() == i,
                forall|k: int|
                    0 <= k < i ==> (#[trigger] send@[k])@ == append_all(frames(audio@))[k],
                forall|k: int|
                    0 <= k < i ==> wire::carried_audio(
                        wire::append_text(#[trigger] frames(audio@)[k]),
                    ) == frames(audio@)[k],
        {
            proof {
                lemma_frame_len(audio@, i as int);
                assert(full@[i as int]@ == frames(audio@)[i as int]);
            }
            if let Some(message) = wire::append_frame(full[i].as_slice()) {
                send.push(Outgoing::Text(message));
            }
        }
        proof {
            lemma_unframed_len(audio@);
            assert(send@.map_values(|o: Outgoing| o@) =~= append_all(frames(audio@)));
            lemma_carried(frames(audio@));
            law_cutting_keeps_audio(audio@);
        }
        self.pending = rest;
        send
    }

    /// Ends the last turn: the audio that is left, then silence or a commit.
    fn end_audio(&mut self) -> (res: Vec<Outgoing>)
        requires
            old(self)@.wf(),
        ensures
            final(self)@ == (SessionView {
                pending: Seq::empty(),
                stopping: true,
                ..old(self)@
            }),
            res@.map_values(|o: Outgoing| o@) == old(self)@.stop_messages(),
            old(self)@.rest_is_in(res@.map_values(|o: Outgoing| o@)),
            final(self)@.wf(),
    {
        let ghost before = self@;
        let mut send: Vec<Outgoing> = Vec::new();
        if let Some(message) = wire::append_frame(self.pending.as_slice()) {
            send.push(Outgoing::Text(message));
        }
        if self.turn_detection {
            let silence = pcm::trailing_silence();
            if let Some(message) = wire::append_frame(silence.as_slice()) {
                send.push(Outgoing::Text(message));
            }
        } else {
            send.push(Outgoing::Text(wire::commit_message()));
        }
        self.pending = Vec::new();
        self.stopping = true;
        proof {
            let all = before.stop_messages();
            assert(send@.map_values(|o: Outgoing| o@) =~= all);
            assert(carried(all.drop_last()) =~= before.pending) by {
                reveal_with_fuel(carried, 3);
                if before.pending.len() > 0 {
                    assert(all.drop_last().drop_last() =~= Seq::empty());
                    assert(all.drop_last().last() == all[0]);
                } else {
                    assert(all.drop_last() =~= Seq::empty());
                }
            }
        }
        send
    }

    /// What to do about an input. Once the output says to stop, the session
    /// takes no more, and is closed by [`closing`].
    pub fn step(&mut self, input: StreamInput) -> (res: StreamOutput)
        requires
            old(self)@.wf(),
            input matches StreamInput::Message(WireMessage::Text(_))
                ==> old(self).reconciler.next_segment_id < u64::MAX,
        ensures
            final(self)@ == old(self)@.after(input),
            res@ == old(self)@.on(input),
            final(self)@.wf(),
            input matches StreamInput::Audio(bytes) ==> (!old(self)@.stopping ==> carried(res@.send)
                + final(self)@.pending == old(self)@.pending + bytes@),
            input is AudioEnded && !old(self)@.stopping ==> old(self)@.rest_is_in(res@.send),
    {
        match input {
            StreamInput::Cancelled => stop(None),
            StreamInput::DrainElapsed => {
                if self.stopping {
                    stop(None)
                } else {
                    emit(None)
                }
            },
            StreamInput::Audio(bytes) => {
                if self.stopping {
                    emit(None)
                } else {
                    let send = self.take_audio(bytes.as_slice());
                    StreamOutput { send, must_send: true, drain: false, event: None, stop: false }
                }
            },
            StreamInput::AudioEnded => {
                if self.stopping {
                    emit(None)
                } else {
                    let send = self.end_audio();
                    StreamOutput { send, must_send: false, drain: true, event: None, stop: false }
                }
            },
            StreamInput::Message(message) => match message {
                WireMessage::Text(t) => {
                    let event = wire::read_event(t.as_str());
                    self.handle(&event)
                },
                WireMessage::Ping(payload) => {
                    let mut send: Vec<Outgoing> = Vec::new();
                    send.push(Outgoing::Pong(payload));
                    let res = StreamOutput {
                        send,
                        must_send: false,
                        drain: false,
                        event: None,
                        stop: false,
                    };
                    assert(res@.send =~= seq![OutgoingView::Pong(payload@)]);
                    res
                },
                WireMessage::Close => stop(None),
                WireMessage::Other => emit(None),
            },
            StreamInput::SocketError(e) => stop(
                Some(StreamingEvent::Error(LinkFailure::Socket(e).to_error())),
            ),
            StreamInput::EndOfStream => stop(None),
            StreamInput::SendFailed(e) => stop(
                Some(StreamingEvent::Error(LinkFailure::SendAudio(e).to_error())),
            ),
            StreamInput::ConsumerGone => stop(None),
        }
    }
}

/// What ends every session that has stopped: a close message to the server,
/// and the last event.
pub fn closing() -> (res: (Outgoing, StreamingEvent))
    ensures
        res.0@ == OutgoingView::Close,
        res.1@ == EventView::Ended,
{
    (Outgoing::Close, StreamingEvent::Ended)
}

proof fn lemma_unframed_len(audio: Seq<u8>)
    ensures
        unframed(audio).len() == audio.len() as int % CHUNK_BYTES as int,
        unframed(audio).len() < CHUNK_BYTES,
        frame_count(audio) * CHUNK_BYTES <= audio.len(),
{
    lemma_fundamental_div_mod(audio.len() as int, CHUNK_BYTES as int);
    lemma_mod_bound(audio.len() as int, CHUNK_BYTES as int);
}

proof fn lemma_frame_len(audio: Seq<u8>, i: int)
    requires
        0 <= i < frame_count(audio),
    ensures
        frames(audio)[i].len() == CHUNK_BYTES,
{
    lemma_unframed_len(audio);
    lemma_mul_inequality(i + 1, frame_count(audio), CHUNK_BYTES as int);
    lemma_mul_is_distributive_add_other_way(CHUNK_BYTES as int, i, 1);
}

/// Whether the server finds each of `frames` in the message that carries it.
pub open spec fn found(frames: Seq<Seq<u8>>) -> bool {
    forall|k: int|
        0 <= k < frames.len() ==> wire::carried_audio(wire::append_text(#[trigger] frames[k]))
            == frames[k]
}

pub(crate) proof fn lemma_found_more(frames: Seq<Seq<u8>>, more: Seq<u8>)
    requires
        found(frames),
        wire::carried_audio(wire::append_text(more)) == more,
    ensures
        found(frames.push(more)),
{
    let all = frames.push(more);
    assert forall|k: int| 0 <= k < all.len() implies wire::carried_audio(
        wire::append_text(#[trigger] all[k]),
    ) == all[k] by {
        if k < frames.len() {
            assert(all[k] == frames[k]);
        }
    }
}

/// What the server finds in the messages is what was put into them.
pub(crate) proof fn lemma_carried(frames: Seq<Seq<u8>>)
    requires
        found(frames),
    ensures
        carried(append_all(frames)) == concat(frames),
    decreases frames.len(),
{
    if frames.len() > 0 {
        let rest = frames.drop_last();
        assert forall|k: int| 0 <= k < rest.len() implies wire::carried_audio(
            wire::append_text(#[trigger] rest[k]),
        ) == rest[k] by {
            assert(rest[k] == frames[k]);
        }
        lemma_carried(rest);
        assert(append_all(frames).drop_last() =~= append_all(rest));
        assert(frames.last() == frames[frames.len() - 1]);
    }
}

/// Frames, one after the other.
pub open spec fn concat(frames: Seq<Seq<u8>>) -> Seq<u8>
    decreases frames.len(),
{
    if frames.len() == 0 {
        Seq::empty()
    } else {
        concat(frames.drop_last()) + frames.last()
    }
}

proof fn lemma_concat_first_frames(audio: Seq<u8>, n: int)
    requires
        0 <= n <= frame_count(audio),
    ensures
        concat(frames(audio).take(n)) == audio.take(n * CHUNK_BYTES),
    decreases n,
{
    lemma_unframed_len(audio);
    lemma_mul_inequality(n, frame_count(audio), CHUNK_BYTES as int);
    if n > 0 {
        lemma_concat_first_frames(audio, n - 1);
        lemma_mul_is_distributive_sub_other_way(CHUNK_BYTES as int, n, 1);
        let f = frames(audio).take(n);
        assert(f.drop_last() =~= frames(audio).take(n - 1));
        assert(f.last() == audio.subrange((n - 1) * CHUNK_BYTES, n * CHUNK_BYTES));
        assert(audio.take(n * CHUNK_BYTES) =~= audio.take((n - 1) * CHUNK_BYTES) + f.last());
    } else {
        assert(frames(audio).take(0) =~= Seq::empty());
        assert(audio.take(0) =~= Seq::empty());
    }
}

/// No audio is lost or made up in cutting it into messages: the messages and
/// the rest are the audio. Every message is full, and the rest is not.
pub proof fn law_cutting_keeps_audio(audio: Seq<u8>)
    ensures
        concat(frames(audio)) + unframed(audio) == audio,
        forall|i: int|
            0 <= i < frames(audio).len() ==> (#[trigger] frames(audio)[i]).len() == CHUNK_BYTES,
        unframed(audio).len() < CHUNK_BYTES,
{
    lemma_unframed_len(audio);
    lemma_concat_first_frames(audio, frame_count(audio));
    assert(frames(audio).take(frame_count(audio)) =~= frames(audio));
    assert(concat(frames(audio)) + unframed(audio) =~= audio);
    assert forall|i: int| 0 <= i < frames(audio).len() implies (#[trigger] frames(
        audio,
    )[i]).len() == CHUNK_BYTES by {
        lemma_frame_len(audio, i);
    }
}

/// It makes no difference to the messages in which pieces audio arrives.
pub proof fn law_arrival_makes_no_difference(audio: Seq<u8>, more: Seq<u8>)
    ensures
        frames(audio + more) == frames(audio) + frames(unframed(audio) + more),
        unframed(audio + more) == unframed(unframed(audio) + more),
{
    let c = CHUNK_BYTES as int;
    let n = frame_count(audio);
    let rest = unframed(audio) + more;
    let m = frame_count(rest);
    lemma_unframed_len(audio);
    lemma_unframed_len(rest);
    assert((audio + more).len() == n * c + rest.len());
    lemma_hoist_over_denominator(rest.len() as int, n, c as nat);
    assert(frame_count(audio + more) == n + m);
    lemma_mul_is_distributive_add_other_way(c, n, m);
    let whole = frames(audio + more);
    let parts = frames(audio) + frames(rest);
    assert forall|i: int| 0 <= i < whole.len() implies #[trigger] whole[i] == parts[i] by {
        lemma_mul_is_distributive_add_other_way(c, i, 1);
        lemma_frame_len(audio + more, i);
        if i < n {
            lemma_frame_len(audio, i);
            lemma_mul_inequality(i + 1, n, c);
            lemma_mul_nonnegative(i, c);
            assert(whole[i] =~= parts[i]);
        } else {
            let j = i - n;
            lemma_frame_len(rest, j);
            lemma_mul_is_distributive_add_other_way(c, n, j);
            lemma_mul_is_distributive_add_other_way(c, j, 1);
            lemma_mul_nonnegative(j, c);
            lemma_mul_inequality(j + 1, m, c);
            assert(whole[i] =~= parts[i]);
        }
    }
    assert(whole =~= parts);
    assert(unframed(audio + more) =~= unframed(rest));
}

/// The messages that pieces of audio fill, piece by piece.
pub open spec fn frames_sent(pending: Seq<u8>, pieces: Seq<Seq<u8>>) -> Seq<Seq<u8>>
    decreases pieces.len(),
{
    if pieces.len() == 0 {
        Seq::empty()
    } else {
        frames(pending + pieces[0]) + frames_sent(
            unframed(pending + pieces[0]),
            pieces.skip(1),
        )
    }
}

/// The audio of all pieces, one after the other.
pub open spec fn audio_of(pieces: Seq<Seq<u8>>) -> Seq<u8>
    decreases pieces.len(),
{
    if pieces.len() == 0 {
        Seq::empty()
    } else {
        pieces[0] + audio_of(pieces.skip(1))
    }
}

/// The messages of a recording are those of its audio as a whole, however it
/// arrived.
pub proof fn law_messages_of_a_recording(pending: Seq<u8>, pieces: Seq<Seq<u8>>)
    requires
        pending.len() < CHUNK_BYTES,
    ensures
        frames_sent(pending, pieces) == frames(pending + audio_of(pieces)),
    decreases pieces.len(),
{
    if pieces.len() == 0 {
        assert(pending + audio_of(pieces) =~= pending);
        assert(frame_count(pending) == 0) by {
            lemma_basic_div(pending.len() as int, CHUNK_BYTES as int);
        }
        assert(frames(pending) =~= Seq::empty());
    } else {
        let first = pending + pieces[0];
        lemma_unframed_len(first);
        law_messages_of_a_recording(unframed(first), pieces.skip(1));
        law_arrival_makes_no_difference(first, audio_of(pieces.skip(1)));
        assert(first + audio_of(pieces.skip(1)) =~= pending + audio_of(pieces));
    }
}

/// A session that cannot send the audio of a running recording ends with an
/// error; no other message that is lost ends it.
pub proof fn law_lost_audio_ends(s: SessionView, input: StreamInput, reason: String)
    ensures
        s.on(input).must_send <==> input is Audio && !s.stopping,
        s.on(StreamInput::SendFailed(reason)).stop,
        s.on(StreamInput::SendFailed(reason)).event == Some(
            EventView::Error(
                ErrorView::InferenceFailed("OpenAI Realtime: send audio failed: "@ + reason@),
            ),
        ),
{
}

/// The session after the inputs that it takes: all of them, or those up to the
/// one that stops it.
pub open spec fn after_run(s: SessionView, inputs: Seq<StreamInput>) -> SessionView
    decreases inputs.len(),
{
    if inputs.len() == 0 {
        s
    } else if s.on(inputs[0]).stop {
        s.after(inputs[0])
    } else {
        after_run(s.after(inputs[0]), inputs.skip(1))
    }
}

/// The messages that the session sends over the inputs that it takes.
pub open spec fn sent(s: SessionView, inputs: Seq<StreamInput>) -> Seq<OutgoingView>
    decreases inputs.len(),
{
    if inputs.len() == 0 {
        Seq::empty()
    } else if s.on(inputs[0]).stop {
        s.on(inputs[0]).send
    } else {
        s.on(inputs[0]).send + sent(s.after(inputs[0]), inputs.skip(1))
    }
}

/// The events that the session emits over the inputs that it takes.
pub open spec fn events(s: SessionView, inputs: Seq<StreamInput>) -> Seq<EventView>
    decreases inputs.len(),
{
    if inputs.len() == 0 {
        Seq::empty()
    } else {
        let first = match s.on(inputs[0]).event {
            Some(e) => seq![e],
            None => Seq::empty(),
        };
        if s.on(inputs[0]).stop {
            first
        } else {
            first + events(s.after(inputs[0]), inputs.skip(1))
        }
    }
}

/// All that the consumer of a session is told: the events, then the end that
/// [`closing`] gives.
pub open spec fn told(s: SessionView, inputs: Seq<StreamInput>) -> Seq<EventView> {
    events(s, inputs).push(EventView::Ended)
}

/// The audio of each input.
pub open spec fn pieces_of(inputs: Seq<StreamInput>) -> Seq<Seq<u8>> {
    inputs.map_values(|i: StreamInput| i->Audio_0@)
}

/// What a session sends for a running recording are the messages that its
/// pieces fill, and so those of its audio as a whole; what fills none is kept.
pub proof fn law_recording_is_sent(s: SessionView, inputs: Seq<StreamInput>)
    requires
        s.wf(),
        !s.stopping,
        forall|i: int| 0 <= i < inputs.len() ==> #[trigger] inputs[i] is Audio,
    ensures
        sent(s, inputs) == append_all(frames_sent(s.pending, pieces_of(inputs))),
        sent(s, inputs) == append_all(frames(s.pending + audio_of(pieces_of(inputs)))),
        after_run(s, inputs) == (SessionView {
            pending: unframed(s.pending + audio_of(pieces_of(inputs))),
            ..s
        }),
    decreases inputs.len(),
{
    let pieces = pieces_of(inputs);
    law_messages_of_a_recording(s.pending, pieces);
    if inputs.len() == 0 {
        assert(append_all(frames_sent(s.pending, pieces)) =~= Seq::empty());
        assert(s.pending + audio_of(pieces) =~= s.pending);
        lemma_basic_div(s.pending.len() as int, CHUNK_BYTES as int);
        assert(unframed(s.pending) =~= s.pending);
    } else {
        let input = inputs[0];
        let rest = inputs.skip(1);
        let next = s.after(input);
        let first = s.pending + pieces[0];
        assert(input is Audio);
        assert(pieces[0] == input->Audio_0@);
        lemma_unframed_len(first);
        assert forall|i: int| 0 <= i < rest.len() implies #[trigger] rest[i] is Audio by {
            assert(rest[i] == inputs[i + 1]);
        }
        assert(pieces_of(rest) =~= pieces.skip(1));
        law_recording_is_sent(next, rest);
        assert(append_all(frames(first)) + append_all(
            frames_sent(unframed(first), pieces.skip(1)),
        ) =~= append_all(frames_sent(s.pending, pieces)));
        law_arrival_makes_no_difference(first, audio_of(pieces.skip(1)));
        assert(first + audio_of(pieces.skip(1)) =~= s.pending + audio_of(pieces));
    }
}

/// A whole recording, once it has stopped, was sent in full: the full messages
/// of its audio, what is left of it, and then the silence or the commit.
pub proof fn law_recording_is_sent_to_its_end(s: SessionView, inputs: Seq<StreamInput>)
    requires
        s.wf(),
        !s.stopping,
        forall|i: int| 0 <= i < inputs.len() ==> #[trigger] inputs[i] is Audio,
    ensures
        ({
            let audio = s.pending + audio_of(pieces_of(inputs));
            sent(s, inputs.push(StreamInput::AudioEnded)) == append_all(frames(audio)) + (
            SessionView { pending: unframed(audio), ..s }).stop_messages()
        }),
    decreases inputs.len(),
{
    let all = inputs.push(StreamInput::AudioEnded);
    law_recording_is_sent(s, inputs);
    if inputs.len() == 0 {
        assert(all.skip(1) =~= Seq::empty());
        assert(sent(s.after(all[0]), all.skip(1)) =~= Seq::empty());
        assert(sent(s, inputs) =~= Seq::empty());
        assert(s.stop_messages() + Seq::<OutgoingView>::empty() =~= s.stop_messages());
        assert(sent(s, inputs) + s.stop_messages() =~= s.stop_messages());
    } else {
        let input = inputs[0];
        let rest = inputs.skip(1);
        let next = s.after(input);
        assert(input is Audio);
        lemma_unframed_len(s.pending + input->Audio_0@);
        assert forall|i: int| 0 <= i < rest.len() implies #[trigger] rest[i] is Audio by {
            assert(rest[i] == inputs[i + 1]);
        }
        assert(all.skip(1) =~= rest.push(StreamInput::AudioEnded));
        assert(all[0] == input);
        law_recording_is_sent_to_its_end(next, rest);
        law_recording_is_sent(next, rest);
        let end = after_run(s, inputs);
        assert(end == after_run(next, rest));
        assert(sent(s, all) =~= s.on(input).send + (sent(next, rest) + end.stop_messages()));
        assert(s.on(input).send + (sent(next, rest) + end.stop_messages()) =~= sent(s, inputs)
            + end.stop_messages());
    }
}

/// Of all that a session tells, whatever happens to it, the end comes last and
/// only there, and an error comes once at most, right before the end.
pub proof fn law_error_then_end(s: SessionView, inputs: Seq<StreamInput>)
    ensures
        told(s, inputs).last() == EventView::Ended,
        forall|i: int|
            0 <= i < events(s, inputs).len() ==> {
                &&& told(s, inputs)[i] == events(s, inputs)[i]
                &&& #[trigger] events(s, inputs)[i] != EventView::Ended
                &&& events(s, inputs)[i] is Error ==> i == events(s, inputs).len() - 1
            },
    decreases inputs.len(),
{
    if inputs.len() > 0 {
        let input = inputs[0];
        law_error_stops(s, input);
        let all = events(s, inputs);
        if !s.on(input).stop {
            let rest = events(s.after(input), inputs.skip(1));
            law_error_then_end(s.after(input), inputs.skip(1));
            let n = all.len() - rest.len();
            assert forall|i: int| 0 <= i < all.len() implies {
                &&& told(s, inputs)[i] == all[i]
                &&& #[trigger] all[i] != EventView::Ended
                &&& all[i] is Error ==> i == all.len() - 1
            } by {
                if i >= n {
                    assert(all[i] == rest[i - n]);
                }
            }
        }
    }
}

/// Whatever fails, the error is the last thing that the session emits before
/// its end: on an error it stops.
pub proof fn law_error_stops(s: SessionView, input: StreamInput)
    ensures
        s.on(input).event matches Some(EventView::Error(_)) ==> s.on(input).stop,
        s.on(input).event != Some(EventView::Ended),
{
}

/// Once the server was told of the end of the recording, nothing is sent but
/// answers to pings: no audio, whatever arrives.
pub proof fn law_no_audio_after_the_stop(s: SessionView, input: StreamInput)
    requires
        s.stopping,
    ensures
        forall|i: int| 0 <= i < s.on(input).send.len() ==> #[trigger] s.on(input).send[i] is Pong,
        input is Audio ==> s.after(input) == s && s.on(input) == OutputView::nothing(),
{
}

/// The time for last events starts when the server is told of the end of the
/// recording, once in a session; its end stops the session, and there is no end
/// to it before it has started.
pub proof fn law_drain(s: SessionView, input: StreamInput)
    ensures
        s.on(input).drain <==> input is AudioEnded && !s.stopping,
        s.on(input).drain <==> !s.stopping && s.after(input).stopping,
        s.stopping ==> s.on(StreamInput::DrainElapsed) == OutputView::stopped(None),
        !s.stopping ==> s.on(StreamInput::DrainElapsed) == OutputView::nothing(),
{
}

/// The end of the recording is told once: the audio that is left is sent, and
/// then either silence or a commit, never both.
pub proof fn law_stop_is_told_once(s: SessionView, input: StreamInput)
    requires
        s.wf(),
    ensures
        s.stopping ==> s.after(input).stopping && s.on(StreamInput::AudioEnded)
            == OutputView::nothing(),
        !s.stopping ==> s.after(StreamInput::AudioEnded).stopping && s.after(
            StreamInput::AudioEnded,
        ).pending.len() == 0,
        s.stop_messages().len() == (if s.pending.len() == 0 {
            1int
        } else {
            2
        }),
        s.stop_messages().last() == (if s.turn_detection {
            OutgoingView::Text(wire::append_text(pcm::silence()))
        } else {
            OutgoingView::Text(wire::commit_text())
        }),
{
}

/// How often the session tells the server of the end of the recording, and the
/// time for last events starts.
pub open spec fn stops_told(s: SessionView, inputs: Seq<StreamInput>) -> nat
    decreases inputs.len(),
{
    if inputs.len() == 0 {
        0
    } else {
        let first: nat = if s.on(inputs[0]).drain {
            1
        } else {
            0
        };
        if s.on(inputs[0]).stop {
            first
        } else {
            first + stops_told(s.after(inputs[0]), inputs.skip(1))
        }
    }
}

/// However a session goes, it tells the server of the end of the recording once
/// at most, and after that sends nothing but answers to pings.
pub proof fn law_stop_ends_the_audio(s: SessionView, inputs: Seq<StreamInput>)
    ensures
        stops_told(s, inputs) <= (if s.stopping {
            0nat
        } else {
            1
        }),
        s.stopping ==> forall|i: int|
            0 <= i < sent(s, inputs).len() ==> #[trigger] sent(s, inputs)[i] is Pong,
    decreases inputs.len(),
{
    if inputs.len() > 0 {
        let first = s.on(inputs[0]).send;
        law_drain(s, inputs[0]);
        if s.stopping {
            law_no_audio_after_the_stop(s, inputs[0]);
        }
        if !s.on(inputs[0]).stop {
            let rest = sent(s.after(inputs[0]), inputs.skip(1));
            law_stop_ends_the_audio(s.after(inputs[0]), inputs.skip(1));
            if s.stopping {
                assert forall|i: int| 0 <= i < sent(s, inputs).len() implies #[trigger] sent(
                    s,
                    inputs,
                )[i] is Pong by {
                    if i < first.len() {
                        assert(first[i] is Pong);
                    } else {
                        assert(rest[i - first.len()] is Pong);
                    }
                }
            }
        }
    }
}

/// The settings of a session stay as they were.
pub proof fn law_settings_stay(s: SessionView, input: StreamInput)
    ensures
        s.after(input).turn_detection == s.turn_detection,
        s.after(input).type_partials == s.type_partials,
{
}

/// The screen after the events that the session emits over its inputs.
pub open spec fn screen_after(
    s: SessionView,
    screen: Seq<char>,
    inputs: Seq<StreamInput>,
) -> Seq<char>
    decreases inputs.len(),
{
    if inputs.len() == 0 {
        screen
    } else if s.on(inputs[0]).stop {
        typed(screen, s.on(inputs[0]).event)
    } else {
        screen_after(
            s.after(inputs[0]),
            typed(screen, s.on(inputs[0]).event),
            inputs.skip(1),
        )
    }
}

/// However a session goes, it never touches the text that was settled before.
pub proof fn law_run_keeps_settled_text(
    s: SessionView,
    screen: Seq<char>,
    inputs: Seq<StreamInput>,
)
    requires
        cursor::in_step(s.reconciler, screen, s.type_partials),
    ensures
        cursor::in_step(
            after_run(s, inputs).reconciler,
            screen_after(s, screen, inputs),
            s.type_partials,
        ),
        cursor::settled(s.reconciler, screen).is_prefix_of(
            cursor::settled(after_run(s, inputs).reconciler, screen_after(s, screen, inputs)),
        ),
    decreases inputs.len(),
{
    if inputs.len() == 0 {
        let kept = cursor::settled(s.reconciler, screen);
        assert(kept.is_prefix_of(kept));
    } else {
        law_session_keeps_settled_text(s, screen, inputs[0]);
        law_settings_stay(s, inputs[0]);
        if !s.on(inputs[0]).stop {
            law_run_keeps_settled_text(
                s.after(inputs[0]),
                typed(screen, s.on(inputs[0]).event),
                inputs.skip(1),
            );
        }
    }
}

/// Whatever happens to a session, it keeps the screen in step and leaves
/// settled text settled.
pub proof fn law_session_keeps_settled_text(s: SessionView, screen: Seq<char>, input: StreamInput)
    requires
        cursor::in_step(s.reconciler, screen, s.type_partials),
    ensures
        cursor::in_step(
            s.after(input).reconciler,
            typed(screen, s.on(input).event),
            s.type_partials,
        ),
        cursor::settled(s.reconciler, screen).is_prefix_of(
            cursor::settled(s.after(input).reconciler, typed(screen, s.on(input).event)),
        ),
{
    let kept = cursor::settled(s.reconciler, screen);
    assert(kept.is_prefix_of(kept));
    if let StreamInput::Message(WireMessage::Text(t)) = input {
        match wire::event_in(t@) {
            ServerEventView::Delta { item_id, delta } => {
                cursor::law_event_keeps_settled_text(
                    s.reconciler,
                    screen,
                    cursor::ItemEvent::Delta { item: item_id, text: delta },
                    s.type_partials,
                );
            },
            ServerEventView::Completed { item_id, transcript } => {
                cursor::law_event_keeps_settled_text(
                    s.reconciler,
                    screen,
                    cursor::ItemEvent::Completed { item: item_id, transcript },
                    s.type_partials,
                );
            },
            ServerEventView::Failed { item_id } => {
                cursor::law_event_keeps_settled_text(
                    s.reconciler,
                    screen,
                    cursor::ItemEvent::Failed { item: item_id },
                    s.type_partials,
                );
            },
            _ => {},
        }
    }
}

/// What an event of the server says of an item, if it says anything.
pub open spec fn item_event(event: ServerEventView) -> Option<cursor::ItemEvent> {
    match event {
        ServerEventView::Delta { item_id, delta } => Some(
            cursor::ItemEvent::Delta { item: item_id, text: delta },
        ),
        ServerEventView::Completed { item_id, transcript } => Some(
            cursor::ItemEvent::Completed { item: item_id, transcript },
        ),
        ServerEventView::Failed { item_id } => Some(cursor::ItemEvent::Failed { item: item_id }),
        _ => None,
    }
}

/// What the server says of items in some inputs, in order.
pub open spec fn items_of(inputs: Seq<StreamInput>) -> Seq<cursor::ItemEvent>
    decreases inputs.len(),
{
    if inputs.len() == 0 {
        Seq::empty()
    } else {
        let rest = items_of(inputs.skip(1));
        match inputs[0] {
            StreamInput::Message(WireMessage::Text(t)) => match item_event(wire::event_in(t@)) {
                Some(e) => seq![e] + rest,
                None => rest,
            },
            _ => rest,
        }
    }
}

/// Whether an input is the end of a session.
pub open spec fn is_an_end(input: StreamInput) -> bool {
    match input {
        StreamInput::Cancelled => true,
        StreamInput::DrainElapsed => true,
        StreamInput::SocketError(_) => true,
        StreamInput::EndOfStream => true,
        StreamInput::SendFailed(_) => true,
        StreamInput::ConsumerGone => true,
        StreamInput::Message(WireMessage::Close) => true,
        StreamInput::Message(WireMessage::Text(t)) => wire::event_in(t@) is Error,
        _ => false,
    }
}

/// A session stops on these inputs, and on no others; it does not take the time
/// for last events for over before it has started.
pub proof fn law_what_ends_a_session(s: SessionView, input: StreamInput)
    ensures
        s.on(input).stop <==> is_an_end(input) && (input is DrainElapsed ==> s.stopping),
{
}

/// Whatever state the session is in, running or stopping, a message about an
/// item does to the reconciler what such an event does, and emits what the
/// reconciler emits for it; it changes nothing else and sends nothing.
pub proof fn law_messages_reach_the_reconciler(
    s: SessionView,
    message: String,
    event: cursor::ItemEvent,
)
    requires
        item_event(wire::event_in(message@)) == Some(event),
    ensures
        ({
            let input = StreamInput::Message(WireMessage::Text(message));
            &&& s.on(input).event == cursor::emitted(s.reconciler, event, s.type_partials)
            &&& s.after(input).reconciler == cursor::after(s.reconciler, event, s.type_partials)
            &&& s.after(input).pending == s.pending
            &&& s.after(input).stopping == s.stopping
            &&& s.after(input).turn_detection == s.turn_detection
            &&& s.after(input).type_partials == s.type_partials
            &&& s.on(input).send.len() == 0
            &&& !s.on(input).stop && !s.on(input).drain && !s.on(input).must_send
        }),
{
}

/// An event about an item is what the server says: the item, and the text.
pub proof fn law_item_events(item_id: Seq<char>, text: Seq<char>)
    ensures
        item_event(ServerEventView::Delta { item_id, delta: text }) == Some(
            cursor::ItemEvent::Delta { item: item_id, text },
        ),
        item_event(ServerEventView::Completed { item_id, transcript: text }) == Some(
            cursor::ItemEvent::Completed { item: item_id, transcript: text },
        ),
        item_event(ServerEventView::Failed { item_id }) == Some(
            cursor::ItemEvent::Failed { item: item_id },
        ),
{
}

/// Over a whole run, up to its end, the reconciler and the screen are what the
/// events about items make of them, wherever among them the recording stops and
/// whatever else happens.
pub proof fn law_run_is_its_item_events(
    s: SessionView,
    screen: Seq<char>,
    inputs: Seq<StreamInput>,
)
    requires
        forall|i: int| 0 <= i < inputs.len() ==> !is_an_end(#[trigger] inputs[i]),
    ensures
        after_run(s, inputs).reconciler == cursor::after_all(
            s.reconciler,
            items_of(inputs),
            s.type_partials,
        ),
        screen_after(s, screen, inputs) == cursor::screen_after(
            s.reconciler,
            screen,
            items_of(inputs),
            s.type_partials,
        ),
    decreases inputs.len(),
{
    if inputs.len() > 0 {
        let input = inputs[0];
        let rest = inputs.skip(1);
        assert(!is_an_end(input));
        law_what_ends_a_session(s, input);
        law_settings_stay(s, input);
        assert forall|i: int| 0 <= i < rest.len() implies !is_an_end(#[trigger] rest[i]) by {
            assert(rest[i] == inputs[i + 1]);
        }
        law_run_is_its_item_events(s.after(input), typed(screen, s.on(input).event), rest);
        if let StreamInput::Message(WireMessage::Text(t)) = input {
            if let Some(e) = item_event(wire::event_in(t@)) {
                law_messages_reach_the_reconciler(s, t, e);
                assert(items_of(inputs)[0] == e);
                assert(items_of(inputs).skip(1) =~= items_of(rest));
            }
        }
    }
}

/// A turn of a new item leaves its transcript at the end of the screen, also
/// where the recording stops before the transcript arrives.
pub proof fn law_turn_survives_the_stop(
    s: SessionView,
    screen: Seq<char>,
    inputs: Seq<StreamInput>,
    turn: cursor::Turn,
)
    requires
        cursor::in_step(s.reconciler, screen, s.type_partials),
        !s.reconciler.items.contains_key(turn.item),
        forall|i: int| 0 <= i < inputs.len() ==> !is_an_end(#[trigger] inputs[i]),
        items_of(inputs) == cursor::turn_events(turn.item, turn.deltas, turn.transcript),
    ensures
        screen_after(s, screen, inputs) == screen + turn.transcript,
        after_run(s, inputs).reconciler.items == s.reconciler.items,
{
    law_run_is_its_item_events(s, screen, inputs);
    cursor::law_turn_types_its_transcript(
        s.reconciler,
        screen,
        turn.item,
        turn.deltas,
        turn.transcript,
        s.type_partials,
    );
}

/// The transcript of the item that owns the tail replaces what was typed for
/// it, in a session that is stopping as in one that is not.
pub proof fn law_transcript_is_shown(
    s: SessionView,
    screen: Seq<char>,
    message: String,
    item_id: Seq<char>,
    transcript: Seq<char>,
)
    requires
        cursor::in_step(s.reconciler, screen, s.type_partials),
        s.reconciler.active == Some(item_id),
        wire::event_in(message@) == (ServerEventView::Completed { item_id, transcript }),
    ensures
        ({
            let input = StreamInput::Message(WireMessage::Text(message));
            &&& typed(screen, s.on(input).event) == cursor::settled(s.reconciler, screen)
                + transcript
            &&& !s.after(input).reconciler.items.contains_key(item_id)
        }),
{
    cursor::law_completion_replaces(s.reconciler, screen, item_id, transcript, s.type_partials);
    cursor::law_end_forgets_the_item(s.reconciler, item_id);
}

/// What is not about audio, its end or an item leaves the session as it was.
/// Pings are answered with what they carry; errors are told in their own words;
/// and nothing else is sent or told.
pub proof fn law_other_inputs(
    s: SessionView,
    message: String,
    payload: Vec<u8>,
    reason: String,
)
    ensures
        ({
            let ping = StreamInput::Message(WireMessage::Ping(payload));
            &&& s.after(ping) == s
            &&& s.on(ping).send.len() == 1 && s.on(ping).send[0] == OutgoingView::Pong(payload@)
            &&& s.on(ping).event is None && !s.on(ping).stop && !s.on(ping).must_send
        }),
        item_event(wire::event_in(message@)) is None ==> {
            let input = StreamInput::Message(WireMessage::Text(message));
            &&& s.after(input) == s
            &&& s.on(input).send.len() == 0
            &&& match wire::event_in(message@) {
                ServerEventView::Error { detail } => s.on(input).event == Some(
                    EventView::Error(
                        ErrorView::InferenceFailed("OpenAI Realtime error: "@ + detail),
                    ),
                ),
                _ => s.on(input).event is None,
            }
        },
        s.after(StreamInput::SocketError(reason)) == s,
        s.on(StreamInput::SocketError(reason)).send.len() == 0,
        s.on(StreamInput::SocketError(reason)).event == Some(
            EventView::Error(
                ErrorView::InferenceFailed("OpenAI Realtime: WS error: "@ + reason@),
            ),
        ),
        s.after(StreamInput::SendFailed(reason)) == s,
        s.on(StreamInput::SendFailed(reason)).send.len() == 0,
        forall|input: StreamInput|
            (input is Cancelled || input is DrainElapsed || input is EndOfStream
                || input is ConsumerGone || input == StreamInput::Message(WireMessage::Close)
                || input == StreamInput::Message(WireMessage::Other)) ==> #[trigger] s.after(input)
                == s && s.on(input).send.len() == 0 && s.on(input).event is None,
{
}

/// When the recording stops, what is left of its audio is sent, if anything is,
/// and then 700 ms of silence where the server finds the end of the turn, or
/// else the commit. Nothing else about the session changes.
pub proof fn law_end_of_the_recording(s: SessionView)
    requires
        !s.stopping,
    ensures
        ({
            let out = s.on(StreamInput::AudioEnded);
            let n: int = if s.pending.len() == 0 {
                0
            } else {
                1
            };
            &&& out.send.len() == n + 1
            &&& s.pending.len() > 0 ==> out.send[0] == OutgoingView::Text(
                wire::append_text(s.pending),
            )
            &&& s.turn_detection ==> out.send[n] == OutgoingView::Text(
                wire::append_text(Seq::new(33_600, |i: int| 0u8)),
            )
            &&& !s.turn_detection ==> out.send[n] == OutgoingView::Text(
                "{\"type\":\"input_audio_buffer.commit\"}"@,
            )
            &&& out.event is None && !out.stop && out.drain && !out.must_send
            &&& s.after(StreamInput::AudioEnded) == (SessionView {
                pending: Seq::empty(),
                stopping: true,
                ..s
            })
        }),
{
    assert(pcm::silence() =~= Seq::new(33_600, |i: int| 0u8));
}

/// Audio of a running recording goes out in messages of 3,840 bytes, in order,
/// as soon as it fills them; what fills none stays, and nothing is lost.
/// Nothing else about the session changes.
pub proof fn law_audio_goes_out(s: SessionView, bytes: Vec<u8>, cut: Seq<Seq<u8>>)
    requires
        !s.stopping,
        forall|i: int| 0 <= i < cut.len() ==> (#[trigger] cut[i]).len() == 3_840,
        concat(cut).is_prefix_of(s.pending + bytes@),
        (s.pending + bytes@).len() < concat(cut).len() + 3_840,
    ensures
        ({
            let out = s.on(StreamInput::Audio(bytes));
            let after = s.after(StreamInput::Audio(bytes));
            &&& out.send.len() == cut.len()
            &&& forall|i: int|
                0 <= i < cut.len() ==> #[trigger] out.send[i] == OutgoingView::Text(
                    wire::append_text(cut[i]),
                )
            &&& concat(cut) + after.pending == s.pending + bytes@
            &&& out.event is None && !out.stop && !out.drain && out.must_send
            &&& after.reconciler == s.reconciler && after.stopping == s.stopping
            &&& after.turn_detection == s.turn_detection && after.type_partials == s.type_partials
        }),
{
    let audio = s.pending + bytes@;
    lemma_cut_is_unique(audio, cut);
    law_cutting_keeps_audio(audio);
}

/// There is one way to cut audio into full messages.
proof fn lemma_cut_is_unique(audio: Seq<u8>, cut: Seq<Seq<u8>>)
    requires
        forall|i: int| 0 <= i < cut.len() ==> (#[trigger] cut[i]).len() == CHUNK_BYTES,
        concat(cut).is_prefix_of(audio),
        audio.len() < concat(cut).len() + CHUNK_BYTES,
    ensures
        cut == frames(audio),
{
    let c = CHUNK_BYTES as int;
    let n = cut.len() as int;
    lemma_concat_full(cut);
    lemma_unframed_len(audio);
    assert(frame_count(audio) == n) by {
        lemma_fundamental_div_mod_converse(audio.len() as int, c, n, audio.len() - n * c);
    }
    assert forall|i: int| 0 <= i < n implies #[trigger] cut[i] == frames(audio)[i] by {
        lemma_concat_part(cut, i);
        lemma_mul_inequality(i + 1, n, c);
        lemma_mul_nonnegative(i, c);
        lemma_mul_is_distributive_add_other_way(c, i, 1);
        lemma_frame_len(audio, i);
        assert(concat(cut) == audio.take(concat(cut).len() as int));
        assert(cut[i] =~= frames(audio)[i]);
    }
    assert(cut =~= frames(audio));
}

proof fn lemma_concat_full(cut: Seq<Seq<u8>>)
    requires
        forall|i: int| 0 <= i < cut.len() ==> (#[trigger] cut[i]).len() == CHUNK_BYTES,
    ensures
        concat(cut).len() == cut.len() * CHUNK_BYTES,
    decreases cut.len(),
{
    if cut.len() > 0 {
        let rest = cut.drop_last();
        assert forall|i: int| 0 <= i < rest.len() implies (#[trigger] rest[i]).len()
            == CHUNK_BYTES by {
            assert(rest[i] == cut[i]);
        }
        lemma_concat_full(rest);
        assert(cut.last() == cut[cut.len() - 1]);
        lemma_mul_is_distributive_add_other_way(CHUNK_BYTES as int, cut.len() - 1, 1);
    }
}

proof fn lemma_concat_part(cut: Seq<Seq<u8>>, i: int)
    requires
        forall|k: int| 0 <= k < cut.len() ==> (#[trigger] cut[k]).len() == CHUNK_BYTES,
        0 <= i < cut.len(),
    ensures
        0 <= i * CHUNK_BYTES <= (i + 1) * CHUNK_BYTES <= concat(cut).len(),
        concat(cut).subrange(i * CHUNK_BYTES, (i + 1) * CHUNK_BYTES) == cut[i],
    decreases cut.len(),
{
    let c = CHUNK_BYTES as int;
    let rest = cut.drop_last();
    assert forall|k: int| 0 <= k < rest.len() implies (#[trigger] rest[k]).len()
        == CHUNK_BYTES by {
        assert(rest[k] == cut[k]);
    }
    lemma_concat_full(cut);
    lemma_concat_full(rest);
    lemma_mul_inequality(i + 1, cut.len() as int, c);
    lemma_mul_nonnegative(i, c);
    lemma_mul_is_distributive_add_other_way(c, i, 1);
    if i < rest.len() {
        lemma_concat_part(rest, i);
        assert(concat(cut).subrange(i * c, (i + 1) * c) =~= concat(rest).subrange(
            i * c,
            (i + 1) * c,
        ));
    } else {
        assert(concat(cut).subrange(i * c, (i + 1) * c) =~= cut.last());
    }
}

/// What is seen of a message, of an output and of a session is all that they
/// hold.
pub proof fn law_what_is_seen(
    text: String,
    payload: Vec<u8>,
    output: StreamOutput,
    session: StreamSession,
)
    ensures
        Outgoing::Text(text)@ == OutgoingView::Text(text@),
        Outgoing::Pong(payload)@ == OutgoingView::Pong(payload@),
        Outgoing::Close@ == OutgoingView::Close,
        output@.send.len() == output.send@.len(),
        forall|i: int|
            0 <= i < output.send@.len() ==> #[trigger] output@.send[i] == output.send@[i]@,
        output@.must_send == output.must_send && output@.drain == output.drain,
        output.event matches Some(e) ==> output@.event == Some(e@),
        output.event is None ==> output@.event is None,
        output@.stop == output.stop,
        session@.reconciler == session.reconciler@ && session@.pending == session.pending@,
        session@.turn_detection == session.turn_detection,
        session@.type_partials == session.type_partials,
        session@.stopping == session.stopping,
{
}

} // verus!
