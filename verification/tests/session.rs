use voxtype_realtime::event::{StreamingEvent, TranscribeError};
use voxtype_realtime::session::{
    batch_event, batch_messages, batch_step, drain_left, fatal_events, handshake_event,
    handshake_step, lost_message, time_left, BatchSession, BatchStep, HandshakeStep, LinkFailure,
    Received, CHUNK_BYTES,
};
use voxtype_realtime::stream::{closing, Outgoing, StreamInput, StreamOutput, StreamSession};
use voxtype_realtime::wire::{
    append_frame, append_message, classify, commit_message, read_event, ServerEvent, WireMessage,
};

fn text(t: &str) -> Received {
    Received::Message(WireMessage::Text(t.into()))
}

fn message(t: &str) -> StreamInput {
    StreamInput::Message(WireMessage::Text(t.into()))
}

const DELTA: &str = "{\"type\":\"conversation.item.input_audio_transcription.delta\",\
                     \"item_id\":\"i\",\"delta\":\"hel\"}";
const COMPLETED: &str = "{\"type\":\"conversation.item.input_audio_transcription.completed\",\
                         \"item_id\":\"i\",\"transcript\":\" hello \"}";
const FAILED: &str =
    "{\"type\":\"conversation.item.input_audio_transcription.failed\",\"item_id\":\"i\"}";
const ERROR: &str = "{\"type\":\"error\",\"error\":{\"message\":\"no\",\"code\":7}}";

// === messages ===

#[test]
fn audio_goes_out_in_base64() {
    assert_eq!(append_frame(&[]), None);
    assert_eq!(
        append_frame(&[0, 1, 254, 255]).unwrap(),
        "{\"audio\":\"AAH+/w==\",\"type\":\"input_audio_buffer.append\"}"
    );
    assert_eq!(
        append_message("a\"b"),
        "{\"audio\":\"a\\\"b\",\"type\":\"input_audio_buffer.append\"}"
    );
    let back: serde_json::Value = serde_json::from_str(&append_message("a\"b")).unwrap();
    assert_eq!(back["audio"], "a\"b");
    assert_eq!(back["type"], "input_audio_buffer.append");
}

#[test]
fn base64_is_the_standard_one() {
    // The bytes whose digits are the whole alphabet in order.
    let alphabet = "ABCDEFGHIJKLMNOPQRSTUVWXYZabcdefghijklmnopqrstuvwxyz0123456789+/";
    let bytes: Vec<u8> = (0..16u32)
        .flat_map(|i| {
            let n = (4 * i << 18) | ((4 * i + 1) << 12) | ((4 * i + 2) << 6) | (4 * i + 3);
            vec![(n >> 16) as u8, (n >> 8) as u8, n as u8]
        })
        .collect();
    for (audio, expected) in [
        (&bytes[..], alphabet),
        (&[0xff][..], "/w=="),
        (&[0xfb, 0xff][..], "+/8="),
        (&[0x4d, 0x61, 0x6e][..], "TWFu"),
        (&[0x4d, 0x61, 0x6e, 0x4d][..], "TWFuTQ=="),
    ] {
        let message: serde_json::Value =
            serde_json::from_str(&append_frame(audio).unwrap()).unwrap();
        assert_eq!(message["audio"], expected);
    }
}

#[test]
fn commit_is_a_json_message() {
    assert_eq!(
        commit_message(),
        r#"{"type":"input_audio_buffer.commit"}"#.to_string()
    );
}

#[test]
fn messages_are_told_apart() {
    assert!(matches!(
        read_event("{\"type\":\"session.updated\"}"),
        ServerEvent::SessionUpdated
    ));
    match read_event(DELTA) {
        ServerEvent::Delta { item_id, delta } => {
            assert_eq!(item_id, "i");
            assert_eq!(delta, "hel");
        }
        _ => panic!("expected Delta"),
    }
    match read_event(COMPLETED) {
        ServerEvent::Completed {
            item_id,
            transcript,
        } => {
            assert_eq!(item_id, "i");
            assert_eq!(transcript, " hello ");
        }
        _ => panic!("expected Completed"),
    }
    match read_event(FAILED) {
        ServerEvent::Failed { item_id } => assert_eq!(item_id, "i"),
        _ => panic!("expected Failed"),
    }
    match read_event(ERROR) {
        ServerEvent::Error { detail } => assert_eq!(detail, "{\"code\":7,\"message\":\"no\"}"),
        _ => panic!("expected Error"),
    }
    match read_event("{\"type\":\"error\"}") {
        ServerEvent::Error { detail } => assert_eq!(detail, "{\"type\":\"error\"}"),
        _ => panic!("expected Error"),
    }
    for other in ["{\"type\":\"session.created\"}", "{\"type\":7}", "[]", "no json", ""] {
        assert!(matches!(read_event(other), ServerEvent::Other));
    }
}

#[test]
fn missing_members_count_as_empty() {
    let value: serde_json::Value = serde_json::from_str(
        "{\"type\":\"conversation.item.input_audio_transcription.delta\",\"delta\":3}",
    )
    .unwrap();
    match classify(&value) {
        ServerEvent::Delta { item_id, delta } => {
            assert_eq!(item_id, "");
            assert_eq!(delta, "");
        }
        _ => panic!("expected Delta"),
    }
}

// === setting the session up ===

fn handshake_error(step: HandshakeStep) -> String {
    match step {
        HandshakeStep::Fail(TranscribeError::InferenceFailed(m)) => m,
        _ => panic!("expected Fail"),
    }
}

#[test]
fn only_the_acknowledgement_sets_the_session_up() {
    assert!(matches!(
        handshake_step(&text("{\"type\":\"session.updated\"}")),
        HandshakeStep::Ready
    ));
    for t in ["{\"type\":\"session.created\"}", "garbage", DELTA] {
        assert!(matches!(handshake_step(&text(t)), HandshakeStep::Wait));
    }
    assert!(matches!(
        handshake_step(&Received::Message(WireMessage::Ping(vec![1]))),
        HandshakeStep::Wait
    ));
    assert!(matches!(
        handshake_step(&Received::Message(WireMessage::Other)),
        HandshakeStep::Wait
    ));
}

#[test]
fn errors_before_the_acknowledgement_are_fatal() {
    assert_eq!(
        handshake_error(handshake_step(&text(ERROR))),
        "OpenAI Realtime: fatal error during session configuration: \
         {\"code\":7,\"message\":\"no\"}"
    );
    assert_eq!(
        handshake_error(handshake_event(&ServerEvent::Error {
            detail: "x".into()
        })),
        "OpenAI Realtime: fatal error during session configuration: x"
    );
    assert_eq!(
        handshake_error(handshake_step(&Received::Message(WireMessage::Close))),
        "OpenAI Realtime: connection closed awaiting session.updated"
    );
    assert_eq!(
        handshake_error(handshake_step(&Received::SocketError("reset".into()))),
        "OpenAI Realtime: WS error while awaiting session.updated: reset"
    );
    for r in [Received::EndOfStream, Received::TimedOut] {
        assert_eq!(
            handshake_error(handshake_step(&r)),
            "OpenAI Realtime: connection closed/timed out awaiting session.updated"
        );
    }
    assert_eq!(
        handshake_error(handshake_step(&Received::Expired)),
        "OpenAI Realtime: timed out waiting for session.updated"
    );
}

// === a whole recording ===

fn batch_result(step: BatchStep) -> (bool, Result<String, String>) {
    match step {
        BatchStep::Done { close, result } => (close, result.map_err(|e| e.message())),
        _ => panic!("expected Done"),
    }
}

#[test]
fn the_first_transcript_is_the_result() {
    assert_eq!(
        batch_result(batch_step(text(COMPLETED))),
        (true, Ok("hello".to_string()))
    );
    assert!(matches!(batch_step(text(DELTA)), BatchStep::Wait));
    assert!(matches!(batch_step(text("garbage")), BatchStep::Wait));
    assert!(matches!(
        batch_step(Received::Message(WireMessage::Other)),
        BatchStep::Wait
    ));
    match batch_step(Received::Message(WireMessage::Ping(vec![1, 2]))) {
        BatchStep::Pong(p) => assert_eq!(p, vec![1, 2]),
        _ => panic!("expected Pong"),
    }
}

#[test]
fn a_recording_without_transcript_fails_or_is_empty() {
    assert_eq!(
        batch_result(batch_step(text(FAILED))),
        (
            true,
            Err("OpenAI Realtime: transcription item failed".to_string())
        )
    );
    assert_eq!(
        batch_result(batch_event(&ServerEvent::Error {
            detail: "{}".into()
        })),
        (true, Err("OpenAI Realtime error: {}".to_string()))
    );
    assert_eq!(
        batch_result(batch_step(Received::SocketError("reset".into()))),
        (false, Err("OpenAI Realtime: WS error: reset".to_string()))
    );
    for r in [Received::TimedOut, Received::Expired] {
        assert_eq!(
            batch_result(batch_step(r)),
            (false, Err("OpenAI Realtime: batch timeout".to_string()))
        );
    }
    for r in [Received::EndOfStream, Received::Message(WireMessage::Close)] {
        assert_eq!(batch_result(batch_step(r)), (false, Ok(String::new())));
    }
}

#[test]
fn a_recording_is_its_pieces_and_a_commit() {
    let pieces = vec![vec![1, 2], vec![], vec![3], vec![]];
    let messages: Vec<String> = batch_messages(&pieces).iter().map(text_of).collect();
    assert_eq!(
        messages,
        vec![
            append_frame(&[1, 2]).unwrap(),
            append_frame(&[3]).unwrap(),
            commit_message(),
        ]
    );
    let messages: Vec<String> = batch_messages(&[]).iter().map(text_of).collect();
    assert_eq!(messages, vec![commit_message()]);
    assert!(matches!(lost_message(0, 3, "e".into()), LinkFailure::SendAudio(e) if e == "e"));
    assert!(matches!(lost_message(1, 3, "e".into()), LinkFailure::SendAudio(_)));
    assert!(matches!(lost_message(2, 3, "e".into()), LinkFailure::SendCommit(e) if e == "e"));
}

#[test]
fn a_recording_waits_for_the_session() {
    let mut s = BatchSession::new(vec![vec![1, 2]]);
    assert_eq!(s.limit_secs(), 10);
    assert!(matches!(s.step(text(COMPLETED)), BatchStep::Wait));
    assert!(matches!(
        s.step(Received::Message(WireMessage::Ping(vec![1]))),
        BatchStep::Wait
    ));
    match s.step(text("{\"type\":\"session.updated\"}")) {
        BatchStep::Send(messages) => {
            let messages: Vec<String> = messages.iter().map(text_of).collect();
            assert_eq!(
                messages,
                vec![append_frame(&[1, 2]).unwrap(), commit_message()]
            );
        }
        _ => panic!("expected Send"),
    }
    assert_eq!(s.limit_secs(), 30);
    assert!(matches!(
        s.step(text("{\"type\":\"session.updated\"}")),
        BatchStep::Wait
    ));
    assert_eq!(
        batch_result(s.step(text(COMPLETED))),
        (true, Ok("hello".to_string()))
    );
    let mut s = BatchSession::new(Vec::new());
    assert_eq!(
        batch_result(s.step(Received::Expired)),
        (
            false,
            Err("OpenAI Realtime: timed out waiting for session.updated".to_string())
        )
    );
}

#[test]
fn last_events_have_three_seconds() {
    assert_eq!(drain_left(0), Some(3_000_000_000));
    assert_eq!(drain_left(2_999_999_999), Some(1));
    assert_eq!(drain_left(3_000_000_000), None);
}

#[test]
fn time_runs_out_at_the_limit() {
    assert_eq!(time_left(0, 3), Some(3_000_000_000));
    assert_eq!(time_left(2_999_999_999, 3), Some(1));
    assert_eq!(time_left(3_000_000_000, 3), None);
    assert_eq!(time_left(u128::MAX, 3), None);
}

#[test]
fn link_failures_say_what_failed() {
    let all = vec![
        (LinkFailure::ConnectTimeout, "OpenAI Realtime: connect timeout"),
        (
            LinkFailure::Connect("e".into()),
            "OpenAI Realtime: WS connect failed: e",
        ),
        (
            LinkFailure::SendSessionUpdate("e".into()),
            "OpenAI Realtime: send session.update failed: e",
        ),
        (
            LinkFailure::SendAudio("e".into()),
            "OpenAI Realtime: send audio failed: e",
        ),
        (
            LinkFailure::SendCommit("e".into()),
            "OpenAI Realtime: send commit failed: e",
        ),
        (
            LinkFailure::Socket("e".into()),
            "OpenAI Realtime: WS error: e",
        ),
    ];
    for (failure, expected) in all {
        let error = failure.to_error();
        assert!(matches!(error, TranscribeError::InferenceFailed(_)));
        assert_eq!(error.message(), expected);
    }
}

// === a streaming session ===

fn text_of(message: &Outgoing) -> String {
    match message {
        Outgoing::Text(t) => t.clone(),
        _ => panic!("expected Text"),
    }
}

fn sent(output: &StreamOutput) -> Vec<String> {
    output.send.iter().map(text_of).collect()
}

#[test]
fn audio_is_sent_in_full_messages() {
    let audio: Vec<u8> = (0..3 * CHUNK_BYTES + 100).map(|i| i as u8).collect();
    let mut whole = StreamSession::new(false, true);
    let out = whole.step(StreamInput::Audio(audio.clone()));
    assert_eq!(sent(&out).len(), 3);
    assert!(out.must_send && !out.stop);
    assert_eq!(sent(&out)[1], append_frame(&audio[CHUNK_BYTES..2 * CHUNK_BYTES]).unwrap());
    assert_eq!(whole.pending, audio[3 * CHUNK_BYTES..].to_vec());

    let mut pieces = StreamSession::new(false, true);
    let mut messages = Vec::new();
    for piece in audio.chunks(1000) {
        messages.extend(sent(&pieces.step(StreamInput::Audio(piece.to_vec()))));
    }
    assert_eq!(messages, sent(&out));
    assert_eq!(pieces.pending, whole.pending);
    assert!(sent(&pieces.step(StreamInput::Audio(Vec::new()))).is_empty());
}

#[test]
fn the_end_of_the_recording_is_told_once() {
    let mut s = StreamSession::new(false, true);
    s.step(StreamInput::Audio(vec![1, 2, 3]));
    let out = s.step(StreamInput::AudioEnded);
    assert_eq!(
        sent(&out),
        vec![append_frame(&[1, 2, 3]).unwrap(), commit_message()]
    );
    assert!(out.drain && !out.must_send && !out.stop);
    assert!(s.stopping);
    let out = s.step(StreamInput::AudioEnded);
    assert!(sent(&out).is_empty() && !out.drain);

    let mut s = StreamSession::new(true, true);
    let out = s.step(StreamInput::AudioEnded);
    assert_eq!(sent(&out), vec![append_frame(&vec![0; 33_600]).unwrap()]);
}

#[test]
fn no_audio_is_sent_after_the_end_of_the_recording() {
    let mut s = StreamSession::new(false, true);
    assert!(!s.step(StreamInput::DrainElapsed).stop);
    s.step(StreamInput::AudioEnded);
    let out = s.step(StreamInput::Audio(vec![1; 2 * CHUNK_BYTES]));
    assert!(out.send.is_empty() && !out.must_send && !out.stop);
    assert!(s.pending.is_empty());
    let out = s.step(StreamInput::Message(WireMessage::Ping(vec![9])));
    assert!(matches!(&out.send[0], Outgoing::Pong(_)));
    let out = s.step(message(COMPLETED));
    assert!(matches!(out.event, Some(StreamingEvent::Final { .. })));
    assert!(s.step(StreamInput::DrainElapsed).stop);
}

#[test]
fn server_events_reach_the_reconciler() {
    let mut s = StreamSession::new(false, true);
    assert!(s.can_take_message());
    let out = s.step(message(DELTA));
    assert!(matches!(out.event, Some(StreamingEvent::Partial { .. })));
    assert!(!out.stop);
    match s.step(message(COMPLETED)).event {
        Some(StreamingEvent::Replace {
            backspace, text, ..
        }) => {
            assert_eq!(backspace, 3);
            assert_eq!(text, " hello ");
        }
        _ => panic!("expected Replace"),
    }
    s.step(message(DELTA));
    assert!(matches!(
        s.step(message(FAILED)).event,
        Some(StreamingEvent::Replace { backspace: 3, .. })
    ));
    let out = s.step(message("{\"type\":\"input_audio_buffer.speech_started\"}"));
    assert!(out.event.is_none() && !out.stop && out.send.is_empty());

    let mut quiet = StreamSession::new(false, false);
    assert!(quiet.step(message(DELTA)).event.is_none());
}

#[test]
fn pings_are_answered() {
    let mut s = StreamSession::new(false, true);
    let out = s.step(StreamInput::Message(WireMessage::Ping(vec![9])));
    assert!(!out.stop && !out.must_send && out.event.is_none());
    assert_eq!(out.send.len(), 1);
    assert!(matches!(&out.send[0], Outgoing::Pong(p) if p == &vec![9]));
    let out = s.step(StreamInput::Message(WireMessage::Other));
    assert!(out.send.is_empty() && !out.stop);
}

#[test]
fn errors_stop_the_session() {
    for (input, expected) in [
        (
            message(ERROR),
            "OpenAI Realtime error: {\"code\":7,\"message\":\"no\"}",
        ),
        (
            StreamInput::SocketError("reset".into()),
            "OpenAI Realtime: WS error: reset",
        ),
        (
            StreamInput::SendFailed("gone".into()),
            "OpenAI Realtime: send audio failed: gone",
        ),
    ] {
        let out = StreamSession::new(true, true).step(input);
        assert!(out.stop);
        match out.event {
            Some(StreamingEvent::Error(e)) => assert_eq!(e.message(), expected),
            _ => panic!("expected Error"),
        }
    }
    for input in [
        StreamInput::Cancelled,
        StreamInput::EndOfStream,
        StreamInput::ConsumerGone,
        StreamInput::Message(WireMessage::Close),
    ] {
        let out = StreamSession::new(true, true).step(input);
        assert!(out.stop && out.event.is_none() && out.send.is_empty());
    }
    let (last_message, last_event) = closing();
    assert!(matches!(last_message, Outgoing::Close));
    assert!(matches!(last_event, StreamingEvent::Ended));
}

#[test]
fn a_session_that_cannot_start_fails_and_ends() {
    let events = fatal_events("no way".into());
    assert_eq!(events.len(), 2);
    assert!(matches!(
        &events[0],
        StreamingEvent::Error(TranscribeError::InferenceFailed(m)) if m == "no way"
    ));
    assert!(matches!(events[1], StreamingEvent::Ended));
}

#[test]
fn an_error_comes_right_before_the_end() {
    let mut s = StreamSession::new(false, true);
    let mut told = Vec::new();
    for input in [
        message(DELTA),
        StreamInput::Audio(vec![1; CHUNK_BYTES]),
        StreamInput::SendFailed("gone".into()),
    ] {
        let out = s.step(input);
        told.extend(out.event);
        if out.stop {
            break;
        }
    }
    told.push(closing().1);
    assert_eq!(told.len(), 3);
    assert!(matches!(told[0], StreamingEvent::Partial { .. }));
    assert!(matches!(told[1], StreamingEvent::Error(_)));
    assert!(matches!(told[2], StreamingEvent::Ended));
}

#[test]
fn a_recording_is_sent_to_its_end() {
    let audio: Vec<u8> = (0..2 * CHUNK_BYTES + 7).map(|i| i as u8).collect();
    let mut s = StreamSession::new(false, true);
    let mut messages = Vec::new();
    for piece in audio.chunks(1234) {
        messages.extend(sent(&s.step(StreamInput::Audio(piece.to_vec()))));
    }
    messages.extend(sent(&s.step(StreamInput::AudioEnded)));
    let mut expected: Vec<String> = audio
        .chunks(CHUNK_BYTES)
        .map(|frame| append_frame(frame).unwrap())
        .collect();
    expected.push(commit_message());
    assert_eq!(messages, expected);
}
