//! The messages of the protocol, both ways.

use crate::json;
use crate::json::Json;
use crate::text;
use base64::engine::general_purpose::STANDARD;
use base64::Engine;
use serde_json::Value;
use vstd::prelude::*;

verus! {

/// The character that stands for six bits in Base64.
pub open spec fn base64_char(n: int) -> char {
    if n < 26 {
        ('A' as int + n) as char
    } else if n < 52 {
        ('a' as int + (n - 26)) as char
    } else if n < 62 {
        ('0' as int + (n - 52)) as char
    } else if n == 62 {
        '+'
    } else {
        '/'
    }
}

/// Some bytes in Base64, with the standard alphabet and padding: four
/// characters of six bits each for every three bytes.
pub open spec fn base64_text(bytes: Seq<u8>) -> Seq<char>
    decreases bytes.len(),
{
    let a = bytes[0] as int;
    let b = bytes[1] as int;
    let c = bytes[2] as int;
    if bytes.len() == 0 {
        Seq::empty()
    } else if bytes.len() == 1 {
        seq![base64_char(a / 4), base64_char(a % 4 * 16), '=', '=']
    } else if bytes.len() == 2 {
        seq![base64_char(a / 4), base64_char(a % 4 * 16 + b / 16), base64_char(b % 16 * 4), '=']
    } else {
        seq![
            base64_char(a / 4),
            base64_char(a % 4 * 16 + b / 16),
            base64_char(b % 16 * 4 + c / 64),
            base64_char(c % 64),
        ] + base64_text(bytes.skip(3))
    }
}

/// The six bits that a character of Base64 stands for.
pub open spec fn base64_bits(c: char) -> int {
    let u = c as int;
    if 'A' as int <= u <= 'Z' as int {
        u - 'A' as int
    } else if 'a' as int <= u <= 'z' as int {
        u - 'a' as int + 26
    } else if '0' as int <= u <= '9' as int {
        u - '0' as int + 52
    } else if c == '+' {
        62
    } else {
        63
    }
}

/// The bytes that a text in Base64 stands for.
pub open spec fn base64_bytes(text: Seq<char>) -> Seq<u8>
    decreases text.len(),
{
    if text.len() < 4 {
        Seq::empty()
    } else {
        let w = base64_bits(text[0]);
        let x = base64_bits(text[1]);
        let y = base64_bits(text[2]);
        let z = base64_bits(text[3]);
        let first = (w * 4 + x / 16) as u8;
        let second = (x % 16 * 16 + y / 4) as u8;
        let third = (y % 4 * 64 + z) as u8;
        if text[2] == '=' {
            seq![first]
        } else if text[3] == '=' {
            seq![first, second]
        } else {
            seq![first, second, third] + base64_bytes(text.skip(4))
        }
    }
}

proof fn lemma_base64_char(n: int)
    requires
        0 <= n < 64,
    ensures
        base64_bits(base64_char(n)) == n,
        base64_char(n) != '=',
{
}

/// What is written in Base64 reads back as the bytes that were written.
pub proof fn law_base64_reads_back(bytes: Seq<u8>)
    ensures
        base64_bytes(base64_text(bytes)) == bytes,
    decreases bytes.len(),
{
    let text = base64_text(bytes);
    let a = bytes[0] as int;
    let b = bytes[1] as int;
    let c = bytes[2] as int;
    if bytes.len() > 0 {
        lemma_base64_char(a / 4);
        lemma_base64_char(a % 4 * 16);
        lemma_base64_char(a % 4 * 16 + b / 16);
        lemma_base64_char(b % 16 * 4);
        lemma_base64_char(b % 16 * 4 + c / 64);
        lemma_base64_char(c % 64);
        if bytes.len() >= 3 {
            law_base64_reads_back(bytes.skip(3));
            assert(text.skip(4) =~= base64_text(bytes.skip(3)));
        }
    }
    assert(base64_bytes(text) =~= bytes);
}

/// `Engine::encode` of `base64`'s standard engine: the standard alphabet, with
/// padding. Beyond what fits in memory as Base64 it panics.
#[verifier::external_body]
fn base64_encode(bytes: &[u8]) -> (res: String)
    requires
        bytes@.len() <= usize::MAX / 4,
    ensures
        res@ == base64_text(bytes@),
{
    STANDARD.encode(bytes)
}

/// The message that adds audio, in Base64, to what the server has.
pub open spec fn append_json(audio: Seq<char>) -> Json {
    Json::Obj(
        Map::empty().insert("type"@, Json::Str("input_audio_buffer.append"@)).insert(
            "audio"@,
            Json::Str(audio),
        ),
    )
}

/// The message that adds audio, given as Base64, to what the server has.
pub fn append_message(audio: &str) -> (res: String)
    ensures
        res@ == json::json_text(append_json(audio@)),
        json::json_parsed(res@) == Some(append_json(audio@)),
{
    let mut message = json::object();
    json::set_member(&mut message, "type", json::string("input_audio_buffer.append"));
    json::set_member(&mut message, "audio", json::string(audio));
    json::text_of(&message)
}

/// The text of the message that adds `bytes` of audio.
pub open spec fn append_text(bytes: Seq<u8>) -> Seq<char> {
    json::json_text(append_json(base64_text(bytes)))
}

/// The audio that a message adds to what the server has.
pub open spec fn carried_audio(message: Seq<char>) -> Seq<u8> {
    match json::json_parsed(message) {
        Some(j) => if j.str_member("type"@) == "input_audio_buffer.append"@ {
            base64_bytes(j.str_member("audio"@))
        } else {
            Seq::empty()
        },
        None => Seq::empty(),
    }
}

/// The message that adds `bytes` of audio, where there are any. The server
/// finds these bytes in it.
pub fn append_frame(bytes: &[u8]) -> (res: Option<String>)
    requires
        bytes@.len() <= usize::MAX / 4,
    ensures
        match res {
            Some(message) => {
                &&& bytes@.len() > 0
                &&& message@ == append_text(bytes@)
                &&& carried_audio(message@) == bytes@
            },
            None => bytes@.len() == 0,
        },
{
    if bytes.len() == 0 {
        None
    } else {
        proof {
            reveal_strlit("type");
            reveal_strlit("audio");
            assert("type"@.len() == 4);
            assert("audio"@.len() == 5);
            law_base64_reads_back(bytes@);
        }
        Some(append_message(base64_encode(bytes).as_str()))
    }
}

/// The text of the message that ends the turn.
pub open spec fn commit_text() -> Seq<char> {
    "{\"type\":\"input_audio_buffer.commit\"}"@
}

/// The message that ends the turn.
pub fn commit_message() -> (res: String)
    ensures
        res@ == commit_text(),
{
    "{\"type\":\"input_audio_buffer.commit\"}".to_owned()
}

/// What the server says, as far as it matters here.
#[derive(Debug)]
pub enum ServerEvent {
    /// The session is set up.
    SessionUpdated,
    /// A fragment of an item's transcript.
    Delta { item_id: String, delta: String },
    /// The settled transcript of an item.
    Completed { item_id: String, transcript: String },
    /// An item cannot be transcribed.
    Failed { item_id: String },
    /// The server reports an error, with this JSON text.
    Error { detail: String },
    /// Anything else: for information only.
    Other,
}

/// A [`ServerEvent`] with its texts as sequences.
pub enum ServerEventView {
    SessionUpdated,
    Delta { item_id: Seq<char>, delta: Seq<char> },
    Completed { item_id: Seq<char>, transcript: Seq<char> },
    Failed { item_id: Seq<char> },
    Error { detail: Seq<char> },
    Other,
}

impl View for ServerEvent {
    type V = ServerEventView;

    open spec fn view(&self) -> ServerEventView {
        match *self {
            ServerEvent::SessionUpdated => ServerEventView::SessionUpdated,
            ServerEvent::Delta { item_id, delta } => ServerEventView::Delta {
                item_id: item_id@,
                delta: delta@,
            },
            ServerEvent::Completed { item_id, transcript } => ServerEventView::Completed {
                item_id: item_id@,
                transcript: transcript@,
            },
            ServerEvent::Failed { item_id } => ServerEventView::Failed { item_id: item_id@ },
            ServerEvent::Error { detail } => ServerEventView::Error { detail: detail@ },
            ServerEvent::Other => ServerEventView::Other,
        }
    }
}

/// The event that a JSON value stands for. A member that is missing or no
/// string counts as the empty text. Of an error, its own description is kept,
/// or the whole message where it has none.
pub open spec fn server_event(j: Json) -> ServerEventView {
    let kind = j.str_member("type"@);
    let item_id = j.str_member("item_id"@);
    if kind == "session.updated"@ {
        ServerEventView::SessionUpdated
    } else if kind == "conversation.item.input_audio_transcription.delta"@ {
        ServerEventView::Delta { item_id, delta: j.str_member("delta"@) }
    } else if kind == "conversation.item.input_audio_transcription.completed"@ {
        ServerEventView::Completed { item_id, transcript: j.str_member("transcript"@) }
    } else if kind == "conversation.item.input_audio_transcription.failed"@ {
        ServerEventView::Failed { item_id }
    } else if kind == "error"@ {
        ServerEventView::Error {
            detail: json::json_text(
                match j.member("error"@) {
                    Some(e) => e,
                    None => j,
                },
            ),
        }
    } else {
        ServerEventView::Other
    }
}

/// The event that a JSON value stands for.
pub fn classify(message: &Value) -> (res: ServerEvent)
    ensures
        res@ == server_event(json::json_of(*message)),
{
    let kind = json::str_member(message, "type");
    let item_id = json::str_member(message, "item_id");
    if text::same(kind, "session.updated") {
        ServerEvent::SessionUpdated
    } else if text::same(kind, "conversation.item.input_audio_transcription.delta") {
        ServerEvent::Delta {
            item_id: item_id.to_owned(),
            delta: json::str_member(message, "delta").to_owned(),
        }
    } else if text::same(kind, "conversation.item.input_audio_transcription.completed") {
        ServerEvent::Completed {
            item_id: item_id.to_owned(),
            transcript: json::str_member(message, "transcript").to_owned(),
        }
    } else if text::same(kind, "conversation.item.input_audio_transcription.failed") {
        ServerEvent::Failed { item_id: item_id.to_owned() }
    } else if text::same(kind, "error") {
        match json::member(message, "error") {
            Some(e) => ServerEvent::Error { detail: json::text_of(e) },
            None => ServerEvent::Error { detail: json::text_of(message) },
        }
    } else {
        ServerEvent::Other
    }
}

/// The event that a message's text stands for; a text that is no JSON stands
/// for none.
pub open spec fn event_in(message: Seq<char>) -> ServerEventView {
    match json::json_parsed(message) {
        Some(j) => server_event(j),
        None => ServerEventView::Other,
    }
}

/// The event that a message's text stands for.
pub fn read_event(message: &str) -> (res: ServerEvent)
    ensures
        res@ == event_in(message@),
{
    match json::parse(message) {
        Some(value) => classify(&value),
        None => ServerEvent::Other,
    }
}

/// A message of the socket.
#[derive(Debug)]
pub enum WireMessage {
    Text(String),
    Ping(Vec<u8>),
    Close,
    /// Binary data, pongs and raw frames.
    Other,
}

/// What a message of the server says depends on its kind, and its parts are
/// the members that carry their names, whatever other members the message has.
/// A part that is missing, or no string, is empty.
pub proof fn law_parts_of_a_message(m: Map<Seq<char>, Json>, kind: Seq<char>)
    requires
        m.contains_key("type"@),
        m["type"@] == Json::Str(kind),
    ensures
        ({
            let text = |key: Seq<char>|
                if m.contains_key(key) && m[key] is Str {
                    m[key]->Str_0
                } else {
                    Seq::empty()
                };
            let event = server_event(Json::Obj(m));
            &&& kind == "conversation.item.input_audio_transcription.delta"@ ==> event == (
            ServerEventView::Delta { item_id: text("item_id"@), delta: text("delta"@) })
            &&& kind == "conversation.item.input_audio_transcription.completed"@ ==> event == (
            ServerEventView::Completed {
                item_id: text("item_id"@),
                transcript: text("transcript"@),
            })
            &&& kind == "conversation.item.input_audio_transcription.failed"@ ==> event == (
            ServerEventView::Failed { item_id: text("item_id"@) })
            &&& kind == "session.updated"@ ==> event == ServerEventView::SessionUpdated
            &&& kind == "error"@ ==> event == (ServerEventView::Error {
                detail: json::json_text(
                    if m.contains_key("error"@) {
                        m["error"@]
                    } else {
                        Json::Obj(m)
                    },
                ),
            })
        }),
{
    lemma_kinds_differ();
}

/// The kinds of messages are of different lengths, and so not the same.
proof fn lemma_kinds_differ()
    ensures
        "session.updated"@.len() == 15,
        "error"@.len() == 5,
        "conversation.item.input_audio_transcription.delta"@.len() == 49,
        "conversation.item.input_audio_transcription.completed"@.len() == 53,
        "conversation.item.input_audio_transcription.failed"@.len() == 50,
{
    reveal_strlit("session.updated");
    reveal_strlit("error");
    reveal_strlit("conversation.item.input_audio_transcription.delta");
    reveal_strlit("conversation.item.input_audio_transcription.completed");
    reveal_strlit("conversation.item.input_audio_transcription.failed");
}

/// Each event has its own kind of message: there is none without it.
pub proof fn law_kind_of_a_message(j: Json)
    ensures
        match server_event(j) {
            ServerEventView::SessionUpdated => is_of_kind(j, "session.updated"@),
            ServerEventView::Delta { .. } => is_of_kind(
                j,
                "conversation.item.input_audio_transcription.delta"@,
            ),
            ServerEventView::Completed { .. } => is_of_kind(
                j,
                "conversation.item.input_audio_transcription.completed"@,
            ),
            ServerEventView::Failed { .. } => is_of_kind(
                j,
                "conversation.item.input_audio_transcription.failed"@,
            ),
            ServerEventView::Error { .. } => is_of_kind(j, "error"@),
            ServerEventView::Other => true,
        },
{
    lemma_kinds_differ();
}

/// Whether a JSON value is an object with this text as its type.
pub open spec fn is_of_kind(j: Json, kind: Seq<char>) -> bool {
    j matches Json::Obj(m) && m.contains_key("type"@) && m["type"@] == Json::Str(kind)
}

/// Two messages that agree in what is read of them, and are no errors, say the
/// same, whatever else is in them.
pub proof fn law_other_members_do_not_matter(a: Map<Seq<char>, Json>, b: Map<Seq<char>, Json>)
    requires
        forall|key: Seq<char>|
            key == "type"@ || key == "item_id"@ || key == "delta"@ || key == "transcript"@ ==> (
            #[trigger] a.contains_key(key) <==> b.contains_key(key)) && (a.contains_key(key)
                ==> a[key] == b[key]),
        !is_of_kind(Json::Obj(a), "error"@),
    ensures
        server_event(Json::Obj(a)) == server_event(Json::Obj(b)),
{
    assert(a.contains_key("type"@) <==> b.contains_key("type"@));
    assert(a.contains_key("item_id"@) <==> b.contains_key("item_id"@));
    assert(a.contains_key("delta"@) <==> b.contains_key("delta"@));
    assert(a.contains_key("transcript"@) <==> b.contains_key("transcript"@));
    law_kind_of_a_message(Json::Obj(a));
    law_kind_of_a_message(Json::Obj(b));
}

/// A text is read as the JSON that it holds, and stands for nothing where it
/// holds none.
pub proof fn law_text_is_read_as_json(message: Seq<char>)
    ensures
        json::json_parsed(message) matches Some(j) ==> event_in(message) == server_event(j),
        json::json_parsed(message) is None ==> event_in(message) == ServerEventView::Other,
{
}

/// An event is seen as what it is, with all that it holds.
pub proof fn law_server_event_keeps_its_parts(item_id: String, text: String)
    ensures
        ServerEvent::SessionUpdated@ == ServerEventView::SessionUpdated,
        (ServerEvent::Delta { item_id, delta: text })@ == (ServerEventView::Delta {
            item_id: item_id@,
            delta: text@,
        }),
        (ServerEvent::Completed { item_id, transcript: text })@ == (ServerEventView::Completed {
            item_id: item_id@,
            transcript: text@,
        }),
        (ServerEvent::Failed { item_id })@ == (ServerEventView::Failed { item_id: item_id@ }),
        (ServerEvent::Error { detail: text })@ == (ServerEventView::Error { detail: text@ }),
        ServerEvent::Other@ == ServerEventView::Other,
{
}

/// The message that adds audio has two members: its kind, and the audio as it
/// was given.
pub proof fn law_append_message(audio: Seq<char>, key: Seq<char>)
    ensures
        append_json(audio) matches Json::Obj(m) && {
            &&& m.contains_key("type"@) && m["type"@] == Json::Str("input_audio_buffer.append"@)
            &&& m.contains_key("audio"@) && m["audio"@] == Json::Str(audio)
            &&& m.contains_key(key) ==> key == "type"@ || key == "audio"@
        },
{
    reveal_strlit("type");
    reveal_strlit("audio");
    assert("type"@.len() == 4);
    assert("audio"@.len() == 5);
}

/// Audio in Base64 has four characters for every three bytes begun, and the
/// characters of each three bytes are their bits, six by six.
pub proof fn law_base64_groups(bytes: Seq<u8>, i: int)
    requires
        0 <= i,
        3 * i + 2 < bytes.len(),
    ensures
        base64_text(bytes).len() == (bytes.len() + 2) / 3 * 4,
        ({
            let t = base64_text(bytes);
            base64_bits(t[4 * i]) * 262_144 + base64_bits(t[4 * i + 1]) * 4_096 + base64_bits(
                t[4 * i + 2],
            ) * 64 + base64_bits(t[4 * i + 3]) == bytes[3 * i] * 65_536 + bytes[3 * i + 1] * 256
                + bytes[3 * i + 2]
        }),
    decreases bytes.len(),
{
    let a = bytes[0] as int;
    let b = bytes[1] as int;
    let c = bytes[2] as int;
    let rest = bytes.skip(3);
    lemma_base64_len(bytes);
    lemma_base64_char(a / 4);
    lemma_base64_char(a % 4 * 16 + b / 16);
    lemma_base64_char(b % 16 * 4 + c / 64);
    lemma_base64_char(c % 64);
    if i > 0 {
        law_base64_groups(rest, i - 1);
        let t = base64_text(bytes);
        let u = base64_text(rest);
        lemma_base64_len(rest);
        assert(t[4 * i] == u[4 * (i - 1)]);
        assert(t[4 * i + 1] == u[4 * (i - 1) + 1]);
        assert(t[4 * i + 2] == u[4 * (i - 1) + 2]);
        assert(t[4 * i + 3] == u[4 * (i - 1) + 3]);
    }
}

proof fn lemma_base64_len(bytes: Seq<u8>)
    ensures
        base64_text(bytes).len() == (bytes.len() + 2) / 3 * 4,
    decreases bytes.len(),
{
    if bytes.len() >= 3 {
        lemma_base64_len(bytes.skip(3));
    }
}

/// The text of a message of audio is that of the object which holds the bytes
/// in Base64.
pub proof fn law_append_text(bytes: Seq<u8>)
    ensures
        append_text(bytes) == json::json_text(append_json(base64_text(bytes))),
{
}

} // verus!
