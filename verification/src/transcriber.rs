//! The configured engine: its key, and what it asks of the service.

use crate::config::OpenaiRealtimeConfig;
use crate::event::{ErrorView, TranscribeError};
use crate::json;
use crate::json::Json;
use crate::text;
use serde_json::Value;
use vstd::prelude::*;
use vstd::string::*;

verus! {

/// The only sample rate that the service takes.
pub const TARGET_SAMPLE_RATE: u32 = 24_000;

/// Where the API key of a configuration is to be found.
#[derive(Debug, PartialEq, Eq, Structural, Clone, Copy)]
pub enum KeySource {
    /// In the configuration.
    Inline,
    /// In the file that the configuration names.
    File,
    /// In the environment.
    Environment,
}

/// The first source that the configuration offers: a key that is not blank,
/// else a file, else the environment.
pub open spec fn key_source_of(config: OpenaiRealtimeConfig) -> KeySource {
    if config.api_key matches Some(key) && !text::is_blank(key@) {
        KeySource::Inline
    } else if config.api_key_file is Some {
        KeySource::File
    } else {
        KeySource::Environment
    }
}

/// Tells which source the key comes from, so that no other need be read.
pub fn key_source(config: &OpenaiRealtimeConfig) -> (res: KeySource)
    ensures
        res == key_source_of(*config),
{
    if let Some(key) = &config.api_key {
        if !text::blank(key.as_str()) {
            return KeySource::Inline;
        }
    }
    if config.api_key_file.is_some() {
        KeySource::File
    } else {
        KeySource::Environment
    }
}

/// The key, or the error where there is none. A file that was named and
/// cannot be used is an error: the environment does not stand in for it.
pub open spec fn resolved_api_key(
    config: OpenaiRealtimeConfig,
    file: Result<String, String>,
    env: Option<String>,
) -> Result<Seq<char>, ErrorView> {
    match key_source_of(config) {
        KeySource::Inline => Ok(config.api_key->0@),
        KeySource::File => {
            let path = config.api_key_file->0@;
            match file {
                Err(e) => Err(
                    ErrorView::ConfigError(
                        "OpenAI Realtime api_key_file unreadable ("@ + path + "): "@ + e@,
                    ),
                ),
                Ok(contents) => if text::is_blank(contents@) {
                    Err(
                        ErrorView::ConfigError(
                            "OpenAI Realtime api_key_file ("@ + path + ") is empty"@,
                        ),
                    )
                } else {
                    Ok(text::trimmed(contents@))
                },
            }
        },
        KeySource::Environment => if env matches Some(key) && !text::is_blank(key@) {
            Ok(env->0@)
        } else {
            Err(
                ErrorView::ConfigError(
                    "OpenAI Realtime API key required: set [openai_realtime] api_key, api_key_file, or OPENAI_API_KEY"@,
                ),
            )
        },
    }
}

/// Resolves the API key, given what reading the file `api_key_file` gave (its
/// contents or the text of the error) and the value of the environment
/// variable `OPENAI_API_KEY`.
pub fn resolve_api_key(
    config: &OpenaiRealtimeConfig,
    file: &Result<String, String>,
    env: &Option<String>,
) -> (res: Result<String, TranscribeError>)
    ensures
        match res {
            Ok(key) => resolved_api_key(*config, *file, *env) == Ok::<Seq<char>, ErrorView>(key@),
            Err(e) => resolved_api_key(*config, *file, *env) == Err::<Seq<char>, ErrorView>(e@),
        },
{
    if let Some(key) = &config.api_key {
        if !text::blank(key.as_str()) {
            return Ok(key.clone());
        }
    }
    if let Some(path) = &config.api_key_file {
        match file {
            Err(e) => {
                let mut message = "OpenAI Realtime api_key_file unreadable (".to_owned();
                message.append(path.as_str());
                message.append("): ");
                message.append(e.as_str());
                return Err(TranscribeError::ConfigError(message));
            },
            Ok(contents) => {
                if text::blank(contents.as_str()) {
                    let mut message = "OpenAI Realtime api_key_file (".to_owned();
                    message.append(path.as_str());
                    message.append(") is empty");
                    return Err(TranscribeError::ConfigError(message));
                }
                return Ok(contents.as_str().trim().to_owned());
            },
        }
    }
    if let Some(key) = env {
        if !text::blank(key.as_str()) {
            return Ok(key.clone());
        }
    }
    Err(
        TranscribeError::ConfigError(
            "OpenAI Realtime API key required: set [openai_realtime] api_key, api_key_file, or OPENAI_API_KEY".to_owned(),
        ),
    )
}

/// Whether the service takes `keyword`.
pub open spec fn keyword_allowed(keyword: Seq<char>) -> bool {
    forall|i: int|
        0 <= i < keyword.len() ==> (#[trigger] keyword[i]) != '<' && keyword[i] != '>'
            && keyword[i] != '\n' && keyword[i] != '\r'
}

/// Whether the service takes all of `keywords`.
pub open spec fn keywords_allowed(keywords: Seq<String>) -> bool {
    forall|i: int| 0 <= i < keywords.len() ==> keyword_allowed((#[trigger] keywords[i])@)
}

/// A text as `Debug` of `str` prints it, quoted and escaped.
pub uninterp spec fn quoted(s: Seq<char>) -> Seq<char>;

/// `Debug` of `str` in the standard library, whose text goes by the name
/// [`quoted`].
#[verifier::external_body]
fn quote(s: &str) -> (res: String)
    ensures
        res@ == quoted(s@),
{
    format!("{:?}", s)
}

/// What is said of a keyword that the service does not take.
pub open spec fn keyword_error(quoted_keyword: Seq<char>) -> ErrorView {
    ErrorView::ConfigError(
        "OpenAI Realtime keyword "@ + quoted_keyword
            + " contains an unsupported character (<, >, or newline are rejected by the API)"@,
    )
}

/// The error for a keyword that the service does not take, given the keyword
/// in quotes.
pub fn keyword_rejected(quoted_keyword: &str) -> (res: TranscribeError)
    ensures
        res@ == keyword_error(quoted_keyword@),
{
    let mut message = "OpenAI Realtime keyword ".to_owned();
    message.append(quoted_keyword);
    message.append(
        " contains an unsupported character (<, >, or newline are rejected by the API)",
    );
    TranscribeError::ConfigError(message)
}

fn keyword_ok(keyword: &str) -> (res: bool)
    ensures
        res == keyword_allowed(keyword@),
{
    for c in it: keyword.chars()
        invariant
            it.seq() == keyword@,
            keyword_allowed(keyword@.take(it.index() as int)),
    {
        let ghost n = it.index() as int;
        if c == '<' || c == '>' || c == '\n' || c == '\r' {
            assert(keyword@[n] == c);
            return false;
        }
        assert(keyword@.take(n + 1) =~= keyword@.take(n).push(c));
    }
    assert(keyword@.take(keyword@.len() as int) =~= keyword@);
    true
}

/// Turns down keywords that the service would turn down, the first one first,
/// so that a mistake shows at startup and not in the middle of a session.
pub fn validate_keywords(keywords: &[String]) -> (res: Result<(), TranscribeError>)
    ensures
        res is Ok <==> keywords_allowed(keywords@),
        res matches Err(e) ==> exists|i: int|
            {
                &&& 0 <= i < keywords@.len()
                &&& keywords_allowed(keywords@.take(i))
                &&& !keyword_allowed((#[trigger] keywords@[i])@)
                &&& e@ == keyword_error(quoted(keywords@[i]@))
            },
{
    for i in 0..keywords.len()
        invariant
            keywords_allowed(keywords@.take(i as int)),
    {
        let keyword = keywords[i].as_str();
        if !keyword_ok(keyword) {
            assert(!keyword_allowed(keywords@[i as int]@));
            return Err(keyword_rejected(quote(keyword).as_str()));
        }
        assert(keywords@.take(i + 1) =~= keywords@.take(i as int).push(keywords@[i as int]));
    }
    assert(keywords@.take(keywords@.len() as int) =~= keywords@);
    Ok(())
}

/// A key in the configuration stands, whatever the file and the environment
/// hold; and a file that the configuration names decides, whatever the
/// environment holds.
pub proof fn law_key_priority(
    config: OpenaiRealtimeConfig,
    file: Result<String, String>,
    other_file: Result<String, String>,
    env: Option<String>,
    other_env: Option<String>,
)
    ensures
        key_source_of(config) == KeySource::Inline ==> resolved_api_key(config, file, env)
            == resolved_api_key(config, other_file, other_env),
        key_source_of(config) == KeySource::File ==> resolved_api_key(config, file, env)
            == resolved_api_key(config, file, other_env),
        key_source_of(config) == KeySource::Environment ==> resolved_api_key(config, file, env)
            == resolved_api_key(config, other_file, env),
{
}

/// No key is resolved that is blank.
pub proof fn law_key_is_not_blank(
    config: OpenaiRealtimeConfig,
    file: Result<String, String>,
    env: Option<String>,
)
    ensures
        resolved_api_key(config, file, env) matches Ok(key) ==> !text::is_blank(key),
{
    if let Ok(contents) = file {
        text::lemma_trimmed_empty(contents@);
        text::lemma_trimmed_twice(contents@);
        text::lemma_trimmed_empty(text::trimmed(contents@));
    }
}

/// The engine: a configuration that was found good, and the key to use.
#[derive(Debug)]
pub struct OpenaiRealtimeTranscriber {
    pub config: OpenaiRealtimeConfig,
    pub api_key: String,
}

/// What `session.update` says of the transcription.
pub open spec fn transcription_json(config: OpenaiRealtimeConfig) -> Json {
    let m = Map::empty().insert("model"@, Json::Str(config.model@)).insert(
        "delay"@,
        Json::Str(config.delay@),
    ).insert("languages"@, json::str_array(config.languages@));
    let m = match config.prompt {
        Some(prompt) => if text::is_blank(prompt@) {
            m
        } else {
            m.insert("prompt"@, Json::Str(prompt@))
        },
        None => m,
    };
    if config.keywords@.len() == 0 {
        Json::Obj(m)
    } else {
        Json::Obj(m.insert("keywords"@, json::str_array(config.keywords@)))
    }
}

/// The only audio format in use: 16-bit PCM at the service's rate.
pub open spec fn format_json() -> Json {
    Json::Obj(
        Map::empty().insert("type"@, Json::Str("audio/pcm"@)).insert(
            "rate"@,
            Json::Int(TARGET_SAMPLE_RATE as int),
        ),
    )
}

/// What a text was read as, where that is a number; else null.
pub open spec fn number_or_null_json(parsed: Option<Json>) -> Json {
    match parsed {
        Some(j) => if j.is_number() {
            j
        } else {
            Json::Null
        },
        None => Json::Null,
    }
}

/// The number that a text denotes; null where it denotes none.
pub open spec fn number_json(text: Seq<char>) -> Json {
    number_or_null_json(json::json_parsed(text))
}

/// Server-side turn detection as configured, or null where turns are ended by
/// an explicit commit.
pub open spec fn turn_detection_json(config: OpenaiRealtimeConfig, manual_commit: bool) -> Json {
    if config.turn_detection && !manual_commit {
        Json::Obj(
            Map::empty().insert("type"@, Json::Str("server_vad"@)).insert(
                "threshold"@,
                number_json(config.vad_threshold@),
            ).insert("prefix_padding_ms"@, Json::Int(config.vad_prefix_padding_ms as int)).insert(
                "silence_duration_ms"@,
                Json::Int(config.vad_silence_duration_ms as int),
            ),
        )
    } else {
        Json::Null
    }
}

/// What `session.update` says of the audio input.
pub open spec fn input_json(config: OpenaiRealtimeConfig, manual_commit: bool) -> Json {
    let m = Map::empty().insert("format"@, format_json()).insert(
        "transcription"@,
        transcription_json(config),
    );
    let m = if text::is_blank(config.noise_reduction@) {
        m
    } else {
        m.insert(
            "noise_reduction"@,
            Json::Obj(Map::empty().insert("type"@, Json::Str(config.noise_reduction@))),
        )
    };
    Json::Obj(m.insert("turn_detection"@, turn_detection_json(config, manual_commit)))
}

/// The `session.update` message.
pub open spec fn session_update_json(config: OpenaiRealtimeConfig, manual_commit: bool) -> Json {
    let audio = Json::Obj(Map::empty().insert("input"@, input_json(config, manual_commit)));
    let session = Json::Obj(
        Map::empty().insert("type"@, Json::Str("transcription"@)).insert("audio"@, audio),
    );
    Json::Obj(
        Map::empty().insert("type"@, Json::Str("session.update"@)).insert("session"@, session),
    )
}

/// The audio input part of a `session.update` message.
pub open spec fn input_part(update: Json) -> Option<Json> {
    match update.member("session"@) {
        Some(session) => match session.member("audio"@) {
            Some(audio) => audio.member("input"@),
            None => None,
        },
        None => None,
    }
}

/// A `session.update` message carries its type and its audio input part.
pub proof fn law_session_update_parts(config: OpenaiRealtimeConfig, manual_commit: bool)
    ensures
        session_update_json(config, manual_commit).str_member("type"@) == "session.update"@,
        input_part(session_update_json(config, manual_commit)) == Some(
            input_json(config, manual_commit),
        ),
{
    reveal_strlit("type");
    reveal_strlit("session");
    reveal_strlit("audio");
    reveal_strlit("input");
    assert("type"@.len() == 4);
    assert("session"@.len() == 7);
    assert("audio"@.len() == 5);
}

/// For a recording that the client commits itself, turn detection is null,
/// whatever the configuration says; otherwise it is as configured.
pub proof fn law_commit_excludes_turn_detection(config: OpenaiRealtimeConfig)
    ensures
        input_json(config, true).member("turn_detection"@) == Some(Json::Null),
        config.turn_detection ==> (input_json(config, false).member("turn_detection"@) matches Some(
            vad,
        ) && vad.str_member("type"@) == "server_vad"@),
        !config.turn_detection ==> input_json(config, false).member("turn_detection"@) == Some(
            Json::Null,
        ),
{
    reveal_strlit("type");
    reveal_strlit("threshold");
    reveal_strlit("prefix_padding_ms");
    reveal_strlit("silence_duration_ms");
    assert("type"@.len() == 4);
}

/// What is not configured is left out of the message, and what is configured
/// stands in it. The languages are a list, and there is no single language.
pub proof fn law_optional_members(config: OpenaiRealtimeConfig, manual_commit: bool)
    ensures
        transcription_json(config).member("prompt"@) == (match config.prompt {
            Some(p) => if text::is_blank(p@) {
                None
            } else {
                Some(Json::Str(p@))
            },
            None => None,
        }),
        transcription_json(config).member("keywords"@) == (if config.keywords@.len() == 0 {
            None
        } else {
            Some(json::str_array(config.keywords@))
        }),
        transcription_json(config).member("languages"@) == Some(json::str_array(config.languages@)),
        transcription_json(config).member("language"@) is None,
        transcription_json(config).str_member("model"@) == config.model@,
        transcription_json(config).str_member("delay"@) == config.delay@,
        input_json(config, manual_commit).member("noise_reduction"@) is Some
            <==> !text::is_blank(config.noise_reduction@),
        input_json(config, manual_commit).member("transcription"@) == Some(
            transcription_json(config),
        ),
        input_json(config, manual_commit).member("format"@) == Some(format_json()),
{
    reveal_strlit("model");
    reveal_strlit("delay");
    reveal_strlit("languages");
    reveal_strlit("language");
    reveal_strlit("prompt");
    reveal_strlit("keywords");
    reveal_strlit("format");
    reveal_strlit("transcription");
    reveal_strlit("noise_reduction");
    reveal_strlit("turn_detection");
    assert("model"@.len() == 5 && "model"@[0] == 'm');
    assert("delay"@.len() == 5 && "delay"@[0] == 'd');
    assert("language"@.len() == 8 && "language"@[0] == 'l');
    assert("keywords"@.len() == 8 && "keywords"@[0] == 'k');
    assert("languages"@.len() == 9);
    assert("prompt"@.len() == 6);
    assert("format"@.len() == 6);
    assert("noise_reduction"@.len() == 15);
    assert("turn_detection"@.len() == 14);
    assert("transcription"@.len() == 13);
}

/// What a text was read as, where that is a number; else null.
pub fn number_or_null(parsed: Option<Value>) -> (res: Value)
    ensures
        json::json_of(res) == number_or_null_json(
            match parsed {
                Some(v) => Some(json::json_of(v)),
                None => None,
            },
        ),
{
    match parsed {
        Some(v) => if json::is_number(&v) {
            v
        } else {
            json::null()
        },
        None => json::null(),
    }
}

/// Checks that there is audio to transcribe.
pub fn check_audio(samples: usize) -> (res: Result<(), TranscribeError>)
    ensures
        res is Ok <==> samples > 0,
        res matches Err(e) ==> e@ == ErrorView::AudioFormat("Empty audio buffer"@),
{
    if samples == 0 {
        Err(TranscribeError::AudioFormat("Empty audio buffer".to_owned()))
    } else {
        Ok(())
    }
}

impl OpenaiRealtimeTranscriber {
    /// A key that is not blank, and no keyword that the service turns down.
    pub open spec fn wf(&self) -> bool {
        &&& !text::is_blank(self.api_key@)
        &&& keywords_allowed(self.config.keywords@)
    }

    /// Sets the engine up, given what reading the file `api_key_file` gave and
    /// the value of the environment variable `OPENAI_API_KEY`.
    pub fn new(
        config: OpenaiRealtimeConfig,
        file: Result<String, String>,
        env: Option<String>,
    ) -> (res: Result<Self, TranscribeError>)
        ensures
            res is Ok <==> resolved_api_key(config, file, env) is Ok && keywords_allowed(
                config.keywords@,
            ),
            match res {
                Ok(t) => {
                    &&& t.config == config
                    &&& resolved_api_key(config, file, env) == Ok::<Seq<char>, ErrorView>(
                        t.api_key@,
                    )
                    &&& t.wf()
                },
                Err(e) => {
                    ||| resolved_api_key(config, file, env) == Err::<Seq<char>, ErrorView>(e@)
                    ||| resolved_api_key(config, file, env) is Ok && exists|i: int|
                        {
                            &&& 0 <= i < config.keywords@.len()
                            &&& keywords_allowed(config.keywords@.take(i))
                            &&& !keyword_allowed((#[trigger] config.keywords@[i])@)
                            &&& e@ == keyword_error(quoted(config.keywords@[i]@))
                        }
                },
            },
    {
        let api_key = match resolve_api_key(&config, &file, &env) {
            Ok(key) => key,
            Err(e) => {
                return Err(e);
            },
        };
        match validate_keywords(config.keywords.as_slice()) {
            Ok(_) => {},
            Err(e) => {
                return Err(e);
            },
        }
        proof {
            law_key_is_not_blank(config, file, env);
        }
        Ok(OpenaiRealtimeTranscriber { config, api_key })
    }

    /// The engine itself where it streams, and nothing where it transcribes a
    /// recording as a whole.
    pub fn as_streaming(&self) -> (res: Option<&Self>)
        ensures
            res == (if self.config.streaming {
                Some(self)
            } else {
                None
            }),
    {
        if self.config.streaming {
            Some(self)
        } else {
            None
        }
    }

    /// The `transcription` part of `session.update`.
    fn transcription(&self) -> (res: Value)
        ensures
            json::json_of(res) == transcription_json(self.config),
    {
        let mut transcription = json::object();
        json::set_member(&mut transcription, "model", json::string(self.config.model.as_str()));
        json::set_member(&mut transcription, "delay", json::string(self.config.delay.as_str()));
        json::set_member(
            &mut transcription,
            "languages",
            json::strings(self.config.languages.as_slice()),
        );
        if let Some(prompt) = &self.config.prompt {
            if !text::blank(prompt.as_str()) {
                json::set_member(&mut transcription, "prompt", json::string(prompt.as_str()));
            }
        }
        if self.config.keywords.len() > 0 {
            json::set_member(
                &mut transcription,
                "keywords",
                json::strings(self.config.keywords.as_slice()),
            );
        }
        transcription
    }

    /// The `turn_detection` part of `session.update`.
    fn turn_detection(&self, manual_commit: bool) -> (res: Value)
        ensures
            json::json_of(res) == turn_detection_json(self.config, manual_commit),
    {
        if self.config.turn_detection && !manual_commit {
            let mut vad = json::object();
            json::set_member(&mut vad, "type", json::string("server_vad"));
            json::set_member(
                &mut vad,
                "threshold",
                number_or_null(json::parse(self.config.vad_threshold.as_str())),
            );
            json::set_member(
                &mut vad,
                "prefix_padding_ms",
                json::number(self.config.vad_prefix_padding_ms),
            );
            json::set_member(
                &mut vad,
                "silence_duration_ms",
                json::number(self.config.vad_silence_duration_ms),
            );
            vad
        } else {
            json::null()
        }
    }

    /// The message that sets the session up. Where the client commits the
    /// audio itself, as for a recording sent as a whole, turn detection is off
    /// whatever the configuration says: the recording must become one item.
    pub fn session_update(&self, manual_commit: bool) -> (res: Value)
        ensures
            json::json_of(res) == session_update_json(self.config, manual_commit),
    {
        let mut format = json::object();
        json::set_member(&mut format, "type", json::string("audio/pcm"));
        json::set_member(&mut format, "rate", json::number(TARGET_SAMPLE_RATE));

        let mut input = json::object();
        json::set_member(&mut input, "format", format);
        json::set_member(&mut input, "transcription", self.transcription());
        if !text::blank(self.config.noise_reduction.as_str()) {
            let mut noise_reduction = json::object();
            json::set_member(
                &mut noise_reduction,
                "type",
                json::string(self.config.noise_reduction.as_str()),
            );
            json::set_member(&mut input, "noise_reduction", noise_reduction);
        }
        json::set_member(&mut input, "turn_detection", self.turn_detection(manual_commit));

        let mut audio = json::object();
        json::set_member(&mut audio, "input", input);
        let mut session = json::object();
        json::set_member(&mut session, "type", json::string("transcription"));
        json::set_member(&mut session, "audio", audio);
        let mut update = json::object();
        json::set_member(&mut update, "type", json::string("session.update"));
        json::set_member(&mut update, "session", session);
        update
    }

    /// The text of the message that sets the session up.
    pub fn session_update_text(&self, manual_commit: bool) -> (res: String)
        ensures
            res@ == json::json_text(session_update_json(self.config, manual_commit)),
    {
        json::text_of(&self.session_update(manual_commit))
    }

    /// Where to connect. The address names an intent and no model: the model
    /// of the address would be that of a conversation, and the service takes
    /// the transcription model in `session.update` alone.
    pub fn ws_url(&self) -> (res: String)
        ensures
            res@ == "wss://api.openai.com/v1/realtime?intent=transcription"@,
    {
        "wss://api.openai.com/v1/realtime?intent=transcription".to_owned()
    }
}

/// The member names of the messages differ.
proof fn lemma_names_differ()
    ensures
        "type"@.len() == 4 && "type"@[0] == 't',
        "rate"@.len() == 4 && "rate"@[0] == 'r',
        "model"@.len() == 5 && "model"@[0] == 'm',
        "delay"@.len() == 5 && "delay"@[0] == 'd',
        "audio"@.len() == 5,
        "input"@.len() == 5,
        "prompt"@.len() == 6,
        "format"@.len() == 6,
        "session"@.len() == 7,
        "keywords"@.len() == 8,
        "languages"@.len() == 9,
        "threshold"@.len() == 9,
        "transcription"@.len() == 13,
        "turn_detection"@.len() == 14,
        "noise_reduction"@.len() == 15,
        "prefix_padding_ms"@.len() == 17,
        "silence_duration_ms"@.len() == 19,
{
    reveal_strlit("type");
    reveal_strlit("rate");
    reveal_strlit("model");
    reveal_strlit("delay");
    reveal_strlit("audio");
    reveal_strlit("input");
    reveal_strlit("prompt");
    reveal_strlit("format");
    reveal_strlit("session");
    reveal_strlit("keywords");
    reveal_strlit("languages");
    reveal_strlit("threshold");
    reveal_strlit("transcription");
    reveal_strlit("turn_detection");
    reveal_strlit("noise_reduction");
    reveal_strlit("prefix_padding_ms");
    reveal_strlit("silence_duration_ms");
}

/// The message that sets the session up is made of nested objects, each with
/// the members named here and no others.
pub proof fn law_update_shape(config: OpenaiRealtimeConfig, manual_commit: bool, key: Seq<char>)
    ensures
        session_update_json(config, manual_commit) matches Json::Obj(update) && {
            &&& update.contains_key("type"@) && update["type"@] == Json::Str("session.update"@)
            &&& update.contains_key(key) ==> key == "type"@ || key == "session"@
            &&& update.contains_key("session"@)
            &&& update["session"@] matches Json::Obj(session) && {
                &&& session.contains_key("type"@) && session["type"@] == Json::Str(
                    "transcription"@,
                )
                &&& session.contains_key(key) ==> key == "type"@ || key == "audio"@
                &&& session.contains_key("audio"@)
                &&& session["audio"@] matches Json::Obj(audio) && {
                    &&& audio.contains_key("input"@) && audio["input"@] == input_json(
                        config,
                        manual_commit,
                    )
                    &&& audio.contains_key(key) ==> key == "input"@
                }
            }
        },
{
    lemma_names_differ();
}

/// What is said of the audio input is what is configured: 16-bit PCM at
/// 24 kHz, the noise reduction under its configured name, if any, and turn
/// detection with the configured numbers, unless it is off or the client
/// commits.
pub proof fn law_input_is_as_configured(
    config: OpenaiRealtimeConfig,
    manual_commit: bool,
    key: Seq<char>,
)
    ensures
        input_json(config, manual_commit) matches Json::Obj(input) && {
            &&& input.contains_key("format"@)
            &&& input["format"@] matches Json::Obj(format) && {
                &&& format.contains_key("type"@) && format["type"@] == Json::Str("audio/pcm"@)
                &&& format.contains_key("rate"@) && format["rate"@] == Json::Int(24_000)
                &&& format.contains_key(key) ==> key == "type"@ || key == "rate"@
            }
            &&& input.contains_key("transcription"@) && input["transcription"@]
                == transcription_json(config)
            &&& text::is_blank(config.noise_reduction@) ==> !input.contains_key(
                "noise_reduction"@,
            )
            &&& !text::is_blank(config.noise_reduction@) ==> {
                &&& input.contains_key("noise_reduction"@)
                &&& input["noise_reduction"@] matches Json::Obj(noise) && {
                    &&& noise.contains_key("type"@) && noise["type"@] == Json::Str(
                        config.noise_reduction@,
                    )
                    &&& noise.contains_key(key) ==> key == "type"@
                }
            }
            &&& input.contains_key("turn_detection"@)
            &&& manual_commit || !config.turn_detection ==> input["turn_detection"@] == Json::Null
            &&& !manual_commit && config.turn_detection ==> (
            input["turn_detection"@] matches Json::Obj(vad) && {
                &&& vad.contains_key("type"@) && vad["type"@] == Json::Str("server_vad"@)
                &&& vad.contains_key("threshold"@)
                &&& match json::json_parsed(config.vad_threshold@) {
                    Some(Json::Int(n)) => vad["threshold"@] == Json::Int(n),
                    Some(Json::Float(bits)) => vad["threshold"@] == Json::Float(bits),
                    _ => vad["threshold"@] == Json::Null,
                }
                &&& vad.contains_key("prefix_padding_ms"@) && vad["prefix_padding_ms"@]
                    == Json::Int(config.vad_prefix_padding_ms as int)
                &&& vad.contains_key("silence_duration_ms"@) && vad["silence_duration_ms"@]
                    == Json::Int(config.vad_silence_duration_ms as int)
                &&& vad.contains_key(key) ==> key == "type"@ || key == "threshold"@ || key
                    == "prefix_padding_ms"@ || key == "silence_duration_ms"@
            })
            &&& input.contains_key(key) ==> key == "format"@ || key == "transcription"@ || key
                == "noise_reduction"@ || key == "turn_detection"@
        },
{
    lemma_names_differ();
}

/// What is said of the transcription is what is configured: the model, the
/// delay and the languages in order; the prompt as it is, unless it is blank;
/// and the keywords in order, if there are any.
pub proof fn law_transcription_is_as_configured(config: OpenaiRealtimeConfig, key: Seq<char>)
    ensures
        transcription_json(config) matches Json::Obj(m) && {
            &&& m.contains_key("model"@) && m["model"@] == Json::Str(config.model@)
            &&& m.contains_key("delay"@) && m["delay"@] == Json::Str(config.delay@)
            &&& m.contains_key("languages"@)
            &&& m["languages"@] matches Json::Arr(languages) && {
                &&& languages.len() == config.languages@.len()
                &&& forall|i: int|
                    0 <= i < languages.len() ==> #[trigger] languages[i] == Json::Str(
                        config.languages@[i]@,
                    )
            }
            &&& match config.prompt {
                Some(p) => {
                    &&& m.contains_key("prompt"@) <==> !text::is_blank(p@)
                    &&& m.contains_key("prompt"@) ==> m["prompt"@] == Json::Str(p@)
                },
                None => !m.contains_key("prompt"@),
            }
            &&& config.keywords@.len() == 0 ==> !m.contains_key("keywords"@)
            &&& config.keywords@.len() > 0 ==> {
                &&& m.contains_key("keywords"@)
                &&& m["keywords"@] matches Json::Arr(keywords) && {
                    &&& keywords.len() == config.keywords@.len()
                    &&& forall|i: int|
                        0 <= i < keywords.len() ==> #[trigger] keywords[i] == Json::Str(
                            config.keywords@[i]@,
                        )
                }
            }
            &&& m.contains_key(key) ==> key == "model"@ || key == "delay"@ || key == "languages"@
                || key == "prompt"@ || key == "keywords"@
        },
{
    lemma_names_differ();
}

/// A number stays the number that it is, and nothing else stays.
pub proof fn law_only_numbers_stay(j: Json)
    ensures
        j is Int || j is Float ==> number_or_null_json(Some(j)) == j,
        !(j is Int || j is Float) ==> number_or_null_json(Some(j)) == Json::Null,
        number_or_null_json(None) == Json::Null,
{
}

/// Which key is used: that of the configuration, as it is, unless it is blank;
/// else what the file holds but for the white space around it; else that of
/// the environment, as it is. Where there is none, the error says what is
/// wrong, with the path and the reason.
pub proof fn law_key_used(
    config: OpenaiRealtimeConfig,
    file: Result<String, String>,
    env: Option<String>,
)
    ensures
        config.api_key matches Some(key) ==> (!text::is_blank(key@) ==> resolved_api_key(
            config,
            file,
            env,
        ) == Ok::<Seq<char>, ErrorView>(key@)),
        !(config.api_key matches Some(key) && !text::is_blank(key@)) ==> {
            match config.api_key_file {
                Some(path) => match file {
                    Ok(contents) => match resolved_api_key(config, file, env) {
                        Ok(key) => !text::is_blank(contents@) && key == text::trimmed(contents@),
                        Err(e) => text::is_blank(contents@) && e == ErrorView::ConfigError(
                            "OpenAI Realtime api_key_file ("@ + path@ + ") is empty"@,
                        ),
                    },
                    Err(reason) => resolved_api_key(config, file, env) == Err::<
                        Seq<char>,
                        ErrorView,
                    >(
                        ErrorView::ConfigError(
                            "OpenAI Realtime api_key_file unreadable ("@ + path@ + "): "@
                                + reason@,
                        ),
                    ),
                },
                None => match resolved_api_key(config, file, env) {
                    Ok(key) => env matches Some(value) && !text::is_blank(value@) && key == value@,
                    Err(e) => !(env matches Some(value) && !text::is_blank(value@)) && e
                        == ErrorView::ConfigError(
                        "OpenAI Realtime API key required: set [openai_realtime] api_key, api_key_file, or OPENAI_API_KEY"@,
                    ),
                },
            }
        },
{
}

/// The source that is named is the one that the key comes from.
pub proof fn law_key_source(config: OpenaiRealtimeConfig)
    ensures
        match key_source_of(config) {
            KeySource::Inline => config.api_key matches Some(key) && !text::is_blank(key@),
            KeySource::File => config.api_key_file is Some && !(config.api_key matches Some(key)
                && !text::is_blank(key@)),
            KeySource::Environment => config.api_key_file is None && !(
            config.api_key matches Some(key) && !text::is_blank(key@)),
        },
{
}

/// A keyword is turned down for any of four characters wherever it stands, and
/// for nothing else; the error names it in quotes.
pub proof fn law_keywords(keyword: Seq<char>, quoted_keyword: Seq<char>)
    ensures
        keyword_allowed(keyword) <==> !keyword.contains('<') && !keyword.contains('>')
            && !keyword.contains('\n') && !keyword.contains('\r'),
        keyword_error(quoted_keyword) == ErrorView::ConfigError(
            "OpenAI Realtime keyword "@ + quoted_keyword
                + " contains an unsupported character (<, >, or newline are rejected by the API)"@,
        ),
{
    if keyword_allowed(keyword) {
        assert(!keyword.contains('<') && !keyword.contains('>') && !keyword.contains('\n')
            && !keyword.contains('\r'));
    } else {
        let i = choose|i: int|
            0 <= i < keyword.len() && !((#[trigger] keyword[i]) != '<' && keyword[i] != '>'
                && keyword[i] != '\n' && keyword[i] != '\r');
        assert(keyword.contains(keyword[i]));
    }
}

/// A list of keywords is taken exactly if each of them is.
pub proof fn law_keyword_lists(keywords: Seq<String>, i: int)
    ensures
        keywords_allowed(keywords) && 0 <= i < keywords.len() ==> keyword_allowed(keywords[i]@),
        !keywords_allowed(keywords) ==> exists|k: int|
            0 <= k < keywords.len() && !keyword_allowed((#[trigger] keywords[k])@),
{
}

} // verus!
