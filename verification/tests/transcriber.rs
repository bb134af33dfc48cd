use base64::engine::general_purpose::STANDARD;
use base64::Engine;
use serde_json::Value;
use tokio_tungstenite::tungstenite::http::Request;
use voxtype_realtime::config::OpenaiRealtimeConfig;
use voxtype_realtime::connect::authorize;
use voxtype_realtime::event::TranscribeError;
use voxtype_realtime::text::blank;
use voxtype_realtime::transcriber::{
    check_audio, key_source, keyword_rejected, number_or_null, resolve_api_key,
    validate_keywords, KeySource, OpenaiRealtimeTranscriber,
};

fn cfg_with_key(key: Option<&str>) -> OpenaiRealtimeConfig {
    OpenaiRealtimeConfig {
        api_key: key.map(|s| s.to_string()),
        api_key_file: None,
        model: "gpt-live-transcribe".into(),
        delay: "low".into(),
        prompt: None,
        keywords: Vec::new(),
        languages: vec!["en".into()],
        noise_reduction: "near_field".into(),
        turn_detection: true,
        vad_threshold: "0.5".into(),
        vad_prefix_padding_ms: 300,
        vad_silence_duration_ms: 550,
        streaming: true,
        type_partials: true,
    }
}

/// An engine with neither a key file nor a key in the environment.
fn engine(cfg: OpenaiRealtimeConfig) -> Result<OpenaiRealtimeTranscriber, TranscribeError> {
    OpenaiRealtimeTranscriber::new(cfg, Err("not read".into()), None)
}

// === API key resolution ===

#[test]
fn requires_api_key_from_config_file_or_env() {
    let err = engine(cfg_with_key(None)).unwrap_err();
    assert!(matches!(err, TranscribeError::ConfigError(_)));
    assert_eq!(
        err.message(),
        "OpenAI Realtime API key required: set [openai_realtime] api_key, api_key_file, \
         or OPENAI_API_KEY"
    );
}

#[test]
fn accepts_config_api_key() {
    let t = engine(cfg_with_key(Some("test-key"))).unwrap();
    assert_eq!(t.api_key, "test-key");
}

#[test]
fn accepts_api_key_file() {
    let mut cfg = cfg_with_key(None);
    cfg.api_key_file = Some("key.txt".into());
    let t = OpenaiRealtimeTranscriber::new(cfg, Ok("file-key\n".into()), None).unwrap();
    assert_eq!(t.api_key, "file-key");
}

#[test]
fn config_api_key_takes_priority_over_file() {
    let mut cfg = cfg_with_key(Some("config-key"));
    cfg.api_key_file = Some("key.txt".into());
    let t = OpenaiRealtimeTranscriber::new(cfg, Ok("file-key".into()), None).unwrap();
    assert_eq!(t.api_key, "config-key");
}

#[test]
fn unreadable_api_key_file_is_a_hard_error() {
    let mut cfg = cfg_with_key(None);
    cfg.api_key_file = Some("/nonexistent/path/key.txt".into());
    let err = OpenaiRealtimeTranscriber::new(
        cfg,
        Err("No such file".into()),
        Some("env-key".into()),
    )
    .unwrap_err();
    assert!(matches!(err, TranscribeError::ConfigError(_)));
    assert_eq!(
        err.message(),
        "OpenAI Realtime api_key_file unreadable (/nonexistent/path/key.txt): No such file"
    );
}

#[test]
fn blank_api_key_file_is_a_hard_error() {
    let mut cfg = cfg_with_key(Some("  "));
    cfg.api_key_file = Some("key.txt".into());
    assert_eq!(key_source(&cfg), KeySource::File);
    let err = resolve_api_key(&cfg, &Ok(" \n".into()), &Some("env-key".into())).unwrap_err();
    assert_eq!(
        err.message(),
        "OpenAI Realtime api_key_file (key.txt) is empty"
    );
}

#[test]
fn environment_key_is_taken_as_it_stands() {
    let cfg = cfg_with_key(Some(" \t"));
    assert_eq!(key_source(&cfg), KeySource::Environment);
    let none: Result<String, String> = Err("not read".into());
    assert_eq!(
        resolve_api_key(&cfg, &none, &Some(" env-key ".into())).unwrap(),
        " env-key "
    );
    assert!(resolve_api_key(&cfg, &none, &Some(" ".into())).is_err());
    assert_eq!(key_source(&cfg_with_key(Some("k"))), KeySource::Inline);
}

#[test]
fn white_space_is_what_unicode_says() {
    let spaces: Vec<u32> = vec![
        0x9, 0xa, 0xb, 0xc, 0xd, 0x20, 0x85, 0xa0, 0x1680, 0x2000, 0x2001, 0x2002, 0x2003, 0x2004,
        0x2005, 0x2006, 0x2007, 0x2008, 0x2009, 0x200a, 0x2028, 0x2029, 0x202f, 0x205f, 0x3000,
    ];
    for u in 0..=0x10ffffu32 {
        if let Some(c) = char::from_u32(u) {
            assert_eq!(blank(&c.to_string()), spaces.contains(&u), "{:x}", u);
        }
    }
    assert!(blank(""));
    assert!(!blank(" x "));
}

// === keyword validation ===

#[test]
fn rejects_keyword_with_angle_bracket() {
    let mut cfg = cfg_with_key(Some("k"));
    cfg.keywords = vec!["<script>".into()];
    let err = engine(cfg).unwrap_err();
    assert!(matches!(err, TranscribeError::ConfigError(_)));
}

#[test]
fn rejects_keyword_with_newline() {
    let mut cfg = cfg_with_key(Some("k"));
    cfg.keywords = vec!["multi\nline".into()];
    let err = engine(cfg).unwrap_err();
    assert!(matches!(err, TranscribeError::ConfigError(_)));
}

#[test]
fn accepts_plain_keywords() {
    let mut cfg = cfg_with_key(Some("k"));
    cfg.keywords = vec!["Wayland".into(), "voxtype".into()];
    assert!(engine(cfg).is_ok());
}

#[test]
fn the_first_bad_keyword_is_named() {
    let keywords: Vec<String> = vec!["good".into(), "a\rb".into(), ">".into()];
    let err = validate_keywords(&keywords).unwrap_err();
    assert_eq!(
        err.message(),
        "OpenAI Realtime keyword \"a\\rb\" contains an unsupported character \
         (<, >, or newline are rejected by the API)"
    );
    assert!(validate_keywords(&keywords[..1]).is_ok());
    assert!(validate_keywords(&[]).is_ok());
    assert_eq!(
        keyword_rejected("\"x\"").message(),
        "OpenAI Realtime keyword \"x\" contains an unsupported character \
         (<, >, or newline are rejected by the API)"
    );
}

#[test]
fn a_missing_key_comes_before_a_bad_keyword() {
    let mut cfg = cfg_with_key(None);
    cfg.keywords = vec!["<".into()];
    assert!(engine(cfg).unwrap_err().message().contains("key required"));
}

// === session.update shape ===

#[test]
fn session_update_contains_required_fields() {
    let t = engine(cfg_with_key(Some("k"))).unwrap();
    let payload = t.session_update(false);
    assert_eq!(payload["type"], "session.update");
    assert_eq!(payload["session"]["type"], "transcription");
    let input = &payload["session"]["audio"]["input"];
    assert_eq!(input["format"]["type"], "audio/pcm");
    assert_eq!(input["format"]["rate"], 24000);
    assert_eq!(input["transcription"]["model"], "gpt-live-transcribe");
    assert_eq!(input["transcription"]["delay"], "low");
    assert_eq!(input["transcription"]["languages"][0], "en");
    assert!(input["transcription"].get("language").is_none());
}

#[test]
fn session_update_omits_prompt_when_unset() {
    let t = engine(cfg_with_key(Some("k"))).unwrap();
    let payload = t.session_update(false);
    assert!(payload["session"]["audio"]["input"]["transcription"]
        .get("prompt")
        .is_none());
}

#[test]
fn session_update_includes_prompt_when_set() {
    let mut cfg = cfg_with_key(Some("k"));
    cfg.prompt = Some("bias toward Rust jargon".into());
    let t = engine(cfg).unwrap();
    let payload = t.session_update(false);
    assert_eq!(
        payload["session"]["audio"]["input"]["transcription"]["prompt"],
        "bias toward Rust jargon"
    );
}

#[test]
fn session_update_omits_a_blank_prompt() {
    let mut cfg = cfg_with_key(Some("k"));
    cfg.prompt = Some(" \n".into());
    let payload = engine(cfg).unwrap().session_update(true);
    assert!(payload["session"]["audio"]["input"]["transcription"]
        .get("prompt")
        .is_none());
}

#[test]
fn session_update_omits_keywords_when_empty() {
    let t = engine(cfg_with_key(Some("k"))).unwrap();
    let payload = t.session_update(false);
    assert!(payload["session"]["audio"]["input"]["transcription"]
        .get("keywords")
        .is_none());
}

#[test]
fn session_update_includes_keywords_when_set() {
    let mut cfg = cfg_with_key(Some("k"));
    cfg.keywords = vec!["Wayland".into(), "Hyprland".into()];
    let t = engine(cfg).unwrap();
    let payload = t.session_update(false);
    let keywords = payload["session"]["audio"]["input"]["transcription"]["keywords"]
        .as_array()
        .unwrap();
    assert_eq!(keywords.len(), 2);
    assert_eq!(keywords[0], "Wayland");
}

#[test]
fn session_update_omits_noise_reduction_when_empty_string() {
    let mut cfg = cfg_with_key(Some("k"));
    cfg.noise_reduction = String::new();
    let t = engine(cfg).unwrap();
    let payload = t.session_update(false);
    assert!(payload["session"]["audio"]["input"]
        .get("noise_reduction")
        .is_none());
}

#[test]
fn session_update_includes_noise_reduction_when_set() {
    let t = engine(cfg_with_key(Some("k"))).unwrap();
    let payload = t.session_update(false);
    assert_eq!(
        payload["session"]["audio"]["input"]["noise_reduction"]["type"],
        "near_field"
    );
}

#[test]
fn session_update_turn_detection_server_vad_when_enabled() {
    let t = engine(cfg_with_key(Some("k"))).unwrap();
    let payload = t.session_update(false);
    let td = &payload["session"]["audio"]["input"]["turn_detection"];
    assert_eq!(td["type"], "server_vad");
    assert_eq!(td["threshold"], 0.5);
    assert_eq!(td["prefix_padding_ms"], 300);
    assert_eq!(td["silence_duration_ms"], 550);
}

#[test]
fn session_update_turn_detection_null_when_disabled() {
    let mut cfg = cfg_with_key(Some("k"));
    cfg.turn_detection = false;
    let t = engine(cfg).unwrap();
    let payload = t.session_update(false);
    assert!(payload["session"]["audio"]["input"]["turn_detection"].is_null());
}

#[test]
fn session_update_batch_forces_turn_detection_null() {
    // The whole recording has to become one committed item, or later
    // utterances would be dropped in silence.
    let t = engine(cfg_with_key(Some("k"))).unwrap();
    assert!(t.config.turn_detection, "precondition: VAD on in config");
    let update = t.session_update(true);
    assert!(update["session"]["audio"]["input"]["turn_detection"].is_null());
    // Streaming keeps the configured server VAD.
    let update = t.session_update(false);
    assert_eq!(
        update["session"]["audio"]["input"]["turn_detection"]["type"],
        "server_vad"
    );
}

#[test]
fn session_update_threshold_is_a_number_or_null() {
    for (text, expected) in [
        ("0.30000001192092896", "0.30000001192092896"),
        ("1", "1"),
        ("null", "null"),
        ("\"0.5\"", "null"),
        ("half", "null"),
    ] {
        let mut cfg = cfg_with_key(Some("k"));
        cfg.vad_threshold = text.into();
        let update = engine(cfg).unwrap().session_update(false);
        let td = &update["session"]["audio"]["input"]["turn_detection"];
        assert_eq!(td["threshold"].to_string(), expected);
    }
}

#[test]
fn only_numbers_stay() {
    assert_eq!(number_or_null(Some(Value::from(0.25))), 0.25);
    assert_eq!(number_or_null(Some(Value::from(3))), 3);
    for other in [Value::Null, Value::from("3"), Value::from(true)] {
        assert!(number_or_null(Some(other)).is_null());
    }
    assert!(number_or_null(None).is_null());
}

#[test]
fn session_update_text_is_compact_json() {
    let mut cfg = cfg_with_key(Some("k"));
    cfg.noise_reduction = String::new();
    cfg.languages = vec!["en".into(), "de".into()];
    assert_eq!(
        engine(cfg).unwrap().session_update_text(true),
        "{\"session\":{\"audio\":{\"input\":{\"format\":{\"rate\":24000,\"type\":\"audio/pcm\"},\
         \"transcription\":{\"delay\":\"low\",\"languages\":[\"en\",\"de\"],\
         \"model\":\"gpt-live-transcribe\"},\"turn_detection\":null}},\
         \"type\":\"transcription\"},\"type\":\"session.update\"}"
    );
}

#[test]
fn ws_url_uses_intent_transcription_not_session_model() {
    let t = engine(cfg_with_key(Some("k"))).unwrap();
    let url = t.ws_url();
    assert_eq!(url, "wss://api.openai.com/v1/realtime?intent=transcription");
    assert!(!url.contains("model="));
}

// === streaming gate ===

#[test]
fn as_streaming_respects_streaming_flag() {
    let t = engine(cfg_with_key(Some("k"))).unwrap();
    assert!(t.as_streaming().is_some());

    let mut cfg = cfg_with_key(Some("k"));
    cfg.streaming = false;
    let t = engine(cfg).unwrap();
    assert!(t.as_streaming().is_none());
}

#[test]
fn no_audio_is_an_error() {
    assert!(check_audio(1).is_ok());
    let err = check_audio(0).unwrap_err();
    assert!(matches!(err, TranscribeError::AudioFormat(_)));
    assert_eq!(err.message(), "Empty audio buffer");
}

// === connect request ===

#[test]
fn connect_request_carries_the_key() {
    let t = engine(cfg_with_key(Some("test-key"))).unwrap();
    let request = t.connect_request().unwrap();
    assert_eq!(
        request.uri().to_string(),
        "wss://api.openai.com/v1/realtime?intent=transcription"
    );
    assert_eq!(request.method().as_str(), "GET");
    let headers = request.headers();
    assert_eq!(headers.len(), 6);
    assert_eq!(headers["authorization"], "Bearer test-key");
    assert_eq!(headers["host"], "api.openai.com");
    assert_eq!(headers["connection"], "Upgrade");
    assert_eq!(headers["upgrade"], "websocket");
    assert_eq!(headers["sec-websocket-version"], "13");
    let key = headers["sec-websocket-key"].to_str().unwrap();
    assert_eq!(key.len(), 24);
    assert_eq!(STANDARD.decode(key).unwrap().len(), 16);
}

#[test]
fn connect_request_fails_on_a_key_that_no_header_carries() {
    let t = engine(cfg_with_key(Some("bad\nkey"))).unwrap();
    let err = t.connect_request().unwrap_err();
    assert!(matches!(err, TranscribeError::InferenceFailed(_)));
    assert_eq!(
        err.message(),
        "OpenAI Realtime: invalid API key header value: failed to parse header value"
    );
    let request = Request::builder().uri("wss://x/").body(()).unwrap();
    assert!(authorize(request, "\u{7f}").is_err());
    for key in ["tab\there", "schlüssel"] {
        let request = Request::builder()
            .uri("wss://x/")
            .header("Authorization", "old")
            .body(())
            .unwrap();
        let request = authorize(request, key).unwrap();
        assert_eq!(request.headers().len(), 1);
        assert_eq!(
            request.headers()["authorization"].as_bytes(),
            format!("Bearer {}", key).as_bytes()
        );
    }
}

#[test]
fn the_default_configuration_is_the_documented_one() {
    let cfg = OpenaiRealtimeConfig::default();
    assert_eq!(cfg.api_key, None);
    assert_eq!(cfg.api_key_file, None);
    assert_eq!(cfg.model, "gpt-live-transcribe");
    assert_eq!(cfg.delay, "low");
    assert_eq!(cfg.prompt, None);
    assert!(cfg.keywords.is_empty());
    assert_eq!(cfg.languages, vec!["en".to_string()]);
    assert_eq!(cfg.noise_reduction, "near_field");
    assert!(!cfg.turn_detection);
    assert_eq!(cfg.vad_threshold, "0.5");
    assert_eq!(cfg.vad_prefix_padding_ms, 300);
    assert_eq!(cfg.vad_silence_duration_ms, 550);
    assert!(cfg.streaming);
    assert!(cfg.type_partials);
}
