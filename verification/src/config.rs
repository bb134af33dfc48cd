//! Configuration of the realtime transcription engine.

use vstd::prelude::*;

verus! {

/// How to reach the service, and how it should transcribe.
///
/// The key comes from `api_key`, else from the file `api_key_file`, else from
/// the environment.
#[derive(Debug, Clone)]
pub struct OpenaiRealtimeConfig {
    /// The API key itself.
    pub api_key: Option<String>,
    /// The path, as displayed, of a file that holds the API key.
    pub api_key_file: Option<String>,
    /// The transcription model.
    pub model: String,
    /// The tradeoff of latency against quality, from "minimal" to "xhigh".
    pub delay: String,
    /// A free-form prompt; left out of the session where blank.
    pub prompt: Option<String>,
    /// Spellings to prime the model with; without `<`, `>` and line breaks.
    pub keywords: Vec<String>,
    /// The languages spoken, as ISO 639-1 codes.
    pub languages: Vec<String>,
    /// "near_field", "far_field", or blank for no noise reduction.
    pub noise_reduction: String,
    /// Whether the server finds the ends of turns itself.
    pub turn_detection: bool,
    /// The probability from which the server takes sound for speech, as the
    /// text of a JSON number.
    pub vad_threshold: String,
    /// How much audio before the start of speech belongs to a turn.
    pub vad_prefix_padding_ms: u32,
    /// How much silence ends a turn.
    pub vad_silence_duration_ms: u32,
    /// Whether audio is sent while recording, not when the recording is over.
    pub streaming: bool,
    /// Whether deltas are typed as they arrive.
    pub type_partials: bool,
}

pub fn default_openai_realtime_model() -> (res: String)
    ensures
        res@ == "gpt-live-transcribe"@,
{
    "gpt-live-transcribe".to_owned()
}

pub fn default_openai_realtime_delay() -> (res: String)
    ensures
        res@ == "low"@,
{
    "low".to_owned()
}

pub fn default_openai_realtime_languages() -> (res: Vec<String>)
    ensures
        res@.len() == 1,
        res@[0]@ == "en"@,
{
    let mut languages: Vec<String> = Vec::new();
    languages.push("en".to_owned());
    languages
}

pub fn default_openai_realtime_noise_reduction() -> (res: String)
    ensures
        res@ == "near_field"@,
{
    "near_field".to_owned()
}

pub fn default_openai_realtime_vad_threshold() -> (res: String)
    ensures
        res@ == "0.5"@,
{
    "0.5".to_owned()
}

pub fn default_openai_realtime_vad_prefix_padding_ms() -> (res: u32)
    ensures
        res == 300,
{
    300
}

pub fn default_openai_realtime_vad_silence_duration_ms() -> (res: u32)
    ensures
        res == 550,
{
    550
}

impl Default for OpenaiRealtimeConfig {
    /// Streaming with typed partials, and turns that the client ends: the
    /// default model accepts no turn detection.
    fn default() -> (res: Self)
        ensures
            res.api_key is None,
            res.api_key_file is None,
            res.model@ == "gpt-live-transcribe"@,
            res.delay@ == "low"@,
            res.prompt is None,
            res.keywords@.len() == 0,
            res.languages@.len() == 1,
            res.languages@[0]@ == "en"@,
            res.noise_reduction@ == "near_field"@,
            !res.turn_detection,
            res.vad_threshold@ == "0.5"@,
            res.vad_prefix_padding_ms == 300,
            res.vad_silence_duration_ms == 550,
            res.streaming,
            res.type_partials,
    {
        OpenaiRealtimeConfig {
            api_key: None,
            api_key_file: None,
            model: default_openai_realtime_model(),
            delay: default_openai_realtime_delay(),
            prompt: None,
            keywords: Vec::new(),
            languages: default_openai_realtime_languages(),
            noise_reduction: default_openai_realtime_noise_reduction(),
            turn_detection: false,
            vad_threshold: default_openai_realtime_vad_threshold(),
            vad_prefix_padding_ms: default_openai_realtime_vad_prefix_padding_ms(),
            vad_silence_duration_ms: default_openai_realtime_vad_silence_duration_ms(),
            streaming: true,
            type_partials: true,
        }
    }
}

} // verus!
