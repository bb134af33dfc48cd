//! Streaming transcription over a realtime WebSocket service: the decisions
//! of the client, from configuration to keystrokes.
pub mod config;
pub mod connect;
pub mod cursor;
pub mod event;
pub mod history;
pub mod json;
pub mod osd;
pub mod pcm;
pub mod reconcile;
pub mod resample;
pub mod session;
pub mod stream;
pub mod text;
pub mod transcriber;
pub mod wire;
