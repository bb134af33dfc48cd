//! What a streaming session tells its consumer.

use vstd::prelude::*;

verus! {

/// Names the stretch of dictation that an event belongs to.
pub type SegmentId = u64;

/// What can go wrong with a transcription.
#[derive(Debug)]
pub enum TranscribeError {
    /// The configuration cannot be used.
    ConfigError(String),
    /// The service, or the way to it, failed.
    InferenceFailed(String),
    /// The audio cannot be transcribed.
    AudioFormat(String),
}

/// A [`TranscribeError`] with its text as a sequence.
pub enum ErrorView {
    ConfigError(Seq<char>),
    InferenceFailed(Seq<char>),
    AudioFormat(Seq<char>),
}

impl View for TranscribeError {
    type V = ErrorView;

    open spec fn view(&self) -> ErrorView {
        match *self {
            TranscribeError::ConfigError(m) => ErrorView::ConfigError(m@),
            TranscribeError::InferenceFailed(m) => ErrorView::InferenceFailed(m@),
            TranscribeError::AudioFormat(m) => ErrorView::AudioFormat(m@),
        }
    }
}

impl ErrorView {
    /// The text of the error.
    pub open spec fn text(self) -> Seq<char> {
        match self {
            ErrorView::ConfigError(m) => m,
            ErrorView::InferenceFailed(m) => m,
            ErrorView::AudioFormat(m) => m,
        }
    }
}

impl TranscribeError {
    /// The text of the error.
    pub fn message(&self) -> (res: String)
        ensures
            res@ == self@.text(),
    {
        match self {
            TranscribeError::ConfigError(m) => m.clone(),
            TranscribeError::InferenceFailed(m) => m.clone(),
            TranscribeError::AudioFormat(m) => m.clone(),
        }
    }
}

/// An event of a streaming session.
#[derive(Debug)]
pub enum StreamingEvent {
    /// Tentative text, typed at the cursor.
    Partial { text: String, segment_id: SegmentId },
    /// Settled text, typed at the cursor.
    Final { text: String, segment_id: SegmentId },
    /// Erase `backspace` characters before the cursor, then type `text`.
    Replace { backspace: usize, text: String, segment_id: SegmentId },
    /// The session failed.
    Error(TranscribeError),
    /// The session is over.
    Ended,
}

/// A [`StreamingEvent`] with its text as a sequence.
pub enum EventView {
    Partial { text: Seq<char>, segment_id: nat },
    Final { text: Seq<char>, segment_id: nat },
    Replace { backspace: nat, text: Seq<char>, segment_id: nat },
    Error(ErrorView),
    Ended,
}

impl View for StreamingEvent {
    type V = EventView;

    open spec fn view(&self) -> EventView {
        match *self {
            StreamingEvent::Partial { text, segment_id } => EventView::Partial {
                text: text@,
                segment_id: segment_id as nat,
            },
            StreamingEvent::Final { text, segment_id } => EventView::Final {
                text: text@,
                segment_id: segment_id as nat,
            },
            StreamingEvent::Replace { backspace, text, segment_id } => EventView::Replace {
                backspace: backspace as nat,
                text: text@,
                segment_id: segment_id as nat,
            },
            StreamingEvent::Error(e) => EventView::Error(e@),
            StreamingEvent::Ended => EventView::Ended,
        }
    }
}

/// The event that an optional event stands for, if any.
pub open spec fn event_view(event: Option<StreamingEvent>) -> Option<EventView> {
    match event {
        Some(e) => Some(e@),
        None => None,
    }
}

/// The text on screen before the cursor once `event` has been typed.
pub open spec fn typed(screen: Seq<char>, event: Option<EventView>) -> Seq<char> {
    match event {
        Some(EventView::Partial { text, .. }) => screen + text,
        Some(EventView::Final { text, .. }) => screen + text,
        Some(EventView::Replace { backspace, text, .. }) => screen.take(
            screen.len() - backspace,
        ) + text,
        _ => screen,
    }
}

/// An error is seen as what it is, and its text is the text that it was made
/// with.
pub proof fn law_error_keeps_its_text(text: String)
    ensures
        TranscribeError::ConfigError(text)@ == ErrorView::ConfigError(text@),
        TranscribeError::InferenceFailed(text)@ == ErrorView::InferenceFailed(text@),
        TranscribeError::AudioFormat(text)@ == ErrorView::AudioFormat(text@),
        TranscribeError::ConfigError(text)@.text() == text@,
        TranscribeError::InferenceFailed(text)@.text() == text@,
        TranscribeError::AudioFormat(text)@.text() == text@,
{
}

/// An event is seen as what it is, with all that it holds.
pub proof fn law_event_keeps_its_parts(
    text: String,
    segment_id: SegmentId,
    backspace: usize,
    error: TranscribeError,
)
    ensures
        (StreamingEvent::Partial { text, segment_id })@ == (EventView::Partial {
            text: text@,
            segment_id: segment_id as nat,
        }),
        (StreamingEvent::Final { text, segment_id })@ == (EventView::Final {
            text: text@,
            segment_id: segment_id as nat,
        }),
        (StreamingEvent::Replace { backspace, text, segment_id })@ == (EventView::Replace {
            backspace: backspace as nat,
            text: text@,
            segment_id: segment_id as nat,
        }),
        StreamingEvent::Error(error)@ == EventView::Error(error@),
        StreamingEvent::Ended@ == EventView::Ended,
        event_view(None) is None,
        event_view(Some(StreamingEvent::Ended)) == Some(EventView::Ended),
{
}

/// What typing does to the screen: text is added at its end, after as many
/// characters as are to be erased were taken from there; errors and the end of
/// the session leave it alone.
pub proof fn law_typing(
    screen: Seq<char>,
    text: Seq<char>,
    backspace: nat,
    segment_id: nat,
    error: ErrorView,
)
    requires
        backspace <= screen.len(),
    ensures
        typed(screen, Some(EventView::Partial { text, segment_id })) == screen + text,
        typed(screen, Some(EventView::Final { text, segment_id })) == screen + text,
        typed(screen, Some(EventView::Replace { backspace, text, segment_id })).len()
            == screen.len() - backspace + text.len(),
        forall|i: int|
            0 <= i < screen.len() - backspace ==> #[trigger] typed(
                screen,
                Some(EventView::Replace { backspace, text, segment_id }),
            )[i] == screen[i],
        text.is_suffix_of(typed(screen, Some(EventView::Replace { backspace, text, segment_id }))),
        typed(screen, Some(EventView::Error(error))) == screen,
        typed(screen, Some(EventView::Ended)) == screen,
        typed(screen, None) == screen,
{
    let now = typed(screen, Some(EventView::Replace { backspace, text, segment_id }));
    assert(text =~= now.skip(now.len() - text.len()));
}

} // verus!
