//! What the reconciler does to the screen.
//!
//! The text on screen is *settled* but for what the active item has typed.
//! Whatever the service sends, settled text stays where it is, and an item
//! that completes while it is active leaves its transcript behind it.

use crate::event::{typed, EventView};
use crate::reconcile::{revision, ItemState, Reconciler, ReconcilerView};
use crate::text::{common_prefix_len, law_common_prefix};
use vstd::prelude::*;

verus! {

/// What the service says of an item.
pub enum ItemEvent {
    Delta { item: Seq<char>, text: Seq<char> },
    Completed { item: Seq<char>, transcript: Seq<char> },
    Failed { item: Seq<char> },
}

/// A turn that is transcribed from start to end with no other in between.
pub struct Turn {
    pub item: Seq<char>,
    pub deltas: Seq<Seq<char>>,
    pub transcript: Seq<char>,
}

/// The reconciler after `event`.
pub open spec fn after(s: ReconcilerView, event: ItemEvent, type_partials: bool) -> ReconcilerView {
    match event {
        ItemEvent::Delta { item, text } => s.after_delta(item, text, type_partials),
        ItemEvent::Completed { item, transcript } => s.after_completed(item),
        ItemEvent::Failed { item } => s.after_failed(item),
    }
}

/// What the reconciler emits on `event`.
pub open spec fn emitted(s: ReconcilerView, event: ItemEvent, type_partials: bool) -> Option<
    EventView,
> {
    match event {
        ItemEvent::Delta { item, text } => s.delta_event(item, text, type_partials),
        ItemEvent::Completed { item, transcript } => s.completed_event(item, transcript),
        ItemEvent::Failed { item } => s.failed_event(item),
    }
}

/// The reconciler after all of `events`.
pub open spec fn after_all(
    s: ReconcilerView,
    events: Seq<ItemEvent>,
    type_partials: bool,
) -> ReconcilerView
    decreases events.len(),
{
    if events.len() == 0 {
        s
    } else {
        after_all(after(s, events[0], type_partials), events.skip(1), type_partials)
    }
}

/// The screen after all of `events`.
pub open spec fn screen_after(
    s: ReconcilerView,
    screen: Seq<char>,
    events: Seq<ItemEvent>,
    type_partials: bool,
) -> Seq<char>
    decreases events.len(),
{
    if events.len() == 0 {
        screen
    } else {
        screen_after(
            after(s, events[0], type_partials),
            typed(screen, emitted(s, events[0], type_partials)),
            events.skip(1),
            type_partials,
        )
    }
}

/// What the active item has typed.
pub open spec fn tail(s: ReconcilerView) -> Seq<char> {
    match s.active {
        Some(id) => s.items[id].typed,
        None => Seq::empty(),
    }
}

/// The text on screen that no later event touches.
pub open spec fn settled(s: ReconcilerView, screen: Seq<char>) -> Seq<char> {
    screen.take(screen.len() - tail(s).len())
}

/// The screen ends with what the active item has typed, and every item has
/// typed something or none has, as partials are typed or not.
pub open spec fn in_step(s: ReconcilerView, screen: Seq<char>, type_partials: bool) -> bool {
    &&& s.wf()
    &&& tail(s).len() <= screen.len()
    &&& screen.skip(screen.len() - tail(s).len()) == tail(s)
    &&& forall|id: Seq<char>| #[trigger]
        s.items.contains_key(id) ==> (s.items[id].typed.len() > 0 <==> type_partials)
}

/// A session starts in step with whatever is on screen.
pub proof fn law_starts_in_step(screen: Seq<char>, type_partials: bool)
    ensures
        in_step(ReconcilerView::empty(), screen, type_partials),
        settled(ReconcilerView::empty(), screen) == screen,
{
    assert(screen.skip(screen.len() as int) =~= Seq::empty());
    assert(screen.take(screen.len() as int) =~= screen);
}

/// Revising `typed` text to a transcript leaves the transcript in its place.
pub proof fn law_revision(base: Seq<char>, partial: Seq<char>, transcript: Seq<char>, segment: nat)
    ensures
        typed(base + partial, revision(partial, transcript, segment)) == base + transcript,
{
    law_common_prefix(partial, transcript);
    let n = common_prefix_len(partial, transcript) as int;
    let screen = base + partial;
    if n < partial.len() {
        assert(screen.take(screen.len() - (partial.len() - n)) =~= base + partial.take(n));
    } else {
        assert(partial.take(n) =~= partial);
    }
    assert(transcript.take(n) + transcript.skip(n) =~= transcript);
    assert(base + transcript.take(n) + transcript.skip(n) =~= base + transcript);
}

proof fn lemma_split(s: ReconcilerView, screen: Seq<char>, type_partials: bool)
    requires
        in_step(s, screen, type_partials),
    ensures
        screen == settled(s, screen) + tail(s),
{
    assert(screen =~= screen.take(screen.len() - tail(s).len()) + screen.skip(
        screen.len() - tail(s).len(),
    ));
}

/// The transcript of the active item replaces what the item has typed, and
/// nothing else.
pub proof fn law_completion_replaces(
    s: ReconcilerView,
    screen: Seq<char>,
    item: Seq<char>,
    transcript: Seq<char>,
    type_partials: bool,
)
    requires
        in_step(s, screen, type_partials),
        s.active == Some(item),
    ensures
        typed(screen, s.completed_event(item, transcript)) == settled(s, screen) + transcript,
{
    lemma_split(s, screen, type_partials);
    law_revision(settled(s, screen), tail(s), transcript, s.items[item].segment_id);
}

/// A failure of the active item erases what the item has typed, and nothing
/// else.
pub proof fn law_failure_erases(
    s: ReconcilerView,
    screen: Seq<char>,
    item: Seq<char>,
    type_partials: bool,
)
    requires
        in_step(s, screen, type_partials),
        s.active == Some(item),
    ensures
        typed(screen, s.failed_event(item)) == settled(s, screen),
{
    lemma_split(s, screen, type_partials);
    if tail(s).len() == 0 {
        assert(settled(s, screen) =~= screen);
    } else {
        assert(typed(screen, s.failed_event(item)) =~= settled(s, screen));
    }
}

/// A completion of an item that was never seen types its whole transcript.
pub proof fn law_unseen_completion_types(
    s: ReconcilerView,
    screen: Seq<char>,
    item: Seq<char>,
    transcript: Seq<char>,
)
    requires
        !s.items.contains_key(item),
    ensures
        typed(screen, s.completed_event(item, transcript)) == screen + transcript,
        s.after_completed(item).active is None,
{
    law_revision(screen, Seq::empty(), transcript, s.next);
    assert(screen + Seq::<char>::empty() =~= screen);
}

/// A frozen item that has typed something emits nothing any more, and its
/// deltas change nothing.
pub proof fn law_frozen_is_inert(
    s: ReconcilerView,
    item: Seq<char>,
    text: Seq<char>,
    type_partials: bool,
)
    requires
        s.frozen(item),
        s.items[item].typed.len() > 0,
    ensures
        s.delta_event(item, text, type_partials) is None,
        s.after_delta(item, text, type_partials) == s,
        s.completed_event(item, text) is None,
        s.failed_event(item) is None,
{
}

/// A frozen item stays frozen until it ends.
pub proof fn law_frozen_stays_frozen(
    s: ReconcilerView,
    item: Seq<char>,
    event: ItemEvent,
    type_partials: bool,
)
    requires
        s.wf(),
        s.frozen(item),
    ensures
        after(s, event, type_partials).items.contains_key(item) ==> after(
            s,
            event,
            type_partials,
        ).frozen(item),
        after(s, event, type_partials).active != Some(item),
{
}

/// A new item freezes the one that had the tail.
pub proof fn law_new_item_takes_the_tail(
    s: ReconcilerView,
    item: Seq<char>,
    text: Seq<char>,
    type_partials: bool,
)
    requires
        s.wf(),
        !s.items.contains_key(item),
        text.len() > 0,
    ensures
        s.after_delta(item, text, type_partials).active == Some(item),
        forall|other: Seq<char>| #[trigger]
            s.items.contains_key(other) ==> s.after_delta(item, text, type_partials).frozen(other),
{
}

/// An item keeps its segment for as long as it lives, and a new item gets one
/// that no item had before.
pub proof fn law_segments(
    s: ReconcilerView,
    item: Seq<char>,
    event: ItemEvent,
    type_partials: bool,
)
    requires
        s.wf(),
        after(s, event, type_partials).items.contains_key(item),
    ensures
        s.items.contains_key(item) ==> after(s, event, type_partials).items[item].segment_id
            == s.items[item].segment_id,
        !s.items.contains_key(item) ==> after(s, event, type_partials).items[item].segment_id
            == s.next,
        after(s, event, type_partials).next >= s.next,
        after(s, event, type_partials).wf(),
{
}

/// Where partials are not typed, an item types its whole transcript when it
/// completes, and nothing before.
pub proof fn law_without_partials(
    s: ReconcilerView,
    screen: Seq<char>,
    item: Seq<char>,
    text: Seq<char>,
)
    requires
        in_step(s, screen, false),
    ensures
        s.delta_event(item, text, false) is None,
        s.failed_event(item) is None,
        typed(screen, s.completed_event(item, text)) == screen + text,
        text.len() > 0 ==> (s.completed_event(item, text) matches Some(
            EventView::Final { text: whole, .. },
        ) && whole == text),
{
    assert(screen + Seq::<char>::empty() =~= screen);
    assert(text.skip(0) =~= text);
    if s.items.contains_key(item) {
        assert(s.items[item].typed =~= Seq::empty());
        law_revision(screen, Seq::empty(), text, s.items[item].segment_id);
    } else {
        law_revision(screen, Seq::empty(), text, s.next);
    }
}

/// One event keeps the screen in step, and leaves settled text settled.
pub proof fn law_event_keeps_settled_text(
    s: ReconcilerView,
    screen: Seq<char>,
    event: ItemEvent,
    type_partials: bool,
)
    requires
        in_step(s, screen, type_partials),
    ensures
        in_step(
            after(s, event, type_partials),
            typed(screen, emitted(s, event, type_partials)),
            type_partials,
        ),
        settled(s, screen).is_prefix_of(
            settled(
                after(s, event, type_partials),
                typed(screen, emitted(s, event, type_partials)),
            ),
        ),
{
    let s2 = after(s, event, type_partials);
    let screen2 = typed(screen, emitted(s, event, type_partials));
    lemma_split(s, screen, type_partials);
    let base = settled(s, screen);
    match event {
        ItemEvent::Delta { item, text } => {
            if !s.drops_delta(item, text) {
                if type_partials {
                    if s.active == Some(item) {
                        assert(screen2 =~= base + (tail(s) + text));
                    } else {
                        assert(tail(s2) =~= text);
                        assert(screen2 =~= screen + tail(s2));
                    }
                } else {
                    assert(tail(s) =~= Seq::empty());
                    assert(tail(s2) =~= Seq::empty());
                    assert(screen2 =~= screen + tail(s2));
                }
            }
        },
        ItemEvent::Completed { item, transcript } => {
            if s.active == Some(item) {
                law_completion_replaces(s, screen, item, transcript, type_partials);
            } else if !s.items.contains_key(item) {
                law_unseen_completion_types(s, screen, item, transcript);
            } else if !type_partials {
                law_without_partials(s, screen, item, transcript);
                assert(tail(s) =~= Seq::empty());
                assert(tail(s2) =~= Seq::empty());
            } else {
                assert(screen2 == screen);
                assert(tail(s2) == tail(s));
            }
        },
        ItemEvent::Failed { item } => {
            if s.active == Some(item) {
                law_failure_erases(s, screen, item, type_partials);
            } else {
                assert(screen2 == screen);
                assert(tail(s2) == tail(s));
            }
        },
    }
    assert(screen2.skip(screen2.len() - tail(s2).len()) =~= tail(s2));
    assert(base.is_prefix_of(settled(s2, screen2)));
}

/// No events, in whatever order, touch the text that was settled before them.
pub proof fn law_settled_text_stays(
    s: ReconcilerView,
    screen: Seq<char>,
    events: Seq<ItemEvent>,
    type_partials: bool,
)
    requires
        in_step(s, screen, type_partials),
    ensures
        in_step(
            after_all(s, events, type_partials),
            screen_after(s, screen, events, type_partials),
            type_partials,
        ),
        settled(s, screen).is_prefix_of(
            settled(
                after_all(s, events, type_partials),
                screen_after(s, screen, events, type_partials),
            ),
        ),
    decreases events.len(),
{
    if events.len() == 0 {
        assert(settled(s, screen).is_prefix_of(settled(s, screen)));
    } else {
        law_event_keeps_settled_text(s, screen, events[0], type_partials);
        law_settled_text_stays(
            after(s, events[0], type_partials),
            typed(screen, emitted(s, events[0], type_partials)),
            events.skip(1),
            type_partials,
        );
    }
}

/// What a delta's event types, if there is one.
pub open spec fn partial_text(event: Option<EventView>) -> Seq<char> {
    match event {
        Some(EventView::Partial { text, .. }) => text,
        _ => Seq::empty(),
    }
}

/// Two deltas of an item in turn do what one does that holds the text of both:
/// the same state, the same text typed, under the same segment.
pub proof fn law_deltas_concatenate(
    s: ReconcilerView,
    screen: Seq<char>,
    item: Seq<char>,
    first: Seq<char>,
    second: Seq<char>,
    type_partials: bool,
)
    ensures
        s.after_delta(item, first, type_partials).after_delta(item, second, type_partials)
            == s.after_delta(item, first + second, type_partials),
        ({
            let one = s.delta_event(item, first, type_partials);
            let two = s.after_delta(item, first, type_partials).delta_event(
                item,
                second,
                type_partials,
            );
            let both = s.delta_event(item, first + second, type_partials);
            &&& partial_text(one) + partial_text(two) == partial_text(both)
            &&& both is None <==> one is None && two is None
            &&& one matches Some(e) ==> (both matches Some(b) && e->Partial_segment_id
                == b->Partial_segment_id)
            &&& two matches Some(e) ==> (both matches Some(b) && e->Partial_segment_id
                == b->Partial_segment_id)
            &&& typed(typed(screen, one), two) == typed(screen, both)
        }),
{
    let mid = s.after_delta(item, first, type_partials);
    let end = mid.after_delta(item, second, type_partials);
    let whole = s.after_delta(item, first + second, type_partials);
    if first.len() == 0 {
        assert(first + second =~= second);
    } else if second.len() == 0 {
        assert(first + second =~= first);
    } else if !s.frozen(item) {
        let start = s.owning(item);
        assert(mid.active == Some(item));
        assert(mid.owning(item) == mid);
        if type_partials {
            assert(start.items[item].typed + first + second =~= start.items[item].typed + (first
                + second));
            assert(end.items =~= whole.items);
        }
    }
    assert(screen + first + second =~= screen + (first + second));
    assert(end =~= whole);
}

/// What typed the characters of a text: all of them the same.
pub open spec fn typed_by(text: Seq<char>, partial_of: Option<nat>) -> Seq<Option<nat>> {
    Seq::new(text.len(), |i: int| partial_of)
}

/// What typed each character on screen, once `event` has been typed as
/// [`typed`] says: the segment of the partial that it belongs to, if it belongs
/// to one.
pub open spec fn origins(before: Seq<Option<nat>>, event: Option<EventView>) -> Seq<Option<nat>> {
    match event {
        Some(EventView::Partial { text, segment_id }) => before + typed_by(text, Some(segment_id)),
        Some(EventView::Final { text, .. }) => before + typed_by(text, None),
        Some(EventView::Replace { backspace, text, .. }) => before.take(before.len() - backspace)
            + typed_by(text, None),
        _ => before,
    }
}

/// What typed each character on screen, after all of `events`.
pub open spec fn origins_after(
    s: ReconcilerView,
    before: Seq<Option<nat>>,
    events: Seq<ItemEvent>,
    type_partials: bool,
) -> Seq<Option<nat>>
    decreases events.len(),
{
    if events.len() == 0 {
        before
    } else {
        origins_after(
            after(s, events[0], type_partials),
            origins(before, emitted(s, events[0], type_partials)),
            events.skip(1),
            type_partials,
        )
    }
}

/// The tail of the screen is the active item's, character by character.
pub open spec fn owns_tail(s: ReconcilerView, origins: Seq<Option<nat>>) -> bool {
    s.active matches Some(id) ==> forall|i: int|
        origins.len() - tail(s).len() <= i < origins.len() ==> #[trigger] origins[i] == Some(
            s.items[id].segment_id,
        )
}

/// Only the active item erases, and no more than it has typed.
proof fn lemma_replace_is_own(s: ReconcilerView, event: ItemEvent, type_partials: bool)
    ensures
        emitted(s, event, type_partials) matches Some(
            EventView::Replace { backspace, segment_id, .. },
        ) ==> (s.active matches Some(id) && segment_id == s.items[id].segment_id && backspace
            <= tail(s).len()),
{
}

/// One event leaves the tail to the item that owns it.
proof fn lemma_event_keeps_tail(
    s: ReconcilerView,
    screen: Seq<char>,
    before: Seq<Option<nat>>,
    event: ItemEvent,
    type_partials: bool,
)
    requires
        in_step(s, screen, type_partials),
        before.len() == screen.len(),
        owns_tail(s, before),
    ensures
        origins(before, emitted(s, event, type_partials)).len() == typed(
            screen,
            emitted(s, event, type_partials),
        ).len(),
        owns_tail(
            after(s, event, type_partials),
            origins(before, emitted(s, event, type_partials)),
        ),
{
    let s2 = after(s, event, type_partials);
    lemma_replace_is_own(s, event, type_partials);
    match event {
        ItemEvent::Delta { item, text } => {
            if !s.drops_delta(item, text) && !type_partials {
                assert(s.active == Some(item) ==> s.items.contains_key(item));
                assert(tail(s2).len() == 0);
            }
        },
        ItemEvent::Completed { item, transcript } => {
            if s.frozen(item) && !type_partials && s2.active is Some {
                assert(s.items.contains_key(s.active->0));
                assert(tail(s2).len() == 0);
            }
        },
        ItemEvent::Failed { item } => {},
    }
}

/// No event ever erases another item's text: after any events, in whatever
/// order, what an event erases was all typed as partials of the segment that
/// the event belongs to.
pub proof fn law_only_own_text_is_erased(
    s: ReconcilerView,
    screen: Seq<char>,
    before: Seq<Option<nat>>,
    events: Seq<ItemEvent>,
    event: ItemEvent,
    type_partials: bool,
)
    requires
        in_step(s, screen, type_partials),
        before.len() == screen.len(),
        owns_tail(s, before),
    ensures
        ({
            let now = origins_after(s, before, events, type_partials);
            &&& now.len() == screen_after(s, screen, events, type_partials).len()
            &&& emitted(after_all(s, events, type_partials), event, type_partials) matches Some(
                EventView::Replace { backspace, segment_id, .. },
            ) ==> backspace <= now.len() && forall|i: int|
                now.len() - backspace <= i < now.len() ==> #[trigger] now[i] == Some(segment_id)
        }),
    decreases events.len(),
{
    if events.len() == 0 {
        lemma_replace_is_own(s, event, type_partials);
    } else {
        law_event_keeps_settled_text(s, screen, events[0], type_partials);
        lemma_event_keeps_tail(s, screen, before, events[0], type_partials);
        law_only_own_text_is_erased(
            after(s, events[0], type_partials),
            typed(screen, emitted(s, events[0], type_partials)),
            origins(before, emitted(s, events[0], type_partials)),
            events.skip(1),
            event,
            type_partials,
        );
    }
}

/// The same of a session from its start, on a screen without text.
pub proof fn law_session_erases_only_own_text(
    events: Seq<ItemEvent>,
    event: ItemEvent,
    type_partials: bool,
)
    ensures
        ({
            let start = ReconcilerView::empty();
            let screen = screen_after(start, Seq::empty(), events, type_partials);
            let now = origins_after(start, Seq::empty(), events, type_partials);
            &&& now.len() == screen.len()
            &&& emitted(after_all(start, events, type_partials), event, type_partials) matches Some(
                EventView::Replace { backspace, segment_id, .. },
            ) ==> backspace <= now.len() && forall|i: int|
                now.len() - backspace <= i < now.len() ==> #[trigger] now[i] == Some(segment_id)
        }),
{
    law_starts_in_step(Seq::empty(), type_partials);
    law_only_own_text_is_erased(
        ReconcilerView::empty(),
        Seq::empty(),
        Seq::empty(),
        events,
        event,
        type_partials,
    );
}

/// What the service sends for a turn: its deltas, then its transcript.
pub open spec fn turn_events(
    item: Seq<char>,
    deltas: Seq<Seq<char>>,
    transcript: Seq<char>,
) -> Seq<ItemEvent>
    decreases deltas.len(),
{
    if deltas.len() == 0 {
        seq![ItemEvent::Completed { item, transcript }]
    } else {
        seq![ItemEvent::Delta { item, text: deltas[0] }] + turn_events(
            item,
            deltas.skip(1),
            transcript,
        )
    }
}

/// The rest of a turn whose item is active leaves the transcript after the
/// text that was settled.
proof fn lemma_rest_of_turn(
    s: ReconcilerView,
    screen: Seq<char>,
    item: Seq<char>,
    deltas: Seq<Seq<char>>,
    transcript: Seq<char>,
    type_partials: bool,
)
    requires
        in_step(s, screen, type_partials),
        s.active == Some(item),
    ensures
        screen_after(s, screen, turn_events(item, deltas, transcript), type_partials) == settled(
            s,
            screen,
        ) + transcript,
        after_all(s, turn_events(item, deltas, transcript), type_partials).active is None,
        after_all(s, turn_events(item, deltas, transcript), type_partials).items
            == s.items.remove(item),
    decreases deltas.len(),
{
    let events = turn_events(item, deltas, transcript);
    let s2 = after(s, events[0], type_partials);
    let screen2 = typed(screen, emitted(s, events[0], type_partials));
    law_event_keeps_settled_text(s, screen, events[0], type_partials);
    if deltas.len() == 0 {
        law_completion_replaces(s, screen, item, transcript, type_partials);
        assert(events.skip(1) =~= Seq::empty());
        assert(after_all(s2, events.skip(1), type_partials) == s2);
        assert(screen_after(s2, screen2, events.skip(1), type_partials) == screen2);
    } else {
        assert(events.skip(1) =~= turn_events(item, deltas.skip(1), transcript));
        lemma_rest_of_turn(s2, screen2, item, deltas.skip(1), transcript, type_partials);
        lemma_split(s, screen, type_partials);
        lemma_split(s2, screen2, type_partials);
        assert(settled(s2, screen2).len() == settled(s, screen).len());
        assert(settled(s2, screen2) =~= settled(s, screen));
        assert(s2.items.remove(item) =~= s.items.remove(item));
    }
}

/// Whatever its deltas were, a turn of a new item adds its transcript to the
/// screen, and leaves the other items as they were.
pub proof fn law_turn_types_its_transcript(
    s: ReconcilerView,
    screen: Seq<char>,
    item: Seq<char>,
    deltas: Seq<Seq<char>>,
    transcript: Seq<char>,
    type_partials: bool,
)
    requires
        in_step(s, screen, type_partials),
        !s.items.contains_key(item),
    ensures
        screen_after(s, screen, turn_events(item, deltas, transcript), type_partials) == screen
            + transcript,
        after_all(s, turn_events(item, deltas, transcript), type_partials).active is None,
        after_all(s, turn_events(item, deltas, transcript), type_partials).items == s.items,
    decreases deltas.len(),
{
    let events = turn_events(item, deltas, transcript);
    let s2 = after(s, events[0], type_partials);
    let screen2 = typed(screen, emitted(s, events[0], type_partials));
    law_event_keeps_settled_text(s, screen, events[0], type_partials);
    if deltas.len() == 0 {
        law_unseen_completion_types(s, screen, item, transcript);
        assert(events.skip(1) =~= Seq::empty());
        assert(after_all(s2, events.skip(1), type_partials) == s2);
        assert(screen_after(s2, screen2, events.skip(1), type_partials) == screen2);
    } else {
        assert(events.skip(1) =~= turn_events(item, deltas.skip(1), transcript));
        if deltas[0].len() == 0 {
            law_turn_types_its_transcript(
                s,
                screen,
                item,
                deltas.skip(1),
                transcript,
                type_partials,
            );
        } else {
            lemma_rest_of_turn(s2, screen2, item, deltas.skip(1), transcript, type_partials);
            lemma_split(s2, screen2, type_partials);
            assert(settled(s2, screen2) =~= screen);
            assert(s2.items.remove(item) =~= s.items);
        }
    }
}

/// The screen after turns that follow one another.
pub open spec fn screen_after_turns(
    s: ReconcilerView,
    screen: Seq<char>,
    turns: Seq<Turn>,
    type_partials: bool,
) -> Seq<char>
    decreases turns.len(),
{
    if turns.len() == 0 {
        screen
    } else {
        let events = turn_events(turns[0].item, turns[0].deltas, turns[0].transcript);
        screen_after_turns(
            after_all(s, events, type_partials),
            screen_after(s, screen, events, type_partials),
            turns.skip(1),
            type_partials,
        )
    }
}

/// The transcripts of `turns`, one after the other.
pub open spec fn transcripts(turns: Seq<Turn>) -> Seq<char>
    decreases turns.len(),
{
    if turns.len() == 0 {
        Seq::empty()
    } else {
        turns[0].transcript + transcripts(turns.skip(1))
    }
}

/// Turns that follow one another type their transcripts one after the other.
pub proof fn law_sequential_turns(
    s: ReconcilerView,
    screen: Seq<char>,
    turns: Seq<Turn>,
    type_partials: bool,
)
    requires
        in_step(s, screen, type_partials),
        forall|i: int| 0 <= i < turns.len() ==> !s.items.contains_key(#[trigger] turns[i].item),
    ensures
        screen_after_turns(s, screen, turns, type_partials) == screen + transcripts(turns),
    decreases turns.len(),
{
    if turns.len() == 0 {
        assert(screen + transcripts(turns) =~= screen);
    } else {
        let t = turns[0];
        let events = turn_events(t.item, t.deltas, t.transcript);
        law_turn_types_its_transcript(s, screen, t.item, t.deltas, t.transcript, type_partials);
        law_settled_text_stays(s, screen, events, type_partials);
        assert forall|i: int| 0 <= i < turns.skip(1).len() implies !s.items.contains_key(
            #[trigger] turns.skip(1)[i].item,
        ) by {
            assert(turns.skip(1)[i] == turns[i + 1]);
        }
        law_sequential_turns(
            after_all(s, events, type_partials),
            screen_after(s, screen, events, type_partials),
            turns.skip(1),
            type_partials,
        );
        assert(screen + t.transcript + transcripts(turns.skip(1)) =~= screen + transcripts(turns));
    }
}

/// A delta of an item that is new, or still owns the tail, is typed as it
/// stands at the end of the screen, and is part of what the item has typed.
pub proof fn law_delta_is_typed(
    s: ReconcilerView,
    screen: Seq<char>,
    item: Seq<char>,
    text: Seq<char>,
)
    requires
        s.wf(),
        text.len() > 0,
        s.active == Some(item) || !s.items.contains_key(item),
    ensures
        s.delta_event(item, text, true) matches Some(EventView::Partial { text: t, .. }) && t
            == text,
        typed(screen, s.delta_event(item, text, true)) == screen + text,
        s.after_delta(item, text, true).active == Some(item),
        tail(s.after_delta(item, text, true)) == (if s.active == Some(item) {
            tail(s) + text
        } else {
            text
        }),
        forall|other: Seq<char>|
            other != item ==> (s.items.contains_key(other) <==> #[trigger] s.after_delta(
                item,
                text,
                true,
            ).items.contains_key(other)) && (s.items.contains_key(other) ==> s.after_delta(
                item,
                text,
                true,
            ).items[other] == s.items[other]),
{
    assert(Seq::<char>::empty() + text =~= text);
}

/// A delta without text, or of a frozen item, does nothing at all.
pub proof fn law_dropped_delta(
    s: ReconcilerView,
    item: Seq<char>,
    text: Seq<char>,
    type_partials: bool,
)
    requires
        text.len() == 0 || (s.items.contains_key(item) && s.active != Some(item)),
    ensures
        s.delta_event(item, text, type_partials) is None,
        s.after_delta(item, text, type_partials) == s,
{
}

/// Where partials are not typed, a delta of a new item only starts it, and one
/// of the item that owns the tail does nothing.
pub proof fn law_silent_delta(
    s: ReconcilerView,
    item: Seq<char>,
    text: Seq<char>,
    active: Seq<char>,
)
    requires
        text.len() > 0,
        !s.items.contains_key(item),
        s.active != Some(item),
    ensures
        s.active == Some(active) ==> s.after_delta(active, text, false) == s,
        s.delta_event(active, text, false) is None,
        s.delta_event(item, text, false) is None,
        s.after_delta(item, text, false).active == Some(item),
        s.after_delta(item, text, false).items.contains_key(item),
        s.after_delta(item, text, false).items[item].typed.len() == 0,
        s.after_delta(item, text, false).items.remove(item) == s.items,
{
    assert(s.after_delta(item, text, false).items.remove(item) =~= s.items);
}

/// Text is revised with the fewest keystrokes: what agrees from the start is
/// kept, and the first character that is erased differs from the first that is
/// typed. Nothing is erased where the transcript goes on from what was typed,
/// and nothing is done where it is what was typed.
pub proof fn law_revision_is_least(partial: Seq<char>, transcript: Seq<char>, segment: nat)
    ensures
        match revision(partial, transcript, segment) {
            None => partial == transcript,
            Some(EventView::Final { text, segment_id }) => {
                &&& segment_id == segment
                &&& text.len() > 0
                &&& transcript == partial + text
            },
            Some(EventView::Replace { backspace, text, segment_id }) => {
                &&& segment_id == segment
                &&& 0 < backspace <= partial.len()
                &&& transcript == partial.take(partial.len() - backspace) + text
                &&& text.len() > 0 ==> partial[partial.len() - backspace] != text[0]
            },
            _ => false,
        },
{
    law_common_prefix(partial, transcript);
    let n = common_prefix_len(partial, transcript) as int;
    let text = transcript.skip(n);
    assert(transcript =~= transcript.take(n) + text);
    if n == partial.len() {
        assert(partial.take(n) =~= partial);
        if text.len() == 0 {
            assert(transcript.take(n) =~= transcript);
        }
    }
}

/// The completion of an item that owns the tail, or was never seen, is a
/// revision of what the item has typed.
pub proof fn law_completion_is_a_revision(
    s: ReconcilerView,
    item: Seq<char>,
    transcript: Seq<char>,
)
    ensures
        s.items.contains_key(item) && s.active == Some(item) ==> s.completed_event(
            item,
            transcript,
        ) == revision(s.items[item].typed, transcript, s.items[item].segment_id),
        !s.items.contains_key(item) ==> s.completed_event(item, transcript) == revision(
            Seq::empty(),
            transcript,
            s.next,
        ),
{
}

/// An item that has completed or failed is forgotten, and it alone; it owns the
/// tail no more. The completion of an unseen item uses up a segment and takes
/// the tail from whatever item had it; nothing else does.
pub proof fn law_end_forgets_the_item(s: ReconcilerView, item: Seq<char>)
    requires
        s.wf(),
    ensures
        s.after_completed(item).items == s.items.remove(item),
        s.after_failed(item).items == s.items.remove(item),
        s.after_failed(item).next == s.next,
        s.active == Some(item) ==> s.after_failed(item).active is None,
        s.active != Some(item) ==> s.after_failed(item).active == s.active,
        s.items.contains_key(item) ==> s.after_completed(item) == s.after_failed(item),
        !s.items.contains_key(item) ==> s.after_completed(item).next == s.next + 1
            && s.after_completed(item).active is None,
{
    assert(!s.items.contains_key(item) ==> s.items.remove(item) =~= s.items);
}

/// The events of an item carry the item's segment.
pub proof fn law_events_carry_their_segment(
    s: ReconcilerView,
    item: Seq<char>,
    text: Seq<char>,
)
    ensures
        s.delta_event(item, text, true) matches Some(EventView::Partial { segment_id, .. })
            ==> segment_id == s.after_delta(item, text, true).items[item].segment_id,
        s.failed_event(item) matches Some(EventView::Replace { segment_id, .. }) ==> segment_id
            == s.items[item].segment_id,
        ({
            let segment = if s.items.contains_key(item) {
                s.items[item].segment_id
            } else {
                s.next
            };
            match s.completed_event(item, text) {
                Some(EventView::Final { segment_id, .. }) => segment_id == segment,
                Some(EventView::Replace { segment_id, .. }) => segment_id == segment,
                Some(_) => false,
                None => true,
            }
        }),
{
}

/// The failure of an item erases all that it has typed and types nothing, if
/// the item owns the tail; else it does nothing.
pub proof fn law_failure(s: ReconcilerView, item: Seq<char>)
    requires
        s.wf(),
    ensures
        match s.failed_event(item) {
            Some(EventView::Replace { backspace, text, .. }) => s.active == Some(item)
                && backspace == s.items[item].typed.len() && backspace > 0 && text.len() == 0,
            Some(_) => false,
            None => s.active == Some(item) ==> s.items[item].typed.len() == 0,
        },
{
}

/// An item is frozen if it has started, has not ended and owns the tail no
/// more. What is seen of an item and of the reconciler is all that they hold.
pub proof fn law_what_is_seen(r: Reconciler, item: Seq<char>, state: ItemState)
    ensures
        r@.frozen(item) <==> r@.items.contains_key(item) && !(r.active matches Some(id) && id@
            == item),
        r@.items.contains_key(item) <==> r.items@.contains_key(item),
        r.items@.contains_key(item) ==> r@.items[item].typed == r.items@[item].typed_partial@
            && r@.items[item].segment_id == r.items@[item].segment_id,
        r@.next == r.next_segment_id,
        r.active matches Some(id) ==> r@.active == Some(id@),
        r.active is None ==> r@.active is None,
        state@.typed == state.typed_partial@ && state@.segment_id == state.segment_id,
        ReconcilerView::empty().active is None && ReconcilerView::empty().next == 0
            && !ReconcilerView::empty().items.contains_key(item),
{
}

} // verus!
