//! From transcription events, keyed by item, to keystrokes.
//!
//! The order in which items complete is not guaranteed, and the output is a
//! linear keyboard cursor: backspacing revises the tail of what is on screen
//! and nothing else. So one item at most is *active*, the one whose typed text
//! is still that tail, and it alone may revise. Every other item is *frozen*:
//! newer text covers what it typed, its late deltas are dropped, and its late
//! completion or failure leaves the text as typed.

use crate::event::{event_view, EventView, SegmentId, StreamingEvent};
use crate::text::{common_prefix_char_count, common_prefix_len, law_common_prefix, same};
use vstd::hash_map::StringHashMap;
use vstd::prelude::*;
use vstd::string::*;

verus! {

/// What is known of one item.
#[derive(Debug)]
pub struct ItemState {
    /// The segment that the item's events carry.
    pub segment_id: SegmentId,
    /// What was typed for the item so far, as a tentative tail.
    pub typed_partial: String,
}

/// An [`ItemState`] with its text as a sequence.
pub struct ItemView {
    pub segment_id: nat,
    pub typed: Seq<char>,
}

impl View for ItemState {
    type V = ItemView;

    open spec fn view(&self) -> ItemView {
        ItemView { segment_id: self.segment_id as nat, typed: self.typed_partial@ }
    }
}

/// Turns transcription events into streaming events, item by item.
pub struct Reconciler {
    /// The items that have started and not ended.
    pub items: StringHashMap<ItemState>,
    /// The item that owns the tail of the screen, if any.
    pub active: Option<String>,
    /// The segment of the next item.
    pub next_segment_id: SegmentId,
}

/// A [`Reconciler`] over sequences and maps.
#[verifier::ext_equal]
pub struct ReconcilerView {
    pub items: Map<Seq<char>, ItemView>,
    pub active: Option<Seq<char>>,
    pub next: nat,
}

impl View for Reconciler {
    type V = ReconcilerView;

    open spec fn view(&self) -> ReconcilerView {
        ReconcilerView {
            items: self.items@.map_values(|s: ItemState| s@),
            active: match self.active {
                Some(id) => Some(id@),
                None => None,
            },
            next: self.next_segment_id as nat,
        }
    }
}

/// How text already typed becomes `transcript`: type what is missing, after
/// erasing what disagrees.
pub open spec fn revision(
    typed: Seq<char>,
    transcript: Seq<char>,
    segment_id: nat,
) -> Option<EventView> {
    let shared = common_prefix_len(typed, transcript);
    let text = transcript.skip(shared as int);
    if shared < typed.len() {
        Some(EventView::Replace { backspace: (typed.len() - shared) as nat, text, segment_id })
    } else if text.len() > 0 {
        Some(EventView::Final { text, segment_id })
    } else {
        None
    }
}

impl ReconcilerView {
    /// No item seen yet.
    pub open spec fn empty() -> ReconcilerView {
        ReconcilerView { items: Map::empty(), active: None, next: 0 }
    }

    /// The active item is one of the items; the items' segments are their own,
    /// and were handed out before.
    pub open spec fn wf(self) -> bool {
        &&& self.active matches Some(id) ==> self.items.contains_key(id)
        &&& forall|id: Seq<char>| #[trigger]
            self.items.contains_key(id) ==> self.items[id].segment_id < self.next
        &&& forall|a: Seq<char>, b: Seq<char>|
            self.items.contains_key(a) && self.items.contains_key(b) && a != b ==> (
            #[trigger] self.items[a]).segment_id != (#[trigger] self.items[b]).segment_id
    }

    /// Started, not ended, and no longer the owner of the tail.
    pub open spec fn frozen(self, id: Seq<char>) -> bool {
        self.items.contains_key(id) && self.active != Some(id)
    }

    /// A new item takes the tail; the one that had it is frozen from here on.
    pub open spec fn opened(self, id: Seq<char>) -> ReconcilerView {
        ReconcilerView {
            items: self.items.insert(
                id,
                ItemView { segment_id: self.next, typed: Seq::empty() },
            ),
            active: Some(id),
            next: self.next + 1,
        }
    }

    /// The state in which a delta that is not dropped is typed.
    pub open spec fn owning(self, id: Seq<char>) -> ReconcilerView {
        if self.active == Some(id) {
            self
        } else {
            self.opened(id)
        }
    }

    /// A delta is dropped if there is nothing in it or its item is frozen.
    pub open spec fn drops_delta(self, id: Seq<char>, delta: Seq<char>) -> bool {
        delta.len() == 0 || self.frozen(id)
    }

    pub open spec fn after_delta(
        self,
        id: Seq<char>,
        delta: Seq<char>,
        type_partials: bool,
    ) -> ReconcilerView {
        if self.drops_delta(id, delta) {
            self
        } else if type_partials {
            let s = self.owning(id);
            ReconcilerView {
                items: s.items.insert(
                    id,
                    ItemView {
                        segment_id: s.items[id].segment_id,
                        typed: s.items[id].typed + delta,
                    },
                ),
                ..s
            }
        } else {
            self.owning(id)
        }
    }

    /// The delta is a fragment, forwarded as it stands.
    pub open spec fn delta_event(
        self,
        id: Seq<char>,
        delta: Seq<char>,
        type_partials: bool,
    ) -> Option<EventView> {
        if self.drops_delta(id, delta) || !type_partials {
            None
        } else {
            Some(
                EventView::Partial {
                    text: delta,
                    segment_id: self.owning(id).items[id].segment_id,
                },
            )
        }
    }

    /// The item is gone. If it was never seen, its text lands at the cursor,
    /// and the item that had the tail is frozen.
    pub open spec fn after_completed(self, id: Seq<char>) -> ReconcilerView {
        if self.items.contains_key(id) {
            self.after_failed(id)
        } else {
            ReconcilerView { active: None, next: self.next + 1, ..self }
        }
    }

    /// The transcript replaces what the item has typed, unless newer text
    /// covers that.
    pub open spec fn completed_event(self, id: Seq<char>, transcript: Seq<char>) -> Option<
        EventView,
    > {
        if !self.items.contains_key(id) {
            revision(Seq::empty(), transcript, self.next)
        } else if self.active != Some(id) && self.items[id].typed.len() > 0 {
            None
        } else {
            revision(self.items[id].typed, transcript, self.items[id].segment_id)
        }
    }

    pub open spec fn after_failed(self, id: Seq<char>) -> ReconcilerView {
        ReconcilerView {
            items: self.items.remove(id),
            active: if self.active == Some(id) {
                None
            } else {
                self.active
            },
            ..self
        }
    }

    /// What the item has typed is erased, if it is still the tail.
    pub open spec fn failed_event(self, id: Seq<char>) -> Option<EventView> {
        if self.items.contains_key(id) && self.active == Some(id) && self.items[id].typed.len()
            > 0 {
            Some(
                EventView::Replace {
                    backspace: self.items[id].typed.len(),
                    text: Seq::empty(),
                    segment_id: self.items[id].segment_id,
                },
            )
        } else {
            None
        }
    }
}

impl Default for Reconciler {
    fn default() -> (res: Self)
        ensures
            res@ == ReconcilerView::empty(),
            res@.wf(),
    {
        let res = Reconciler { items: StringHashMap::new(), active: None, next_segment_id: 0 };
        assert(res@.items =~= Map::empty());
        res
    }
}

impl Reconciler {
    /// Whether `item_id` owns the tail of the screen.
    fn owns_tail(&self, item_id: &str) -> (res: bool)
        ensures
            res == (self@.active == Some(item_id@)),
    {
        match &self.active {
            Some(id) => same(id.as_str(), item_id),
            None => false,
        }
    }

    /// What a frozen item has typed; nothing for an item that is not frozen.
    pub fn frozen_text(&self, item_id: &str) -> (res: Option<&str>)
        ensures
            match res {
                Some(t) => self@.frozen(item_id@) && t@ == self@.items[item_id@].typed,
                None => !self@.frozen(item_id@),
            },
    {
        if self.owns_tail(item_id) {
            return None;
        }
        match self.items.get(item_id) {
            Some(state) => Some(state.typed_partial.as_str()),
            None => None,
        }
    }

    /// Hands out the next segment.
    pub fn alloc_segment_id(&mut self) -> (res: SegmentId)
        requires
            old(self).next_segment_id < u64::MAX,
        ensures
            res == old(self).next_segment_id,
            final(self)@ == (ReconcilerView { next: old(self)@.next + 1, ..old(self)@ }),
            final(self).items@ == old(self).items@,
            final(self).active == old(self).active,
    {
        let id: SegmentId = self.next_segment_id;
        self.next_segment_id = self.next_segment_id + 1;
        id
    }

    /// A fragment of text has arrived for an item.
    ///
    /// It is typed as it stands, or only noted where partials are not to be
    /// typed. A fragment for a frozen item is dropped: typed at the cursor it
    /// would land within the text of a newer item.
    pub fn process_delta(&mut self, item_id: &str, delta: &str, type_partials: bool) -> (res:
        Option<StreamingEvent>)
        requires
            old(self)@.wf(),
            old(self).next_segment_id < u64::MAX || delta@.len() == 0
                || old(self)@.items.contains_key(item_id@),
        ensures
            final(self)@ == old(self)@.after_delta(item_id@, delta@, type_partials),
            event_view(res) == old(self)@.delta_event(item_id@, delta@, type_partials),
            final(self)@.wf(),
    {
        if delta.is_empty() {
            return None;
        }
        let ghost before = self@;
        if !self.owns_tail(item_id) {
            if self.items.contains_key(item_id) {
                return None;
            }
            let id: SegmentId = self.alloc_segment_id();
            self.items.insert(
                item_id.to_owned(),
                ItemState { segment_id: id, typed_partial: String::new() },
            );
            self.active = Some(item_id.to_owned());
            assert(self@.items =~= before.opened(item_id@).items);
        }
        assert(self@ =~= before.owning(item_id@));
        assert(self@.items.contains_key(item_id@));
        if !type_partials {
            return None;
        }
        let state = self.items.get(item_id).unwrap();
        let segment_id: SegmentId = state.segment_id;
        let mut typed_partial = state.typed_partial.clone();
        typed_partial.append(delta);
        self.items.insert(item_id.to_owned(), ItemState { segment_id, typed_partial });
        assert(self@ =~= before.after_delta(item_id@, delta@, type_partials));
        Some(StreamingEvent::Partial { text: delta.to_owned(), segment_id })
    }

    /// The transcript of an item is settled.
    ///
    /// It replaces whatever was typed for the item: what disagrees is erased,
    /// what is missing is typed. A frozen item that has typed something keeps
    /// its text as typed, since erasing it would erase newer text. Where the
    /// item was never seen, its whole transcript is typed.
    pub fn process_completed(&mut self, item_id: &str, transcript: &str) -> (res: Option<
        StreamingEvent,
    >)
        requires
            old(self)@.wf(),
            old(self).next_segment_id < u64::MAX || old(self)@.items.contains_key(item_id@),
        ensures
            final(self)@ == old(self)@.after_completed(item_id@),
            event_view(res) == old(self)@.completed_event(item_id@, transcript@),
            final(self)@.wf(),
    {
        let ghost before = self@;
        let was_active = self.owns_tail(item_id);
        let known = self.items.contains_key(item_id);
        let segment_id: SegmentId;
        let typed_partial: String;
        if known {
            let state = self.items.get(item_id).unwrap();
            segment_id = state.segment_id;
            typed_partial = state.typed_partial.clone();
            self.items.remove(item_id);
            if was_active {
                self.active = None;
            }
            assert(self@ =~= before.after_failed(item_id@));
        } else {
            self.active = None;
            segment_id = self.alloc_segment_id();
            typed_partial = String::new();
            assert(self@ =~= before.after_completed(item_id@));
        }
        if known && !was_active && !typed_partial.as_str().is_empty() {
            return None;
        }
        let shared: usize = common_prefix_char_count(typed_partial.as_str(), transcript);
        let typed_len: usize = typed_partial.as_str().unicode_len();
        let total: usize = transcript.unicode_len();
        proof {
            law_common_prefix(typed_partial@, transcript@);
        }
        let text = transcript.substring_char(shared, total).to_owned();
        assert(text@ =~= transcript@.skip(shared as int));
        assert(typed_partial@.len() == 0 ==> typed_partial@ =~= Seq::empty());
        if shared < typed_len {
            Some(StreamingEvent::Replace { backspace: typed_len - shared, text, segment_id })
        } else if shared < total {
            Some(StreamingEvent::Final { text, segment_id })
        } else {
            None
        }
    }

    /// The transcription of an item has failed.
    ///
    /// What was typed for it is erased if it is still the tail, and stays as
    /// typed if newer text covers it.
    pub fn process_failed(&mut self, item_id: &str) -> (res: Option<StreamingEvent>)
        requires
            old(self)@.wf(),
        ensures
            final(self)@ == old(self)@.after_failed(item_id@),
            event_view(res) == old(self)@.failed_event(item_id@),
            final(self)@.wf(),
    {
        let ghost before = self@;
        let was_active = self.owns_tail(item_id);
        if was_active {
            self.active = None;
        }
        if !self.items.contains_key(item_id) {
            assert(self@ =~= before.after_failed(item_id@));
            return None;
        }
        let state = self.items.get(item_id).unwrap();
        let segment_id: SegmentId = state.segment_id;
        let backspace: usize = state.typed_partial.as_str().unicode_len();
        self.items.remove(item_id);
        assert(self@ =~= before.after_failed(item_id@));
        if was_active && backspace > 0 {
            Some(StreamingEvent::Replace { backspace, text: String::new(), segment_id })
        } else {
            None
        }
    }
}

} // verus!
