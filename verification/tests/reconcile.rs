use voxtype_realtime::event::StreamingEvent;
use voxtype_realtime::reconcile::Reconciler;
use voxtype_realtime::text::common_prefix_char_count;

#[test]
fn delta_emits_partial_with_stable_segment_id() {
    let mut r = Reconciler::default();
    let ev = r.process_delta("item_1", "hel", true).unwrap();
    match ev {
        StreamingEvent::Partial { text, segment_id } => {
            assert_eq!(text, "hel");
            assert_eq!(segment_id, 0);
        }
        _ => panic!("expected Partial"),
    }
    let ev2 = r.process_delta("item_1", "lo", true).unwrap();
    match ev2 {
        StreamingEvent::Partial { text, segment_id } => {
            assert_eq!(text, "lo");
            assert_eq!(segment_id, 0, "same item_id must keep the same segment_id");
        }
        _ => panic!("expected Partial"),
    }
}

#[test]
fn distinct_items_get_distinct_segment_ids() {
    let mut r = Reconciler::default();
    let ev1 = r.process_delta("item_1", "a", true).unwrap();
    let ev2 = r.process_delta("item_2", "b", true).unwrap();
    let id1 = match ev1 {
        StreamingEvent::Partial { segment_id, .. } => segment_id,
        _ => panic!(),
    };
    let id2 = match ev2 {
        StreamingEvent::Partial { segment_id, .. } => segment_id,
        _ => panic!(),
    };
    assert_ne!(id1, id2);
}

#[test]
fn completed_after_deltas_matching_prefix_emits_final_tail() {
    let mut r = Reconciler::default();
    r.process_delta("item_1", "hello", true);
    let ev = r.process_completed("item_1", "hello world").unwrap();
    match ev {
        StreamingEvent::Final { text, .. } => assert_eq!(text, " world"),
        _ => panic!("expected Final"),
    }
}

#[test]
fn completed_equal_to_typed_partial_emits_nothing() {
    let mut r = Reconciler::default();
    r.process_delta("item_1", "hello", true);
    let ev = r.process_completed("item_1", "hello");
    assert!(ev.is_none());
}

#[test]
fn completed_diverging_from_typed_partial_emits_replace() {
    let mut r = Reconciler::default();
    r.process_delta("item_1", "hello", true);
    let ev = r.process_completed("item_1", "goodbye").unwrap();
    match ev {
        StreamingEvent::Replace {
            backspace, text, ..
        } => {
            assert_eq!(backspace, 5);
            assert_eq!(text, "goodbye");
        }
        _ => panic!("expected Replace"),
    }
}

#[test]
fn completed_without_prior_deltas_emits_full_final() {
    let mut r = Reconciler::default();
    let ev = r.process_completed("item_1", "hello").unwrap();
    match ev {
        StreamingEvent::Final { text, .. } => assert_eq!(text, "hello"),
        _ => panic!("expected Final"),
    }
}

#[test]
fn completed_removes_item_state() {
    let mut r = Reconciler::default();
    r.process_delta("item_1", "hi", true);
    r.process_completed("item_1", "hi");
    assert!(!r.items.contains_key("item_1"));
}

#[test]
fn out_of_order_completion_keeps_frozen_items_as_typed() {
    // Once item_2 has typed after item_1, the text of item_1 is buried: its
    // late completion must not emit anything.
    let mut r = Reconciler::default();
    r.process_delta("item_1", "first", true);
    r.process_delta("item_2", "second", true); // item_1 now frozen
    let ev2 = r.process_completed("item_2", "second");
    assert!(ev2.is_none(), "exact match emits nothing");
    assert!(r.items.contains_key("item_1"));
    assert!(!r.items.contains_key("item_2"));
    // item_1 completes late with extra text: kept as typed.
    assert!(r.process_completed("item_1", "first thing").is_none());
    assert!(!r.items.contains_key("item_1"));
}

#[test]
fn late_delta_for_frozen_item_is_dropped() {
    let mut r = Reconciler::default();
    r.process_delta("item_1", "first", true);
    r.process_delta("item_2", "second", true); // item_1 frozen
    assert!(
        r.process_delta("item_1", " more", true).is_none(),
        "buried item must not type at the cursor"
    );
    // item_2 (active) still streams normally.
    assert!(r.process_delta("item_2", " part", true).is_some());
}

#[test]
fn frozen_item_failed_leaves_typed_text_in_place() {
    let mut r = Reconciler::default();
    r.process_delta("item_1", "first", true);
    r.process_delta("item_2", "second", true); // item_1 frozen
    assert!(
        r.process_failed("item_1").is_none(),
        "backspacing would erase item_2's text, not item_1's"
    );
}

#[test]
fn unseen_completion_freezes_in_flight_item() {
    let mut r = Reconciler::default();
    r.process_delta("item_1", "typing", true);
    // A completion for an item without deltas types at the cursor, burying
    // what item_1 has typed.
    let ev = r.process_completed("item_x", "interjection").unwrap();
    assert!(matches!(ev, StreamingEvent::Final { .. }));
    // The later completion of item_1 must now keep the text as typed.
    assert!(r.process_completed("item_1", "typing plus").is_none());
}

#[test]
fn sequential_turns_revise_normally_after_completion() {
    let mut r = Reconciler::default();
    r.process_delta("item_1", "hello", true);
    let ev = r.process_completed("item_1", "Hello.").unwrap();
    assert!(matches!(ev, StreamingEvent::Replace { backspace: 5, .. }));
    r.process_delta("item_2", "world", true);
    let ev = r.process_completed("item_2", "world!").unwrap();
    match ev {
        StreamingEvent::Final { text, .. } => assert_eq!(text, "!"),
        _ => panic!("expected Final"),
    }
}

#[test]
fn failed_with_typed_partial_emits_backspace_replace() {
    let mut r = Reconciler::default();
    r.process_delta("item_1", "hel", true);
    r.process_delta("item_1", "lo", true);
    let ev = r.process_failed("item_1").unwrap();
    match ev {
        StreamingEvent::Replace {
            backspace, text, ..
        } => {
            assert_eq!(backspace, 5);
            assert_eq!(text, "");
        }
        _ => panic!("expected Replace"),
    }
    assert!(!r.items.contains_key("item_1"));
}

#[test]
fn failed_without_typed_partial_emits_nothing() {
    let mut r = Reconciler::default();
    // The item is tracked but nothing was typed for it.
    r.process_delta("item_1", "hel", false);
    assert!(r.process_failed("item_1").is_none());
}

#[test]
fn failed_for_unknown_item_emits_nothing() {
    let mut r = Reconciler::default();
    assert!(r.process_failed("never_seen").is_none());
}

#[test]
fn type_partials_false_suppresses_partial_but_completed_still_finalizes() {
    let mut r = Reconciler::default();
    let ev = r.process_delta("item_1", "hello", false);
    assert!(ev.is_none(), "type_partials=false must not emit Partial");
    let ev = r.process_completed("item_1", "hello world").unwrap();
    match ev {
        StreamingEvent::Final { text, .. } => assert_eq!(text, "hello world"),
        _ => panic!("expected Final"),
    }
}

#[test]
fn common_prefix_counts_unicode_scalars_not_bytes() {
    assert_eq!(common_prefix_char_count("áb", "ác"), 1);
    assert_eq!(common_prefix_char_count("hello", "hellp"), 4);
}

/// The screen after an event was typed.
fn typed(screen: &str, event: Option<StreamingEvent>) -> String {
    let mut chars: Vec<char> = screen.chars().collect();
    match event {
        Some(StreamingEvent::Partial { text, .. }) | Some(StreamingEvent::Final { text, .. }) => {
            chars.extend(text.chars());
        }
        Some(StreamingEvent::Replace {
            backspace, text, ..
        }) => {
            chars.truncate(chars.len() - backspace);
            chars.extend(text.chars());
        }
        _ => {}
    }
    chars.into_iter().collect()
}

#[test]
fn a_turn_leaves_its_transcript_whatever_its_deltas() {
    for type_partials in [true, false] {
        let mut r = Reconciler::default();
        let mut screen = String::from("before ");
        for delta in ["h", "", "allo ", "wörld"] {
            let ev = r.process_delta("item_1", delta, type_partials);
            screen = typed(&screen, ev);
        }
        let ev = r.process_completed("item_1", "hallö, world");
        screen = typed(&screen, ev);
        assert_eq!(screen, "before hallö, world");
        let ev = r.process_completed("item_2", " again");
        screen = typed(&screen, ev);
        assert_eq!(screen, "before hallö, world again");
    }
}

#[test]
fn settled_text_stays_whatever_arrives() {
    let mut r = Reconciler::default();
    let mut screen = String::from("kept ");
    let steps: Vec<(u8, &str, &str)> = vec![
        (0, "a", "one "),
        (0, "b", "two "),
        (0, "a", "late "),
        (1, "a", "ONE"),
        (2, "b", ""),
        (0, "c", "three"),
        (1, "x", "unseen "),
        (1, "c", "THREE"),
        (2, "never", ""),
    ];
    for (kind, item, text) in steps {
        let ev = match kind {
            0 => r.process_delta(item, text, true),
            1 => r.process_completed(item, text),
            _ => r.process_failed(item),
        };
        screen = typed(&screen, ev);
        assert!(screen.starts_with("kept one "));
    }
    assert_eq!(screen, "kept one threeunseen ");
}

#[test]
fn an_empty_delta_does_not_start_an_item() {
    let mut r = Reconciler::default();
    assert!(r.process_delta("item_1", "", true).is_none());
    assert!(!r.items.contains_key("item_1"));
    assert!(r.active.is_none());
    assert_eq!(r.alloc_segment_id(), 0);
    assert_eq!(r.next_segment_id, 1);
}

#[test]
fn a_shared_prefix_is_kept_when_revising() {
    let mut r = Reconciler::default();
    r.process_delta("item_1", "naïve cat", true);
    match r.process_completed("item_1", "naïve dog") {
        Some(StreamingEvent::Replace {
            backspace,
            text,
            segment_id,
        }) => {
            assert_eq!(backspace, 3);
            assert_eq!(text, "dog");
            assert_eq!(segment_id, 0);
        }
        _ => panic!("expected Replace"),
    }
    assert_eq!(common_prefix_char_count("", "x"), 0);
    assert_eq!(common_prefix_char_count("abc", "abc"), 3);
    assert_eq!(common_prefix_char_count("abc", "abcd"), 3);
}

#[test]
fn two_deltas_do_what_one_does() {
    for type_partials in [true, false] {
        for (first, second) in [("he", "llo"), ("", "x"), ("x", ""), ("", "")] {
            let mut split = Reconciler::default();
            let mut whole = Reconciler::default();
            let one = split.process_delta("a", first, type_partials);
            let two = split.process_delta("a", second, type_partials);
            let both = whole.process_delta("a", &format!("{}{}", first, second), type_partials);
            assert_eq!(typed(&typed("", one), two), typed("", both));
            assert_eq!(split.active, whole.active);
            assert_eq!(split.next_segment_id, whole.next_segment_id);
            let end = split.process_completed("a", "help");
            assert_eq!(
                format!("{:?}", end),
                format!("{:?}", whole.process_completed("a", "help"))
            );
        }
    }
}

#[test]
fn a_replacement_erases_its_own_segment_only() {
    let mut r = Reconciler::default();
    r.process_delta("a", "one", true);
    r.process_delta("b", "two", true);
    assert!(r.process_completed("a", "other").is_none());
    match r.process_completed("b", "tow").unwrap() {
        StreamingEvent::Replace {
            backspace,
            segment_id,
            ..
        } => {
            assert_eq!(backspace, 2);
            assert_eq!(segment_id, 1);
        }
        _ => panic!("expected Replace"),
    }
}

#[test]
fn frozen_text_is_what_was_typed() {
    let mut r = Reconciler::default();
    assert_eq!(r.frozen_text("a"), None);
    r.process_delta("a", "one", true);
    assert_eq!(r.frozen_text("a"), None);
    r.process_delta("b", "two", true);
    assert_eq!(r.frozen_text("a"), Some("one"));
    r.process_completed("a", "other");
    assert_eq!(r.frozen_text("a"), None);
}
