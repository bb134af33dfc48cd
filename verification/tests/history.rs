use voxtype_realtime::history::{append, entry_line, lines, read_last, HistoryEntry};

fn entry(text: &str) -> HistoryEntry {
    HistoryEntry {
        at: "2026-08-03T14:00:00-07:00".into(),
        ended: "stop".into(),
        text: text.into(),
    }
}

/// Reads a line as an entry, if it is one.
fn read(line: &str) -> Option<HistoryEntry> {
    let value: serde_json::Value = serde_json::from_str(line).ok()?;
    Some(HistoryEntry {
        at: value["at"].as_str()?.to_string(),
        ended: value["ended"].as_str()?.to_string(),
        text: value["text"].as_str()?.to_string(),
    })
}

#[test]
fn entry_roundtrips_through_json() {
    let e = HistoryEntry {
        at: "2026-08-03T14:00:00-07:00".into(),
        ended: "stop".into(),
        text: "hello world".into(),
    };
    let s = entry_line(&e);
    let back = read(&s).unwrap();
    assert_eq!(back.text, "hello world");
    assert_eq!(back.ended, "stop");
    assert_eq!(back.at, "2026-08-03T14:00:00-07:00");
    assert_eq!(
        s,
        "{\"at\":\"2026-08-03T14:00:00-07:00\",\"ended\":\"stop\",\"text\":\"hello world\"}"
    );
}

#[test]
fn lines_are_those_of_the_standard_library() {
    for content in [
        "",
        "\n",
        "a",
        "a\n",
        "a\nb",
        "a\r\nb\r\n",
        "a\r",
        "a\r\r\nb\rc\n\n",
        "\r\n\r",
        "é\nü\r\n",
        "\n\n",
    ] {
        let expected: Vec<&str> = content.lines().collect();
        assert_eq!(lines(content), expected, "{:?}", content);
    }
}

#[test]
fn what_is_appended_is_read_back() {
    let mut history = String::new();
    for text in ["one", "two\nlines\r", "\"three\""] {
        history.push_str(&append("now".into(), text, "batch"));
    }
    assert_eq!(
        history.lines().next(),
        Some("{\"at\":\"now\",\"ended\":\"batch\",\"text\":\"one\"}")
    );
    let parsed: Vec<Option<HistoryEntry>> = lines(&history).iter().map(|l| read(l)).collect();
    let entries = read_last(parsed, 2);
    let texts: Vec<&str> = entries.iter().map(|e| e.text.as_str()).collect();
    assert_eq!(texts, vec!["two\nlines\r", "\"three\""]);
    assert_eq!(entries[0].ended, "batch");
    assert_eq!(entries[0].at, "now");
}

#[test]
fn unreadable_lines_are_passed_over() {
    let parsed = vec![None, Some(entry("a")), None, Some(entry("b")), None];
    let texts: Vec<String> = read_last(parsed, 10).into_iter().map(|e| e.text).collect();
    assert_eq!(texts, vec!["a".to_string(), "b".to_string()]);
    assert!(read_last(vec![Some(entry("a"))], 0).is_empty());
    assert!(read_last(Vec::new(), 3).is_empty());
}

#[test]
fn appended_lines_stay_in_order() {
    let mut history = "old\n".to_string();
    let mut expected = vec!["old".to_string()];
    for text in ["a", "b", "c"] {
        let record = append("now".into(), text, "stop");
        expected.push(record.trim_end_matches('\n').to_string());
        history.push_str(&record);
    }
    assert_eq!(lines(&history), expected);
}
