//! Transcript history: one JSON object per line, appended as transcripts are
//! delivered.

use crate::json;
use crate::json::Json;
use vstd::prelude::*;
use vstd::string::*;

verus! {

/// A transcript that was delivered.
#[derive(Debug)]
pub struct HistoryEntry {
    /// When it was delivered, in RFC 3339.
    pub at: String,
    /// How the session ended: "stop", "timeout" or "batch".
    pub ended: String,
    pub text: String,
}

/// An entry as a JSON object.
pub open spec fn entry_json(at: Seq<char>, ended: Seq<char>, text: Seq<char>) -> Json {
    Json::Obj(
        Map::empty().insert("at"@, Json::Str(at)).insert("ended"@, Json::Str(ended)).insert(
            "text"@,
            Json::Str(text),
        ),
    )
}

/// Whether `line` can stand as a line of the history.
pub open spec fn is_line(line: Seq<char>) -> bool {
    forall|i: int| 0 <= i < line.len() ==> (#[trigger] line[i]) as u32 >= 0x20
}

/// The line of an entry, without its line break.
pub fn entry_line(entry: &HistoryEntry) -> (res: String)
    ensures
        res@ == json::json_text(entry_json(entry.at@, entry.ended@, entry.text@)),
        json::json_parsed(res@) == Some(entry_json(entry.at@, entry.ended@, entry.text@)),
        is_line(res@),
{
    let mut object = json::object();
    json::set_member(&mut object, "at", json::string(entry.at.as_str()));
    json::set_member(&mut object, "ended", json::string(entry.ended.as_str()));
    json::set_member(&mut object, "text", json::string(entry.text.as_str()));
    json::text_of(&object)
}

/// The text that adds an entry at the end of the history: its line, with a
/// line break.
pub fn append(at: String, text: &str, ended: &str) -> (res: String)
    ensures
        res@ == json::json_text(entry_json(at@, ended@, text@)).push('\n'),
        json::json_parsed(res@.drop_last()) == Some(entry_json(at@, ended@, text@)),
        is_line(res@.drop_last()),
{
    let entry = HistoryEntry { at, ended: ended.to_owned(), text: text.to_owned() };
    let mut record = entry_line(&entry);
    let ghost line = record@;
    record.push('\n');
    assert(record@.drop_last() =~= line);
    record
}

/// Where the first line break is; the length where there is none.
pub open spec fn line_end(s: Seq<char>) -> nat
    decreases s.len(),
{
    if s.len() == 0 || s[0] == '\n' {
        0
    } else {
        1 + line_end(s.skip(1))
    }
}

/// A line without the carriage return that belongs to its line break.
pub open spec fn without_return(line: Seq<char>) -> Seq<char> {
    if line.len() > 0 && line.last() == '\r' {
        line.drop_last()
    } else {
        line
    }
}

/// The lines of a text. Each ends in a line break, with or without a carriage
/// return before it; the last may do without.
pub open spec fn lines_of(s: Seq<char>) -> Seq<Seq<char>>
    decreases s.len(),
{
    if s.len() == 0 {
        Seq::empty()
    } else if line_end(s) < s.len() {
        seq![without_return(s.take(line_end(s) as int))] + lines_of(
            s.skip(line_end(s) as int + 1),
        )
    } else {
        seq![s]
    }
}

proof fn lemma_line_end(s: Seq<char>)
    ensures
        line_end(s) <= s.len(),
        line_end(s) < s.len() ==> s[line_end(s) as int] == '\n',
        forall|i: int| 0 <= i < line_end(s) ==> s[i] != '\n',
    decreases s.len(),
{
    if s.len() > 0 && s[0] != '\n' {
        lemma_line_end(s.skip(1));
        assert forall|i: int| 0 <= i < line_end(s) implies s[i] != '\n' by {
            if i > 0 {
                assert(s[i] == s.skip(1)[i - 1]);
            }
        }
    }
}

/// A text that starts with a line: that line, and the lines of the rest.
proof fn lemma_first_line(line: Seq<char>, rest: Seq<char>)
    requires
        forall|i: int| 0 <= i < line.len() ==> line[i] != '\n',
    ensures
        lines_of(line.push('\n') + rest) == seq![without_return(line)] + lines_of(rest),
{
    let s = line.push('\n') + rest;
    lemma_line_end(s);
    let n = line.len() as int;
    assert(s[n] == '\n');
    assert(forall|i: int| 0 <= i < n ==> s[i] == line[i]);
    assert(line_end(s) == n);
    assert(s.take(n) =~= line);
    assert(s.skip(n + 1) =~= rest);
}

/// The lines of two texts are those of the whole, if the first ends where a
/// line does.
pub proof fn law_lines_concatenate(a: Seq<char>, b: Seq<char>)
    requires
        a.len() == 0 || a.last() == '\n',
    ensures
        lines_of(a + b) == lines_of(a) + lines_of(b),
    decreases a.len(),
{
    if a.len() == 0 {
        assert(a + b =~= b);
        assert(lines_of(a) + lines_of(b) =~= lines_of(b));
    } else {
        lemma_line_end(a);
        let n = line_end(a) as int;
        assert(n < a.len());
        let line = a.take(n);
        let rest = a.skip(n + 1);
        assert(a =~= line.push('\n') + rest);
        lemma_first_line(line, rest);
        lemma_first_line(line, rest + b);
        assert(a + b =~= line.push('\n') + (rest + b));
        if rest.len() > 0 {
            assert(rest.last() == a.last());
        }
        law_lines_concatenate(rest, b);
        assert(lines_of(a + b) =~= lines_of(a) + lines_of(b));
    }
}

/// A line that is appended to a history is its last line, and the lines before
/// it stay as they were.
pub proof fn law_appended_line_is_last(history: Seq<char>, line: Seq<char>)
    requires
        history.len() == 0 || history.last() == '\n',
        is_line(line),
    ensures
        lines_of(history + line.push('\n')) == lines_of(history).push(line),
        (history + line.push('\n')).last() == '\n',
{
    law_lines_concatenate(history, line.push('\n'));
    assert(forall|i: int| 0 <= i < line.len() ==> (#[trigger] line[i]) as u32 >= 0x20);
    assert(without_return(line) == line);
    lemma_first_line(line, Seq::empty());
    assert(line.push('\n') + Seq::<char>::empty() =~= line.push('\n'));
    assert(lines_of(Seq::<char>::empty()) =~= Seq::empty());
    assert(lines_of(line.push('\n')) =~= seq![line]);
    assert(lines_of(history) + seq![line] =~= lines_of(history).push(line));
}

/// The lines of a text.
pub fn lines(content: &str) -> (res: Vec<String>)
    ensures
        res@.map_values(|l: String| l@) == lines_of(content@),
{
    let mut done: Vec<String> = Vec::new();
    // The line so far, but for a carriage return at its end.
    let mut line = String::new();
    let mut returned = false;
    let ghost view = |l: String| l@;
    let ghost mut current: Seq<char> = Seq::empty();
    proof {
        assert(current + content@.skip(0) =~= content@);
        assert(done@.map_values(view) + lines_of(content@) =~= lines_of(content@));
    }
    for c in it: content.chars()
        invariant
            it.seq() == content@,
            view == (|l: String| l@),
            current == (if returned {
                line@.push('\r')
            } else {
                line@
            }),
            forall|i: int| 0 <= i < current.len() ==> current[i] != '\n',
            !returned ==> line@.len() == 0 || line@.last() != '\r',
            done@.map_values(view) + lines_of(current + content@.skip(it.index() as int))
                == lines_of(content@),
    {
        let ghost n = it.index() as int;
        let ghost rest = content@.skip(n + 1);
        assert(content@.skip(n) =~= seq![c] + rest);
        if c == '\n' {
            let ghost before = done@.map_values(view);
            proof {
                lemma_first_line(current, rest);
                assert(current + content@.skip(n) =~= current.push('\n') + rest);
                assert(line@.push('\r').drop_last() =~= line@);
            }
            done.push(line);
            line = String::new();
            returned = false;
            proof {
                assert(done@.map_values(view) =~= before.push(without_return(current)));
                assert(before + (seq![without_return(current)] + lines_of(rest))
                    =~= done@.map_values(view) + lines_of(rest));
                current = Seq::empty();
                assert(current + rest =~= rest);
            }
        } else {
            if returned {
                line.push('\r');
            }
            returned = c == '\r';
            if !returned {
                line.push(c);
            }
            proof {
                assert(current + content@.skip(n) =~= current.push(c) + rest);
                current = current.push(c);
            }
        }
    }
    if returned {
        line.push('\r');
    }
    proof {
        assert(current + content@.skip(content@.len() as int) =~= current);
        lemma_line_end(current);
    }
    if !line.as_str().is_empty() {
        let ghost before = done@.map_values(view);
        done.push(line);
        assert(done@.map_values(view) =~= before + seq![current]);
    } else {
        assert(done@.map_values(view) + lines_of(current) =~= done@.map_values(view));
    }
    done
}

/// The entries among what reading each line gave, in order.
pub open spec fn entries<E>(read: Seq<Option<E>>) -> Seq<E>
    decreases read.len(),
{
    if read.len() == 0 {
        Seq::empty()
    } else {
        match read.last() {
            Some(e) => entries(read.drop_last()).push(e),
            None => entries(read.drop_last()),
        }
    }
}

/// The last `count` of `list`, or all of it where it is shorter.
pub open spec fn last_of<E>(list: Seq<E>, count: nat) -> Seq<E> {
    if list.len() > count {
        list.skip(list.len() - count)
    } else {
        list
    }
}

/// The last `count` entries, the oldest first, given what reading each line of
/// the history gave. A line that could not be read is passed over.
pub fn read_last(read: Vec<Option<HistoryEntry>>, count: usize) -> (res: Vec<HistoryEntry>)
    ensures
        res@ == last_of(entries(read@), count as nat),
{
    let mut list: Vec<HistoryEntry> = Vec::new();
    let ghost all = read@;
    for entry in it: read.into_iter()
        invariant
            it.seq() == all,
            list@ == entries(all.take(it.index() as int)),
    {
        proof {
            let n = it.index() as int;
            assert(all.take(n + 1).drop_last() =~= all.take(n));
            assert(all.take(n + 1).last() == entry);
        }
        if let Some(e) = entry {
            list.push(e);
        }
    }
    assert(all.take(all.len() as int) =~= all);
    let n: usize = list.len();
    if n > count {
        let tail = list.split_off(n - count);
        assert(tail@ =~= entries(all).skip(n - count));
        tail
    } else {
        list
    }
}

/// What is appended is read back: with a reader of lines that makes `entry`
/// out of its own line, `entry` is the last of the entries after it was
/// appended, and those before it stay as they were.
pub proof fn law_appended_entry_is_read_back<E>(
    history: Seq<char>,
    line: Seq<char>,
    entry: E,
    reader: spec_fn(Seq<char>) -> Option<E>,
    count: nat,
)
    requires
        history.len() == 0 || history.last() == '\n',
        is_line(line),
        reader(line) == Some(entry),
    ensures
        entries(lines_of(history + line.push('\n')).map_values(reader)) == entries(
            lines_of(history).map_values(reader),
        ).push(entry),
        count > 0 ==> last_of(
            entries(lines_of(history + line.push('\n')).map_values(reader)),
            count,
        ).last() == entry,
{
    law_appended_line_is_last(history, line);
    let before = lines_of(history).map_values(reader);
    let after = lines_of(history + line.push('\n')).map_values(reader);
    assert(after.drop_last() =~= before);
    assert(after.last() == Some(entry));
}

/// The records of some lines, one after the other.
pub open spec fn records(lines: Seq<Seq<char>>) -> Seq<char>
    decreases lines.len(),
{
    if lines.len() == 0 {
        Seq::empty()
    } else {
        records(lines.drop_last()) + lines.last().push('\n')
    }
}

/// A history to which lines are appended one by one has these lines, in order,
/// after those that it had.
pub proof fn law_appended_lines_stay(history: Seq<char>, lines: Seq<Seq<char>>)
    requires
        history.len() == 0 || history.last() == '\n',
        forall|i: int| 0 <= i < lines.len() ==> is_line(#[trigger] lines[i]),
    ensures
        lines_of(history + records(lines)) == lines_of(history) + lines,
        (history + records(lines)).len() == 0 || (history + records(lines)).last() == '\n',
    decreases lines.len(),
{
    if lines.len() == 0 {
        assert(history + records(lines) =~= history);
        assert(lines_of(history) + lines =~= lines_of(history));
    } else {
        let before = lines.drop_last();
        let line = lines.last();
        assert(is_line(lines[lines.len() - 1]));
        assert forall|i: int| 0 <= i < before.len() implies is_line(#[trigger] before[i]) by {
            assert(before[i] == lines[i]);
        }
        law_appended_lines_stay(history, before);
        law_appended_line_is_last(history + records(before), line);
        assert(history + records(lines) =~= history + records(before) + line.push('\n'));
        assert((lines_of(history) + before).push(line) =~= lines_of(history) + lines);
    }
}

/// No more entries are read than were asked for, and none is left out where
/// there are not that many.
pub proof fn law_last_of<E>(list: Seq<E>, count: nat)
    ensures
        last_of(list, count).len() == (if list.len() < count {
            list.len()
        } else {
            count
        }),
        last_of(list, count).is_suffix_of(list),
{
}

/// An entry is written with its three parts, each under its name and as it is,
/// and nothing else.
pub proof fn law_entry_members(at: Seq<char>, ended: Seq<char>, text: Seq<char>, key: Seq<char>)
    ensures
        entry_json(at, ended, text) matches Json::Obj(m) && {
            &&& m.contains_key("at"@) && m["at"@] == Json::Str(at)
            &&& m.contains_key("ended"@) && m["ended"@] == Json::Str(ended)
            &&& m.contains_key("text"@) && m["text"@] == Json::Str(text)
            &&& m.contains_key(key) ==> key == "at"@ || key == "ended"@ || key == "text"@
        },
{
    reveal_strlit("at");
    reveal_strlit("ended");
    reveal_strlit("text");
    assert("at"@.len() == 2);
    assert("ended"@.len() == 5);
    assert("text"@.len() == 4);
}

/// A text is cut at its line breaks and nowhere else: the first line is what
/// comes before the first line break, without the carriage return that belongs
/// to it; the rest is cut in the same way; and what has no line break is one
/// line, as it is, if it is anything.
pub proof fn law_lines(line: Seq<char>, rest: Seq<char>)
    requires
        !line.contains('\n'),
    ensures
        lines_of(line.push('\n') + rest) == seq![
            if line.len() > 0 && line.last() == '\r' {
                line.drop_last()
            } else {
                line
            },
        ] + lines_of(rest),
        line.len() > 0 ==> lines_of(line) == seq![line],
        lines_of(Seq::<char>::empty()).len() == 0,
{
    assert forall|i: int| 0 <= i < line.len() implies line[i] != '\n' by {
        assert(line.contains(line[i]));
    }
    lemma_first_line(line, rest);
    lemma_line_end(line);
}

/// Reading passes over what is no entry, and keeps every entry in its place.
pub proof fn law_entries<E>(a: Seq<Option<E>>, b: Seq<Option<E>>, entry: E)
    ensures
        entries(a + b) == entries(a) + entries(b),
        entries(seq![Some(entry)]) == seq![entry],
        entries(seq![None::<E>]).len() == 0,
        entries(Seq::<Option<E>>::empty()).len() == 0,
    decreases b.len(),
{
    assert(seq![Some(entry)].drop_last() =~= Seq::<Option<E>>::empty());
    assert(seq![None::<E>].drop_last() =~= Seq::<Option<E>>::empty());
    assert(entries(Seq::<Option<E>>::empty()) =~= Seq::empty());
    assert(entries(seq![Some(entry)]) =~= seq![entry]);
    if b.len() == 0 {
        assert(a + b =~= a);
        assert(entries(a) + entries(b) =~= entries(a));
    } else {
        law_entries(a, b.drop_last(), entry);
        assert((a + b).drop_last() =~= a + b.drop_last());
        assert((a + b).last() == b.last());
        assert(entries(a + b) =~= entries(a) + entries(b));
    }
}

} // verus!
