//! Turning the entries of a session log into the conversation that is stored.
use vstd::prelude::*;

use crate::dto::{IngestRequest, Msg};
use crate::json::{as_bool, as_str, field, get, get_bool, get_str, json_value, parse_json, Json};
use crate::text::{lines, lines_of, chars_of, has_prefix, join, lemma_join_push, same_text, starts_with, string_of,
    take_chars, trim, trim_str};

verus! {

/// Most characters kept of one message.
pub const MAX_MSG_CHARS: usize = 8000;

/// A parsed session log: its messages and the first and last timestamps (milliseconds).
#[derive(Debug, PartialEq, Eq)]
pub struct Transcript {
    pub messages: Vec<Msg>,
    pub started_at: i64,
    pub ended_at: i64,
}

/// The first `max` characters of `text`.
pub fn truncate_chars(text: &str, max: usize) -> (res: String)
    ensures
        res@ == take_chars(text@, max as nat),
{
    let v = chars_of(text);
    if v.len() <= max {
        text.to_owned()
    } else {
        string_of(v.as_slice(), 0, max)
    }
}
/// The instant an RFC 3339 timestamp denotes, in nanoseconds since the Unix epoch, as the
/// `time` crate parses it; nothing when the text is not RFC 3339.
pub uninterp spec fn rfc3339_unix_nanos(raw: Seq<char>) -> Option<int>;

/// `time::OffsetDateTime::parse` with the RFC 3339 format, then `unix_timestamp_nanos`.
/// Claimed: the result is [`rfc3339_unix_nanos`] of the text; and, since RFC 3339 years
/// have four digits and offsets stay within a day, a parsed instant lies within 10^21
/// nanoseconds of the epoch. The grammar and the calendar are left to `time`.
#[verifier::external_body]
fn parse_rfc3339_nanos(raw: &str) -> (r: Option<i128>)
    ensures
        match r {
            Some(n) => rfc3339_unix_nanos(raw@) == Some(n as int) && -1_000_000_000_000_000_000_000
                < n < 1_000_000_000_000_000_000_000,
            None => rfc3339_unix_nanos(raw@) is None,
        },
{
    time::OffsetDateTime::parse(raw, &time::format_description::well_known::Rfc3339).ok().map(
        |t| t.unix_timestamp_nanos(),
    )
}

/// Integer division truncating toward zero.
pub open spec fn quot(a: int, b: int) -> int {
    if a >= 0 {
        a / b
    } else {
        -((-a) / b)
    }
}

/// The timestamp of a log entry in milliseconds, when it has a readable one.
pub open spec fn timestamp_millis_of(e: Json) -> Option<int> {
    match as_str(field(e, "timestamp"@)) {
        Some(raw) => match rfc3339_unix_nanos(raw) {
            Some(n) => Some(quot(n, 1_000_000)),
            None => None,
        },
        None => None,
    }
}

/// A user or assistant turn of the main conversation (not a side chain, not meta).
pub open spec fn is_conversation_entry_of(e: Json) -> bool {
    let kind = as_str(field(e, "type"@));
    &&& (kind == Some("user"@) || kind == Some("assistant"@))
    &&& as_bool(field(e, "isSidechain"@)) != Some(true)
    &&& as_bool(field(e, "isMeta"@)) != Some(true)
}

/// The texts of the `"text"` blocks of a content array, in order.
pub open spec fn block_texts(blocks: Seq<Json>) -> Seq<Seq<char>>
    decreases blocks.len(),
{
    if blocks.len() == 0 {
        Seq::empty()
    } else {
        let t = block_texts(blocks.drop_last());
        let b = blocks.last();
        if as_str(field(b, "type"@)) == Some("text"@) && as_str(field(b, "text"@)) is Some {
            t.push(as_str(field(b, "text"@))->0)
        } else {
            t
        }
    }
}

/// Text that is tooling noise rather than conversation.
pub open spec fn is_noise(t: Seq<char>) -> bool {
    ||| t.len() == 0
    ||| starts_with(t, "<system-reminder>"@)
    ||| starts_with(t, "<command-name>"@)
    ||| starts_with(t, "<local-command"@)
    ||| starts_with(t, "Caveat: "@)
}

/// The trimmed text of a message's content (a string, or the text blocks of an array
/// joined by newlines), unless it is empty or tooling noise.
pub open spec fn extract_text_of(content: Json) -> Option<Seq<char>> {
    let raw = match content {
        Json::Str(s) => Some(s@),
        Json::Array(blocks) => Some(join(block_texts(blocks@), "\n"@)),
        _ => None,
    };
    match raw {
        Some(t) => if is_noise(trim(t)) {
            None
        } else {
            Some(trim(t))
        },
        None => None,
    }
}

/// The state of a transcript being read: messages as (role, text), first and last
/// timestamps.
pub type TranscriptState = (Seq<(Seq<char>, Seq<char>)>, int, int);

/// Reading one line of the log (`None` when it is not JSON).
pub open spec fn transcript_step(st: TranscriptState, entry: Option<Json>) -> TranscriptState {
    match entry {
        None => st,
        Some(e) => if !is_conversation_entry_of(e) {
            st
        } else {
            let started = match timestamp_millis_of(e) {
                Some(ts) => if st.1 == 0 { ts } else { st.1 },
                None => st.1,
            };
            let ended = match timestamp_millis_of(e) {
                Some(ts) => ts,
                None => st.2,
            };
            let message = field(e, "message"@);
            match extract_text_of(field(message, "content"@)) {
                None => (st.0, started, ended),
                Some(text) => {
                    let role = match as_str(field(message, "role"@)) {
                        Some(r) => r,
                        None => "user"@,
                    };
                    (st.0.push((role, take_chars(text, MAX_MSG_CHARS as nat))), started, ended)
                },
            }
        },
    }
}

/// Reading a whole log, line by line.
pub open spec fn transcript_of(entries: Seq<Option<Json>>) -> TranscriptState
    decreases entries.len(),
{
    if entries.len() == 0 {
        (Seq::empty(), 0, 0)
    } else {
        transcript_step(transcript_of(entries.drop_last()), entries.last())
    }
}

/// The (role, text) pairs of a list of messages.
pub open spec fn message_pairs(msgs: Seq<Msg>) -> Seq<(Seq<char>, Seq<char>)> {
    msgs.map_values(|m: Msg| (m.role@, m.text@))
}

/// Whether a log entry is a user or assistant turn of the main conversation.
pub fn is_conversation_entry(entry: &Json) -> (r: bool)
    ensures
        r == is_conversation_entry_of(*entry),
{
    let kind_ok = match get_str(entry, "type") {
        Some(k) => same_text(k.as_str(), "user") || same_text(k.as_str(), "assistant"),
        None => false,
    };
    let sidechain = match get_bool(entry, "isSidechain") {
        Some(b) => b,
        None => false,
    };
    let meta = match get_bool(entry, "isMeta") {
        Some(b) => b,
        None => false,
    };
    kind_ok && !sidechain && !meta
}

fn is_noise_text(t: &str) -> (r: bool)
    ensures
        r == is_noise(t@),
{
    t.unicode_len() == 0 || has_prefix(t, "<system-reminder>") || has_prefix(t, "<command-name>")
        || has_prefix(t, "<local-command") || has_prefix(t, "Caveat: ")
}

/// The text of a message's content, trimmed; `None` when there is none or it is noise.
pub fn extract_text(content: &Json) -> (r: Option<String>)
    ensures
        match r {
            Some(s) => extract_text_of(*content) == Some(s@),
            None => extract_text_of(*content) is None,
        },
{
    let text = match content {
        Json::Str(s) => s.as_str().to_owned(),
        Json::Array(blocks) => {
            let mut out = String::new();
            let mut any = false;
            let n = blocks.len();
            let ghost sep = "\n"@;
            assert(blocks@.take(0) =~= Seq::<Json>::empty());
            for i in 0..n
                invariant
                    n == blocks@.len(),
                    sep == "\n"@,
                    any == (block_texts(blocks@.take(i as int)).len() > 0),
                    out@ == join(block_texts(blocks@.take(i as int)), sep),
            {
                let b = &blocks[i];
                let ghost pre = blocks@.take(i as int);
                assert(blocks@.take(i + 1).drop_last() =~= pre);
                let is_text = match get_str(b, "type") {
                    Some(k) => same_text(k.as_str(), "text"),
                    None => false,
                };
                if is_text {
                    match get_str(b, "text") {
                        Some(t) => {
                            proof {
                                lemma_join_push(block_texts(pre), sep, t@);
                            }
                            if any {
                                out.append("\n");
                            }
                            out.append(t.as_str());
                            any = true;
                        },
                        None => {},
                    }
                }
            }
            assert(blocks@.take(n as int) =~= blocks@);
            out
        },
        _ => {
            return None;
        },
    };
    let trimmed = trim_str(text.as_str());
    if is_noise_text(trimmed.as_str()) {
        None
    } else {
        Some(trimmed)
    }
}

/// The timestamp of a log entry in milliseconds, when it has a readable one.
pub fn timestamp_millis(entry: &Json) -> (r: Option<i64>)
    ensures
        match r {
            Some(ts) => timestamp_millis_of(*entry) == Some(ts as int),
            None => timestamp_millis_of(*entry) is None,
        },
{
    match get_str(entry, "timestamp") {
        Some(raw) => match parse_rfc3339_nanos(raw.as_str()) {
            Some(n) => {
                let ms = n / 1_000_000;
                Some(ms as i64)
            },
            None => None,
        },
        None => None,
    }
}

/// Reads a session log given as its lines, each parsed as JSON (`None` when a line is not
/// JSON): keeps the user and assistant turns of the main conversation, with their text
/// trimmed and cut to `MAX_MSG_CHARS` characters, and records the first and last
/// timestamps of those turns.
pub fn transcript_from_entries(entries: &[Option<Json>]) -> (t: Transcript)
    ensures
        (message_pairs(t.messages@), t.started_at as int, t.ended_at as int) == transcript_of(entries@),
{
    let mut messages: Vec<Msg> = Vec::new();
    let mut started_at: i64 = 0;
    let mut ended_at: i64 = 0;
    let n = entries.len();
    assert(entries@.take(0) =~= Seq::<Option<Json>>::empty());
    assert(message_pairs(messages@) =~= Seq::<(Seq<char>, Seq<char>)>::empty());
    for i in 0..n
        invariant
            n == entries@.len(),
            (message_pairs(messages@), started_at as int, ended_at as int) == transcript_of(
                entries@.take(i as int),
            ),
    {
        assert(entries@.take(i + 1).drop_last() =~= entries@.take(i as int));
        assert(entries@.take(i + 1).last() == entries@[i as int]);
        match &entries[i] {
            None => {},
            Some(e) => {
                if is_conversation_entry(e) {
                    match timestamp_millis(e) {
                        Some(ts) => {
                            if started_at == 0 {
                                started_at = ts;
                            }
                            ended_at = ts;
                        },
                        None => {},
                    }
                    let (text, role) = match get(e, "message") {
                        Some(message) => {
                            let text = match get(message, "content") {
                                Some(content) => extract_text(content),
                                None => extract_text(&Json::Null),
                            };
                            (text, get_str(message, "role"))
                        },
                        None => (extract_text(&Json::Null), None),
                    };
                    match text {
                        Some(t) => {
                            let role = match role {
                                Some(r) => r,
                                None => "user".to_owned(),
                            };
                            let ghost before = message_pairs(messages@);
                            let msg = Msg { role, text: truncate_chars(t.as_str(), MAX_MSG_CHARS) };
                            messages.push(msg);
                            assert(message_pairs(messages@) =~= before.push((msg.role@, msg.text@)));
                        },
                        None => {},
                    }
                }
            },
        }
    }
    assert(entries@.take(n as int) =~= entries@);
    Transcript { messages, started_at, ended_at }
}

/// The request that sends a finished session's transcript, or nothing when the transcript
/// holds no conversation.
pub fn ingest_request(session_id: &str, project: String, cwd: &str, machine: String, transcript: Transcript) -> (r: Option<IngestRequest>)
    ensures
        match r {
            Some(req) => transcript.messages@.len() > 0 && req.session_id@ == session_id@
                && req.project == project && req.cwd@ == cwd@ && req.machine == machine
                && req.started_at == transcript.started_at && req.ended_at == transcript.ended_at
                && req.messages == transcript.messages,
            None => transcript.messages@.len() == 0,
        },
{
    if transcript.messages.len() == 0 {
        return None;
    }
    Some(IngestRequest {
        session_id: session_id.to_owned(),
        project,
        cwd: cwd.to_owned(),
        machine,
        started_at: transcript.started_at,
        ended_at: transcript.ended_at,
        messages: transcript.messages,
    })
}

/// The log entries of a session log: one JSON document per line, `None` for a line that is
/// not one.
pub open spec fn log_entries(content: Seq<char>) -> Seq<Option<Json>> {
    lines_of(content).map_values(|l: Seq<char>| json_value(l))
}

/// Reads a session log (one JSON entry per line): keeps the user and assistant turns of the
/// main conversation, their text trimmed and cut to `MAX_MSG_CHARS` characters, and the
/// first and last timestamps of those turns.
pub fn parse_jsonl(content: &str) -> (t: Transcript)
    ensures
        (message_pairs(t.messages@), t.started_at as int, t.ended_at as int) == transcript_of(
            log_entries(content@),
        ),
{
    let ls = lines(content);
    let mut entries: Vec<Option<Json>> = Vec::new();
    let n = ls.len();
    for i in 0..n
        invariant
            n == ls@.len(),
            ls@.map_values(|l: String| l@) == lines_of(content@),
            entries@.len() == i,
            forall|j: int| 0 <= j < i ==> #[trigger] entries@[j] == json_value(ls@[j]@),
    {
        assert(ls@.map_values(|l: String| l@)[i as int] == ls@[i as int]@);
        entries.push(parse_json(ls[i].as_str()));
    }
    assert(entries@ =~= log_entries(content@)) by {
        assert forall|j: int| 0 <= j < n implies #[trigger] entries@[j] == log_entries(content@)[j] by {
            assert(ls@.map_values(|l: String| l@)[j] == ls@[j]@);
        }
    }
    transcript_from_entries(entries.as_slice())
}

/// The text a log line carries as conversation: the extracted text of a user or assistant
/// turn of the main conversation, if it has any.
pub open spec fn entry_text(entry: Option<Json>) -> Option<Seq<char>> {
    match entry {
        Some(e) => if is_conversation_entry_of(e) {
            extract_text_of(field(field(e, "message"@), "content"@))
        } else {
            None
        },
        None => None,
    }
}

/// The number of log lines that carry conversation text.
pub open spec fn text_entry_count(entries: Seq<Option<Json>>) -> nat
    decreases entries.len(),
{
    if entries.len() == 0 {
        0
    } else {
        text_entry_count(entries.drop_last()) + if entry_text(entries.last()) is Some { 1nat } else { 0nat }
    }
}

/// `kept` is the beginning of `full` that a stored message keeps: its first
/// `MAX_MSG_CHARS` characters, or all of it when it is shorter.
pub open spec fn keeps_beginning(kept: Seq<char>, full: Seq<char>) -> bool {
    &&& kept.len() == (if full.len() <= MAX_MSG_CHARS { full.len() as int } else { MAX_MSG_CHARS as int })
    &&& kept == full.subrange(0, kept.len() as int)
}

/// `kept` is what a stored message keeps of the text of some line of the log.
pub open spec fn kept_from_some_line(kept: Seq<char>, entries: Seq<Option<Json>>) -> bool {
    exists|j: int|
        0 <= j < entries.len() && (entry_text(#[trigger] entries[j]) matches Some(full) && keeps_beginning(kept, full))
}

/// Message law: a log yields one message per line that carries conversation text, and each
/// message keeps the beginning of a line's text: its first `MAX_MSG_CHARS` characters, or
/// the whole text when it is shorter.
pub proof fn lemma_messages_keep_beginnings(entries: Seq<Option<Json>>)
    ensures
        transcript_of(entries).0.len() == text_entry_count(entries),
        forall|k: int|
            0 <= k < transcript_of(entries).0.len() ==> kept_from_some_line(
                (#[trigger] transcript_of(entries).0[k]).1,
                entries,
            ),
    decreases entries.len(),
{
    if entries.len() > 0 {
        let pre = entries.drop_last();
        lemma_messages_keep_beginnings(pre);
        let before = transcript_of(pre).0;
        let after = transcript_of(entries).0;
        let last = entries.last();
        assert forall|k: int| 0 <= k < after.len() implies kept_from_some_line(
            (#[trigger] after[k]).1,
            entries,
        ) by {
            if k < before.len() {
                assert(after[k] == before[k]);
                assert(kept_from_some_line(before[k].1, pre));
                let j = choose|j: int|
                    0 <= j < pre.len() && (entry_text(#[trigger] pre[j]) matches Some(full) && keeps_beginning(before[k].1, full));
                assert(entries[j] == pre[j]);
            } else {
                let j = entries.len() - 1;
                assert(entries[j] == last);
                let full = entry_text(last)->0;
                let kept = after[k].1;
                assert(kept == take_chars(full, MAX_MSG_CHARS as nat));
                assert(kept =~= full.subrange(0, kept.len() as int));
                assert(keeps_beginning(kept, full));
            }
        }
    }
}

/// The texts of the log lines that carry conversation text, in the order of the lines.
pub open spec fn line_texts(entries: Seq<Option<Json>>) -> Seq<Seq<char>>
    decreases entries.len(),
{
    if entries.len() == 0 {
        Seq::empty()
    } else {
        match entry_text(entries.last()) {
            Some(t) => line_texts(entries.drop_last()).push(t),
            None => line_texts(entries.drop_last()),
        }
    }
}

/// Order law: the k-th stored message comes from the k-th line that carries conversation
/// text, and keeps the beginning of that text: its first `MAX_MSG_CHARS` characters, or the
/// whole text when it is shorter.
pub proof fn lemma_messages_follow_lines(entries: Seq<Option<Json>>)
    ensures
        transcript_of(entries).0.len() == line_texts(entries).len(),
        forall|k: int|
            0 <= k < transcript_of(entries).0.len() ==> keeps_beginning(
                (#[trigger] transcript_of(entries).0[k]).1,
                line_texts(entries)[k],
            ),
    decreases entries.len(),
{
    if entries.len() > 0 {
        let pre = entries.drop_last();
        lemma_messages_follow_lines(pre);
        let before = transcript_of(pre).0;
        let after = transcript_of(entries).0;
        let last = entries.last();
        assert forall|k: int| 0 <= k < after.len() implies keeps_beginning(
            (#[trigger] after[k]).1,
            line_texts(entries)[k],
        ) by {
            if k < before.len() {
                assert(after[k] == before[k]);
                assert(line_texts(entries)[k] == line_texts(pre)[k]);
            } else {
                let full = entry_text(last)->0;
                let kept = after[k].1;
                assert(line_texts(entries)[k] == full);
                assert(kept == take_chars(full, MAX_MSG_CHARS as nat));
                assert(kept =~= full.subrange(0, kept.len() as int));
            }
        }
    }
}

} // verus!
