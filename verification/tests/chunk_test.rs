use truncus::chunk::{byte_tail, chunk_messages, CHUNK_BYTES, OVERLAP_BYTES};
use truncus::dto::Msg;

fn msg(role: &str, text: &str) -> Msg {
    Msg {
        role: role.into(),
        text: text.into(),
    }
}

#[test]
fn empty_input_yields_no_chunks() {
    assert!(chunk_messages(&[]).is_empty());
}

#[test]
fn short_conversation_fits_one_chunk() {
    let chunks = chunk_messages(&[msg("user", "hello"), msg("assistant", "hi there")]);
    assert_eq!(chunks.len(), 1);
    assert!(chunks[0].contains("user: hello"));
    assert!(chunks[0].contains("assistant: hi there"));
}

#[test]
fn long_conversation_splits_with_overlap() {
    let messages: Vec<Msg> = (0..20)
        .map(|i| msg("user", &format!("message number {i} {}", "x".repeat(300))))
        .collect();
    let chunks = chunk_messages(&messages);
    assert!(chunks.len() > 1);
    for chunk in &chunks {
        assert!(chunk.len() <= CHUNK_BYTES + OVERLAP_BYTES + 2);
    }
    let tail: String = chunks[0].chars().rev().take(50).collect();
    let reversed_tail: String = tail.chars().rev().collect();
    assert!(chunks[1].starts_with(reversed_tail.as_str()));
}

#[test]
fn oversized_single_message_is_split() {
    let chunks = chunk_messages(&[msg("assistant", &"y".repeat(CHUNK_BYTES * 3))]);
    assert!(chunks.len() >= 3);
}

#[test]
fn multibyte_text_never_panics() {
    let chunks = chunk_messages(&[msg("user", &"héllo wörld 日本語 ".repeat(500))]);
    assert!(!chunks.is_empty());
}

#[test]
fn short_conversation_is_joined_by_blank_lines() {
    let chunks = chunk_messages(&[msg("user", "hello"), msg("assistant", "hi there")]);
    assert_eq!(chunks, vec!["user: hello\n\nassistant: hi there".to_string()]);
}

#[test]
fn every_chunk_starts_with_the_tail_of_the_previous_one() {
    let messages: Vec<Msg> = (0..30)
        .map(|i| msg("assistant", &format!("answer {i} {}", "é日x".repeat(90 + i))))
        .collect();
    let chunks = chunk_messages(&messages);
    assert!(chunks.len() > 2);
    for pair in chunks.windows(2) {
        let tail = byte_tail(&pair[0], OVERLAP_BYTES);
        assert!(tail.len() <= OVERLAP_BYTES);
        assert!(pair[1].starts_with(tail.as_str()));
    }
    for chunk in &chunks {
        assert!(chunk.len() <= CHUNK_BYTES + OVERLAP_BYTES + 5);
    }
}

#[test]
fn oversized_message_parts_overlap() {
    let text: String = (0..6000).map(|i| char::from(b'a' + (i % 26) as u8)).collect();
    let chunks = chunk_messages(&[msg("user", &text)]);
    assert_eq!(chunks.len(), 4);
    assert!(chunks[0].starts_with("user: abc"));
    assert_eq!(chunks[0].len(), CHUNK_BYTES);
}

#[test]
fn whitespace_only_tail_is_dropped() {
    let chunks = chunk_messages(&[msg("", "")]);
    assert_eq!(chunks, vec![": ".to_string()]);
}

#[test]
fn byte_tail_cuts_on_a_character_boundary() {
    let text = "ab日本";
    assert_eq!(byte_tail(text, 4), "本");
    assert_eq!(byte_tail(text, 100), text);
    assert_eq!(byte_tail(text, 0), "");
}
