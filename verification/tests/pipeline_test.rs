use truncus::dto::Msg;
use truncus::pipeline::{changed_seqs, embedding_texts, floor_boundary, render_conversation, SUMMARY_INPUT_HEAD, SUMMARY_INPUT_TAIL};
use truncus::store::SeqText;

fn msg(role: &str, text: &str) -> Msg {
    Msg { role: role.to_string(), text: text.to_string() }
}

fn row(seq: i64, text: &str) -> SeqText {
    SeqText { seq, text: text.to_string() }
}

fn strs(v: &[&str]) -> Vec<String> {
    v.iter().map(|s| s.to_string()).collect()
}

#[test]
fn short_conversation_is_sent_whole() {
    assert_eq!(render_conversation(&[msg("user", "a"), msg("assistant", "b")]), "user: a\n\nassistant: b");
    assert_eq!(render_conversation(&[]), "");
}

#[test]
fn long_conversation_keeps_head_and_tail() {
    let text = "é".repeat(15_000);
    let messages = vec![msg("user", &text)];
    let full = format!("user: {text}");
    let mut head = SUMMARY_INPUT_HEAD;
    while !full.is_char_boundary(head) {
        head -= 1;
    }
    let mut tail = full.len() - SUMMARY_INPUT_TAIL;
    while !full.is_char_boundary(tail) {
        tail += 1;
    }
    let expected = format!("{}\n[...]\n{}", &full[..head], &full[tail..]);
    let rendered = render_conversation(&messages);
    assert_eq!(rendered, expected);
    assert!(rendered.len() <= SUMMARY_INPUT_HEAD + SUMMARY_INPUT_TAIL + 7);
}

#[test]
fn floor_boundary_steps_back_inside_a_character() {
    assert_eq!(floor_boundary("héllo", 2), 1);
    assert_eq!(floor_boundary("héllo", 3), 3);
    assert_eq!(floor_boundary("héllo", 0), 0);
    assert_eq!(floor_boundary("日", 2), 0);
}

#[test]
fn only_changed_chunks_are_embedded_again() {
    let chunks = strs(&["a", "b", "c"]);
    assert_eq!(changed_seqs(&[row(0, "a"), row(1, "x")], &chunks), vec![1, 2]);
    assert_eq!(changed_seqs(&[], &chunks), vec![0, 1, 2]);
    assert!(changed_seqs(&[row(0, "a"), row(1, "b"), row(2, "c")], &chunks).is_empty());
    assert!(changed_seqs(&[row(0, "old"), row(0, "a")], &strs(&["a"])).is_empty());
    assert_eq!(changed_seqs(&[row(0, "a"), row(0, "old")], &strs(&["a"])), vec![0]);
}

#[test]
fn embedding_texts_put_the_summary_first() {
    let chunks = strs(&["a", "b", "c"]);
    assert_eq!(embedding_texts("sum", &chunks, &[1, 2]), strs(&["sum", "b", "c"]));
    assert_eq!(embedding_texts("sum", &chunks, &[]), strs(&["sum"]));
}
