use voca::typing::{append_new_words, paste_inputs, KeyInput};

fn ws(s: &str) -> Vec<String> {
    s.split_whitespace().map(|w| w.to_string()).collect()
}

fn append(typed: &str, transcript: &str) -> (Vec<String>, Option<String>) {
    let mut t = ws(typed);
    let r = append_new_words(&mut t, transcript);
    (t, r)
}

#[test]
fn first_transcript_is_typed_whole() {
    assert_eq!(append("", " hello  world\n"), (ws("hello world"), Some("hello world ".to_string())));
}

#[test]
fn blank_transcript_adds_nothing() {
    assert_eq!(append("", "  "), (ws(""), None));
    assert_eq!(append("a b", ""), (ws("a b"), None));
}

#[test]
fn overlapping_transcript_adds_its_rest() {
    assert_eq!(append("a b c", "b c d e"), (ws("a b c d e"), Some("d e ".to_string())));
    assert_eq!(append("a b a b", "a b a b c"), (ws("a b a b c"), Some("c ".to_string())));
    assert_eq!(append("x a", "a"), (ws("x a"), None));
}

#[test]
fn longest_overlap_wins() {
    assert_eq!(append("a a", "a a b"), (ws("a a b"), Some("b ".to_string())));
}

#[test]
fn without_overlap_a_longer_transcript_continues() {
    assert_eq!(append("a", "b c"), (ws("a c"), Some("c ".to_string())));
    assert_eq!(append("a b", "c d"), (ws("a b"), None));
    assert_eq!(append("a b", "c"), (ws("a b"), None));
}

#[test]
fn repeating_a_transcript_types_nothing() {
    for (typed, heard) in [("", "a b"), ("a b", "b c"), ("a b", "c d")] {
        let mut t = ws(typed);
        append_new_words(&mut t, heard);
        assert_eq!(append_new_words(&mut t, heard), None);
    }
}

#[test]
fn repeating_without_overlap_can_type_again() {
    let mut t = ws("x");
    assert_eq!(append_new_words(&mut t, "a b a"), Some("b a ".to_string()));
    assert_eq!(append_new_words(&mut t, "a b a"), Some("b a ".to_string()));
}

#[test]
fn growing_transcripts_type_each_word_once() {
    let mut t = Vec::new();
    let mut screen = String::new();
    for heard in ["the", "the cat", "the cat", "the cat sat on the mat"] {
        if let Some(text) = append_new_words(&mut t, heard) {
            screen.push_str(&text);
        }
    }
    assert_eq!(screen, "the cat sat on the mat ");
    assert_eq!(ws(&screen), t);
    assert_eq!(t, ws("the cat sat on the mat"));
}

#[test]
fn keys_go_down_and_up() {
    assert_eq!(paste_inputs(""), vec![]);
    let down = |scan| KeyInput { scan, key_up: false };
    let up = |scan| KeyInput { scan, key_up: true };
    assert_eq!(
        paste_inputs("a\u{1F600}"),
        vec![down(0x61), up(0x61), down(0xd83d), up(0xd83d), down(0xde00), up(0xde00)]
    );
    assert_ne!(paste_inputs("\u{d7ff}\u{e000}"), paste_inputs("\u{10000}"));
}
