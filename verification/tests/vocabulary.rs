use clipfarmer::domain::TranscriptSegment;
use clipfarmer::vocabulary::session_vocabulary;

fn segment(text: &str) -> TranscriptSegment {
    TranscriptSegment {
        session_id: "session".to_owned(),
        start_ms: 0,
        end_ms: 1_000,
        text: text.to_owned(),
        confidence: None,
        no_speech_probability: None,
        is_final: true,
    }
}

#[test]
fn vocabulary_orders_by_frequency_then_string_order() {
    let vocabulary = session_vocabulary(&[
        segment("Hello hello world, wonderful"),
        segment("world! it's an it"),
    ]);
    assert_eq!(vocabulary, vec!["hello", "world", "it's", "wonderful"]);
}

#[test]
fn vocabulary_keeps_twenty_words() {
    let words = (0..25)
        .map(|index| format!("word{index:02}"))
        .collect::<Vec<_>>()
        .join(" ");
    let vocabulary = session_vocabulary(&[segment(&words), segment("word24 word24")]);
    assert_eq!(vocabulary.len(), 20);
    assert_eq!(vocabulary[0], "word24");
    assert_eq!(vocabulary[1], "word00");
    assert_eq!(vocabulary[19], "word18");
}

#[test]
fn vocabulary_counts_bytes_not_characters() {
    let vocabulary = session_vocabulary(&[segment("éé ab abc Straße")]);
    assert_eq!(vocabulary, vec!["straße", "éé"]);
}

#[test]
fn vocabulary_of_an_empty_session_is_empty() {
    assert!(session_vocabulary(&[]).is_empty());
}
