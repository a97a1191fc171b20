use clipfarmer::domain::{AudioAnnotation, EditorialStage, VisualSample};
use clipfarmer::models::{base64, request_hash, seconds, select_visuals, validate_audio_annotation, GeminiEditorial, OpenAiEditorial};

fn sample(at_ms: i64, path: String) -> VisualSample {
    VisualSample { at_ms, path, region: "full_frame".to_owned(), reason: "baseline".to_owned() }
}

#[test]
fn visual_selection_keeps_both_story_ends() {
    let samples = (0..100).map(|index| sample(index, index.to_string())).collect::<Vec<_>>();
    let selected = select_visuals(&samples, 24);
    assert_eq!(selected.first().unwrap().at_ms, 0);
    assert_eq!(selected.last().unwrap().at_ms, 99);
    assert_eq!(selected.len(), 24);
}

#[test]
fn visual_selection_deduplicates_overlapping_window_samples() {
    let samples = [0, 1, 1, 2, 2, 3]
        .into_iter()
        .enumerate()
        .map(|(index, at_ms)| sample(at_ms, index.to_string()))
        .collect::<Vec<_>>();
    let selected = select_visuals(&samples, 24);
    assert_eq!(selected.iter().map(|sample| sample.at_ms).collect::<Vec<_>>(), [0, 1, 2, 3]);
    assert_eq!(selected[1].path, "1");
}

#[test]
fn visual_selection_with_a_limit_of_one_keeps_the_last() {
    let samples = (0..5).map(|index| sample(index, index.to_string())).collect::<Vec<_>>();
    let selected = select_visuals(&samples, 1);
    assert_eq!(selected.len(), 1);
    assert_eq!(selected[0].at_ms, 4);
}

#[test]
fn base64_matches_the_standard_alphabet() {
    assert_eq!(base64(b""), "");
    assert_eq!(base64(b"f"), "Zg==");
    assert_eq!(base64(b"fo"), "Zm8=");
    assert_eq!(base64(b"foo"), "Zm9v");
    assert_eq!(base64(b"foobar"), "Zm9vYmFy");
    assert_eq!(base64(&[0xfb, 0xff]), "+/8=");
}

#[test]
fn seconds_have_three_decimals() {
    assert_eq!(seconds(0), "0.000");
    assert_eq!(seconds(1_500), "1.500");
    assert_eq!(seconds(42), "0.042");
    assert_eq!(seconds(-1_500), "-1.500");
    for ms in [0i64, 1, 999, 1_000, 123_456, -7, 86_400_000] {
        assert_eq!(seconds(ms), format!("{:.3}", ms as f64 / 1_000.0));
    }
}

#[test]
fn request_hash_is_the_hex_sha256() {
    assert_eq!(request_hash(b"abc"), "ba7816bf8f01cfea414140de5dae2223b00361a396177a9cb410ff61f20015ad");
    assert_eq!(request_hash(b""), "e3b0c44298fc1c149afbf4c8996fb92427ae41e4649b934ca495991b7852b855");
}

#[test]
fn audio_confidence_must_be_a_probability() {
    let mut a = AudioAnnotation {
        emotional_arc: "x".to_owned(),
        nonverbal_events: Vec::new(),
        hook_ms: None,
        payoff_ms: None,
        confidence: 1_000_000,
    };
    assert!(validate_audio_annotation(&a).is_ok());
    a.confidence = 1_000_001;
    assert!(validate_audio_annotation(&a).is_err());
    a.confidence = -1;
    assert!(validate_audio_annotation(&a).is_err());
}

#[test]
fn each_stage_has_its_model() {
    let g = GeminiEditorial {
        api_key: "k".to_owned(),
        observer_model: "o".to_owned(),
        director_model: "d".to_owned(),
        editor_model: "e".to_owned(),
        critic_model: "c".to_owned(),
    };
    assert_eq!(g.model(EditorialStage::Editor), "e");
    assert_eq!(GeminiEditorial::thinking_level(EditorialStage::Critic), "high");
    let o = OpenAiEditorial {
        api_key: "k".to_owned(),
        observer_model: "o".to_owned(),
        director_model: "d".to_owned(),
        editor_model: "e".to_owned(),
        critic_model: "c".to_owned(),
        db_path: "db".to_owned(),
    };
    assert_eq!(o.model(EditorialStage::Director), "d");
}
