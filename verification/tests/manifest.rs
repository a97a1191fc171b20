use clipfarmer::domain::{Candidate, CaptionCue, ClipState, EditManifest, EditorialDecision, EditorialStage, TranscriptSegment};
use clipfarmer::manifest::{
    build_caption_cues, build_manifest, caption_timing_fits_exec, render_ass, render_srt, srt_timestamp, validate_manifest, validate_object_key,
    validate_safe_path, ManifestError, PathError, MAX_CAPTION_CHARACTERS, MAX_CAPTION_WORDS,
};

fn manifest() -> EditManifest {
    EditManifest {
        version: 1,
        candidate_id: "candidate".to_owned(),
        input_path: "/tmp/input.mp4".to_owned(),
        output_path: "/tmp/output.mp4".to_owned(),
        source_start_ms: 1_000,
        source_end_ms: 11_000,
        width: 1080,
        height: 1920,
        fps: 30,
        layout: "fit_blur".to_owned(),
        hook_text: None,
        captions: vec![CaptionCue { start_ms: 0, end_ms: 1_000, text: "hello".to_owned() }],
    }
}

fn segment(start_ms: i64, end_ms: i64, text: &str) -> TranscriptSegment {
    TranscriptSegment {
        session_id: "session".to_owned(),
        start_ms,
        end_ms,
        text: text.to_owned(),
        confidence: Some(900_000),
        no_speech_probability: None,
        is_final: true,
    }
}

#[test]
fn manifest_rejects_path_traversal_and_invalid_duration() {
    let mut value = manifest();
    value.output_path = "../escape.mp4".to_owned();
    assert!(validate_manifest(&value).is_err());
    let mut value = manifest();
    value.source_end_ms = 4_000;
    assert!(validate_manifest(&value).is_err());
}

#[test]
fn manifest_srt_output_has_expected_timestamps() {
    let output = render_srt(&manifest().captions);
    assert!(output.contains("00:00:00,000 --> 00:00:01,000"));
}

#[test]
fn captions_are_short_and_never_overlap() {
    let transcript = vec![segment(
        1_000,
        9_000,
        "The same golem wandered the end until it was reachable and every shot still had to line up",
    )];
    let captions = build_caption_cues(&transcript, 1_000, 9_000);
    assert!(captions.len() > 1);
    assert!(captions.iter().all(|cue| {
        cue.text.split_whitespace().count() <= MAX_CAPTION_WORDS && cue.text.chars().count() <= MAX_CAPTION_CHARACTERS
    }));
    assert!(captions.windows(2).all(|pair| pair[0].end_ms <= pair[1].start_ms));
}

#[test]
fn overlapping_transcript_windows_do_not_repeat_words_or_cues() {
    let transcript = vec![
        segment(0, 5_000, "we still had to line up"),
        segment(4_000, 9_000, "still had to line up for the shot"),
    ];
    let captions = build_caption_cues(&transcript, 0, 10_000);
    let displayed_text = captions.iter().map(|cue| cue.text.as_str()).collect::<Vec<_>>().join(" ");
    assert_eq!(displayed_text, "we still had to line up for the shot");
    assert!(captions.windows(2).all(|pair| pair[0].end_ms <= pair[1].start_ms));
}

#[test]
fn ass_uses_explicit_canvas_and_separate_safe_zones() {
    let output = render_ass(&manifest().captions, Some("Wait for it"), 10_000);
    assert!(output.contains("PlayResX: 1080\nPlayResY: 1920"));
    assert!(output.contains("Style: Caption,Arial,64"));
    assert!(output.contains(",2,110,110,430,1"));
    assert!(output.contains("Style: Hook,Arial,54"));
    assert!(output.contains(",8,120,120,150,1"));
    assert!(output.contains("Dialogue: 1,0:00:00.00,0:00:03.00,Hook"));
}

#[test]
fn srt_timestamps_carry_hours() {
    assert_eq!(srt_timestamp(0), "00:00:00,000");
    assert_eq!(srt_timestamp(3_723_004), "01:02:03,004");
}

#[test]
fn srt_blocks_are_numbered_and_escape_arrows() {
    let cues = vec![
        CaptionCue { start_ms: 0, end_ms: 500, text: "a --> b".to_owned() },
        CaptionCue { start_ms: 500, end_ms: 1_000, text: "two\nlines".to_owned() },
    ];
    assert_eq!(
        render_srt(&cues),
        "1\n00:00:00,000 --> 00:00:00,500\na → b\n\n2\n00:00:00,500 --> 00:00:01,000\ntwo lines\n\n"
    );
}

#[test]
fn ass_escapes_override_characters_and_skips_blank_hooks() {
    let cues = vec![CaptionCue { start_ms: 0, end_ms: 1_230, text: "{bold}\\x".to_owned() }];
    let output = render_ass(&cues, Some("   "), 10_000);
    assert!(!output.contains("Hook,,0"));
    assert!(output.contains("Dialogue: 0,0:00:00.00,0:00:01.23,Caption,,0,0,0,,（bold）＼x\n"));
}

#[test]
fn safe_paths_and_object_keys() {
    assert!(validate_safe_path("clips/a.mp4").is_ok());
    assert_eq!(validate_safe_path(""), Err(PathError::Empty));
    assert_eq!(validate_safe_path("a\nb"), Err(PathError::ControlCharacter));
    assert_eq!(validate_safe_path("a/../b"), Err(PathError::ParentTraversal));
    assert!(validate_object_key("clips/a.mp4").is_ok());
    assert_eq!(validate_object_key("/clips/a.mp4"), Err(PathError::Absolute));
}

#[test]
fn manifest_validation_names_each_problem() {
    let mut m = manifest();
    m.version = 2;
    assert_eq!(validate_manifest(&m), Err(ManifestError::UnsupportedVersion));
    let mut m = manifest();
    m.width = 720;
    assert_eq!(validate_manifest(&m), Err(ManifestError::Dimensions));
    let mut m = manifest();
    m.fps = 90;
    assert_eq!(validate_manifest(&m), Err(ManifestError::FrameRate));
    let mut m = manifest();
    m.output_path = "/tmp/output.mov".to_owned();
    assert_eq!(validate_manifest(&m), Err(ManifestError::OutputNotMp4));
    let mut m = manifest();
    m.layout = "mosaic".to_owned();
    assert_eq!(validate_manifest(&m), Err(ManifestError::UnsupportedLayout));
    let mut m = manifest();
    m.hook_text = Some("x".repeat(161));
    assert_eq!(validate_manifest(&m), Err(ManifestError::HookTooLong));
    let mut m = manifest();
    m.captions[0].end_ms = 20_000;
    assert_eq!(validate_manifest(&m), Err(ManifestError::CueOutsideClip));
    assert!(validate_manifest(&manifest()).is_ok());
}

#[test]
fn built_manifest_clamps_the_cut_to_the_candidate() {
    let candidate = Candidate {
        id: "cand".to_owned(),
        session_id: "session".to_owned(),
        channel_id: "channel".to_owned(),
        source: "twitch".to_owned(),
        source_id: "src".to_owned(),
        start_ms: 10_000,
        end_ms: 30_000,
        payoff_ms: None,
        transcript: String::new(),
        observer_confidence: 800_000,
        state: ClipState::Accepted,
    };
    let decision = EditorialDecision {
        stage: EditorialStage::Critic,
        accept: true,
        confidence: 900_000,
        rationale: "good".to_owned(),
        title: "Clip".to_owned(),
        start_ms: 5_000,
        end_ms: 25_000,
        hook_text: Some("Wait".to_owned()),
        layout: None,
        alternatives: Vec::new(),
    };
    let transcript = vec![segment(12_000, 14_000, "hello there")];
    let m = build_manifest(&candidate, &decision, "/tmp/in.mp4", "/tmp/out.mp4", &transcript).unwrap();
    assert_eq!((m.source_start_ms, m.source_end_ms), (10_000, 25_000));
    assert_eq!(m.layout, "fit_blur");
    assert_eq!(m.captions.len(), 1);
    assert_eq!((m.captions[0].start_ms, m.captions[0].end_ms), (2_000, 4_000));
    assert_eq!(m.captions[0].text, "hello there");
}

#[test]
fn an_emptied_phrase_hands_the_overlap_to_the_last_phrase_with_time() {
    let cues = build_caption_cues(
        &[
            segment(1_300, 1_500, "a"),
            segment(400, 3_000, "a"),
            segment(1_800, 4_000, "x"),
            segment(1_000, 3_500, "b"),
        ],
        0,
        20_000,
    );
    let spans = cues
        .iter()
        .map(|cue| (cue.start_ms, cue.end_ms, cue.text.clone()))
        .collect::<Vec<_>>();
    assert_eq!(
        spans,
        vec![(400, 1_900, "a".to_owned()), (1_900, 4_000, "x".to_owned())]
    );
}

#[test]
fn a_long_phrase_is_split_against_every_later_overlapping_phrase() {
    let cues = build_caption_cues(
        &[
            segment(0, 10_000, "a b c"),
            segment(100, 9_000, "c d"),
            segment(200, 300, "z"),
            segment(400, 5_000, "r"),
        ],
        0,
        20_000,
    );
    let spans = cues
        .iter()
        .map(|cue| (cue.start_ms, cue.end_ms, cue.text.clone()))
        .collect::<Vec<_>>();
    assert_eq!(
        spans,
        vec![(0, 2_700, "a b c".to_owned()), (2_700, 5_000, "r".to_owned())]
    );
    for pair in cues.windows(2) {
        assert!(pair[0].end_ms <= pair[1].start_ms);
    }
}

#[test]
fn caption_timing_fits_unless_duration_times_weight_overflows() {
    let transcript = vec![segment(0, 10_000, "a long enough caption with several words")];
    assert!(caption_timing_fits_exec(&transcript, 0, 10_000));
    let huge = vec![segment(0, i64::MAX, "ab")];
    assert!(!caption_timing_fits_exec(&huge, 0, i64::MAX));
    let long_text = "word ".repeat(200_000);
    let long = vec![segment(0, 20_000, &long_text)];
    assert!(caption_timing_fits_exec(&long, 0, 20_000));
    assert!(!build_caption_cues(&long, 0, 20_000).is_empty());
}
