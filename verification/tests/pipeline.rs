use clipfarmer::pipeline::{final_maturation_ms, review_evidence_bounds};
use clipfarmer::pipeline::{final_live_scan, live_action, live_poll_seconds, LiveAction};
use clipfarmer::pipeline::{add_summary, validate_vod_window, VodWindowError};
use clipfarmer::publishers::valid_twitch_login;
use clipfarmer::domain::{ClipState, EditorialDecision, EditorialStage, TranscriptSegment};
use clipfarmer::pipeline::{
    candidate_from_observer, candidate_with_id, display_location, hash_author, scan_windows, short_id, source_id_of,
    total_windows, RunSummary, ScanError,
};

fn observer(start_ms: i64, end_ms: i64) -> EditorialDecision {
    EditorialDecision {
        stage: EditorialStage::Observer,
        accept: true,
        confidence: 700_000,
        rationale: "r".to_owned(),
        title: "t".to_owned(),
        start_ms,
        end_ms,
        hook_text: None,
        layout: None,
        alternatives: Vec::new(),
    }
}

fn segment(start_ms: i64, end_ms: i64, text: &str) -> TranscriptSegment {
    TranscriptSegment {
        session_id: "s".to_owned(),
        start_ms,
        end_ms,
        text: text.to_owned(),
        confidence: None,
        no_speech_probability: None,
        is_final: true,
    }
}

#[test]
fn identifiers_are_shortened_for_display() {
    assert_eq!(short_id("0123456789abcdef"), "01234567");
    assert_eq!(short_id("abc"), "abc");
    assert_eq!(short_id("abcdeféz"), "abcdefé");
    assert_eq!(short_id("abcdefgéz"), "abcdefgéz");
    assert_eq!(display_location("https://bucket/x.mp4"), "remote HTTPS object ready");
    assert_eq!(display_location("/tmp/x.mp4"), "/tmp/x.mp4");
}

#[test]
fn scans_observe_every_step_up_to_the_end() {
    let windows = scan_windows(30_000, 0, 6, 12).unwrap();
    assert_eq!(windows, vec![(-6_000, 6_000), (0, 12_000), (6_000, 18_000), (12_000, 24_000), (18_000, 30_000)]);
    assert_eq!(total_windows(30_000, 6_000, 6_000), windows.len() as i64);
    let resumed = scan_windows(20_000, 15_000, 6, 12).unwrap();
    assert_eq!(resumed, vec![(8_000, 20_000)]);
    assert_eq!(scan_windows(4_999, 0, 6, 12), Err(ScanError::TooShort));
}

#[test]
fn observer_verdicts_become_candidates() {
    let transcripts = vec![segment(0, 2_000, "before"), segment(3_000, 6_000, "during"), segment(20_000, 21_000, "after")];
    let c = candidate_with_id("id-1".to_owned(), "s", "ch", "src", &transcripts, &observer(4_000, 5_000), 100_000).unwrap();
    assert_eq!((c.start_ms, c.end_ms), (4_000, 9_000));
    assert_eq!(c.transcript, "during");
    assert_eq!(c.payoff_ms, Some(9_000));
    assert_eq!(c.state, ClipState::Emerging);
    assert!(candidate_with_id("id".to_owned(), "s", "ch", "src", &transcripts, &observer(0, 90_000), 100_000).is_none());
    let fresh = candidate_from_observer("s", "ch", "src", &transcripts, &observer(0, 10_000), 100_000).unwrap();
    assert_eq!(fresh.id.len(), 36);
    assert_eq!(fresh.transcript, "before during");
}

#[test]
fn fingerprints_are_sha256_hex() {
    assert_eq!(hash_author("abc"), "ba7816bf8f01cfea");
    assert_eq!(source_id_of("abc"), "ba7816bf8f01cfea414140de5dae2223b00361a396177a9cb410ff61f20015ad");
}

#[test]
fn run_summaries_start_empty() {
    let s = RunSummary::default();
    assert_eq!(s.windows_observed + s.posts_completed + s.publish_failures, 0);
}

#[test]
fn vod_slice_validation_requires_a_bounded_five_second_window() {
    assert_eq!(validate_vod_window(120_000, 30_000, 45_000), Ok(()));
    assert_eq!(validate_vod_window(120_000, -1, 45_000), Err(VodWindowError::NegativeStart));
    assert_eq!(validate_vod_window(120_000, 45_000, 45_000), Err(VodWindowError::EndNotAfterStart));
    assert_eq!(validate_vod_window(120_000, 30_000, 34_999), Err(VodWindowError::TooShort));
    assert_eq!(validate_vod_window(120_000, 30_000, 120_001), Err(VodWindowError::BeyondVod));
}

#[test]
fn summaries_add_field_by_field() {
    let mut total = RunSummary {
        windows_observed: 1,
        candidates_reviewed: 2,
        candidates_accepted: 3,
        candidates_rejected: 4,
        posts_completed: 5,
        publish_failures: 6,
    };
    let pass = total;
    add_summary(&mut total, &pass);
    assert_eq!(
        total,
        RunSummary {
            windows_observed: 2,
            candidates_reviewed: 4,
            candidates_accepted: 6,
            candidates_rejected: 8,
            posts_completed: 10,
            publish_failures: 12,
        }
    );
}

#[test]
fn channel_validation_rejects_values_that_could_escape_source_paths() {
    assert!(valid_twitch_login("streamer_42"));
    assert!(!valid_twitch_login(""));
    assert!(!valid_twitch_login("streamer/name"));
    assert!(!valid_twitch_login("streamer name"));
}

#[test]
fn live_passes_wait_for_a_full_step_and_rewind_two_minutes() {

    assert_eq!(live_action(0, 5_000, 6), LiveAction::Wait { missing_ms: 1_000 });
    assert_eq!(live_action(0, 6_000, 6), LiveAction::Scan { start_ms: -120_000 });
    assert_eq!(live_action(300_000, 310_000, 6), LiveAction::Scan { start_ms: 180_000 });
    assert_eq!(live_action(300_000, 0, u64::MAX), LiveAction::Wait { missing_ms: i64::MAX });
    assert_eq!(final_live_scan(300_000, 300_001), Some(180_000));
    assert_eq!(final_live_scan(300_000, 300_000), None);
    assert_eq!(live_poll_seconds(2), 5);
    assert_eq!(live_poll_seconds(10), 10);
}

#[test]
fn reviews_see_thirty_seconds_around_the_candidate() {
    assert_eq!(review_evidence_bounds(45_000, 60_000), (15_000, 90_000));
    assert_eq!(review_evidence_bounds(10_000, 20_000), (0, 50_000));
    assert_eq!(review_evidence_bounds(0, i64::MAX), (0, i64::MAX));
}

#[test]
fn candidates_finish_maturing_one_delay_after_the_media() {
    assert_eq!(final_maturation_ms(600_000, 20), 620_000);
    assert_eq!(final_maturation_ms(600_000, u64::MAX), 599_000);
    assert_eq!(final_maturation_ms(i64::MAX - 1, 20), i64::MAX);
}
