use clipfarmer::domain::{Candidate, ClipState, TranscriptSegment};
use clipfarmer::timeline::{CandidateTracker, MediaRing, MediaSegment, StreamClock, TranscriptDeduper};

fn candidate(id: &str, start_ms: i64, end_ms: i64) -> Candidate {
    Candidate {
        id: id.to_owned(),
        session_id: "session".to_owned(),
        channel_id: "channel".to_owned(),
        source: "twitch".to_owned(),
        source_id: "vod".to_owned(),
        start_ms,
        end_ms,
        payoff_ms: Some(end_ms),
        transcript: String::new(),
        observer_confidence: 800_000,
        state: ClipState::Emerging,
    }
}

#[test]
fn clock_requires_a_new_epoch_after_backwards_time() {
    let mut clock = StreamClock::new("s".to_owned());
    clock.observe(10_000).unwrap();
    assert!(clock.observe(9_000).is_err());
    clock.discontinuity(0, "reconnect".to_owned());
    clock.observe(100).unwrap();
    assert_eq!(clock.epoch(), 1);
}

#[test]
fn overlapping_transcript_is_deduplicated() {
    let mut deduper = TranscriptDeduper::default();
    let mut segment = TranscriptSegment {
        session_id: "s".to_owned(),
        start_ms: 0,
        end_ms: 5_000,
        text: "No way!".to_owned(),
        confidence: Some(900_000),
        no_speech_probability: None,
        is_final: true,
    };
    assert!(deduper.insert(segment.duplicate()));
    segment.start_ms = 4_000;
    segment.end_ms = 7_000;
    segment.text = " no  way ".to_owned();
    assert!(!deduper.insert(segment));
}

#[test]
fn candidate_waits_for_delayed_reaction() {
    let mut tracker = CandidateTracker::new(20);
    tracker.observe(candidate("a", 0, 30_000));
    assert!(tracker.mature(49_999).is_empty());
    assert_eq!(tracker.mature(50_000).len(), 1);
}

#[test]
fn clock_reports_session_and_time() {
    let mut clock = StreamClock::new("session-1".to_owned());
    assert_eq!(clock.session_id(), "session-1");
    clock.observe(2_500).unwrap();
    assert_eq!(clock.now_ms(), 2_500);
    clock.discontinuity(3_000, "gap".to_owned());
    assert_eq!(clock.discontinuities().len(), 1);
}

#[test]
fn media_ring_expires_old_segments_and_finds_ranges() {
    let mut ring = MediaRing::new(1);
    let seg = |epoch: u32, start_ms: i64, end_ms: i64, path: &str| MediaSegment {
        epoch,
        start_ms,
        end_ms,
        path: path.to_owned(),
    };
    assert!(ring.push(seg(0, 0, 10_000, "a")).is_empty());
    assert!(ring.push(seg(0, 10_000, 20_000, "b")).is_empty());
    let expired = ring.push(seg(0, 80_000, 90_000, "c"));
    assert_eq!(expired, vec!["a".to_owned(), "b".to_owned()]);
    assert_eq!(ring.range(0, 85_000, 86_000).len(), 1);
    assert_eq!(ring.range(1, 85_000, 86_000).len(), 0);
}

#[test]
fn tracker_keeps_immature_candidates_active() {
    let mut tracker = CandidateTracker::new(20);
    tracker.observe(candidate("a", 0, 30_000));
    assert_eq!(tracker.mature(10_000).len(), 0);
    assert_eq!(tracker.active().len(), 1);
}

#[test]
fn a_kept_segment_is_refused_when_it_arrives_again() {
    let make = || TranscriptSegment {
        session_id: "s".to_owned(),
        start_ms: 1_000,
        end_ms: 2_000,
        text: "  what   a play ".to_owned(),
        confidence: None,
        no_speech_probability: None,
        is_final: true,
    };
    let mut deduper = TranscriptDeduper::new();
    assert!(deduper.insert(make()));
    assert!(!deduper.insert(make()));
    assert_eq!(deduper.segments().len(), 1);
    assert_eq!(deduper.segments()[0].text, "what a play");
}

#[test]
fn discontinuities_are_numbered_by_epoch_and_the_clock_follows_the_latest() {
    let mut clock = StreamClock::new("session-9".to_owned());
    assert!(clock.observe(1_000).is_ok());
    clock.discontinuity(500, "restart".to_owned());
    assert!(clock.observe(400).is_err());
    assert!(clock.observe(600).is_ok());
    clock.discontinuity(100, "reconnect".to_owned());
    assert_eq!(clock.epoch(), 2);
    let recorded = clock.discontinuities();
    assert_eq!(recorded.len(), 2);
    assert_eq!((recorded[0].epoch, recorded[0].at_ms), (1, 500));
    assert_eq!((recorded[1].epoch, recorded[1].at_ms), (2, 100));
    assert!(clock.now_ms() >= recorded[1].at_ms);
    assert_eq!(clock.session_id(), "session-9");
}
