use clipfarmer::domain::ClipState;
use clipfarmer::production::{
    failure_line, failure_report, finished_state, next_production_state, platforms_to_publish, publish_job_id,
    publish_key, record_retry, record_review, retry_verdict, ReviewEvent, RetryVerdict,
};
use clipfarmer::pipeline::RunSummary;

#[test]
fn production_moves_from_acceptance_through_rendering_and_staging_to_publishing() {
    assert_eq!(next_production_state(ClipState::Accepted), Some(ClipState::Rendered));
    assert_eq!(next_production_state(ClipState::Rendered), Some(ClipState::Staged));
    assert_eq!(next_production_state(ClipState::Staged), Some(ClipState::Publishing));
    assert_eq!(next_production_state(ClipState::Publishing), None);
    assert_eq!(next_production_state(ClipState::Ready), None);
}

#[test]
fn a_publishing_candidate_ends_published_or_awaiting_its_creator_once_all_jobs_are_done() {
    assert_eq!(finished_state(false, true), None);
    assert_eq!(finished_state(false, false), None);
    assert_eq!(finished_state(true, true), Some(ClipState::AwaitingCreator));
    assert_eq!(finished_state(true, false), Some(ClipState::Published));
}

#[test]
fn publish_jobs_and_keys_name_the_platform() {
    assert_eq!(publish_job_id("youtube", "c1"), "youtube-c1");
    assert_eq!(publish_key("tiktok", "vod:v1:1000:2000"), "tiktok:vod:v1:1000:2000");
}

#[test]
fn completed_posts_are_never_submitted_again() {
    let platforms = vec!["youtube".to_owned(), "instagram".to_owned(), "tiktok".to_owned(), "twitch".to_owned()];
    assert_eq!(platforms_to_publish(&platforms, &[true, false, true, false]), vec![1, 3]);
    assert_eq!(platforms_to_publish(&platforms, &[true, true, true, true]), Vec::<usize>::new());
    assert_eq!(platforms_to_publish(&platforms, &[false, false, false, false]), vec![0, 1, 2, 3]);
}

#[test]
fn failed_platforms_are_reported_together() {
    assert_eq!(failure_report(&Vec::new()), None);
    let failures = vec![failure_line("youtube", "quota"), failure_line("tiktok", "expired token")];
    assert_eq!(
        failure_report(&failures),
        Some("one or more publishers failed: youtube: quota; tiktok: expired token".to_owned())
    );
}

#[test]
fn stored_candidates_are_retried_within_the_attempt_budget() {
    assert_eq!(retry_verdict(5, 4, true), RetryVerdict::Exhausted);
    assert_eq!(retry_verdict(5, 4, true).failure_reason(), Some("retry budget exhausted"));
    assert_eq!(retry_verdict(2, 4, false), RetryVerdict::MissingDecision);
    assert_eq!(retry_verdict(2, 4, false).failure_reason(), Some("stored critic decision is missing"));
    assert_eq!(retry_verdict(4, 4, true), RetryVerdict::Retry);
    assert_eq!(retry_verdict(4, 4, true).failure_reason(), None);
}

#[test]
fn the_run_summary_counts_reviews_posts_and_failures() {
    let mut s = RunSummary::default();
    assert!(!record_review(&mut s, ReviewEvent::AlreadyStored));
    assert_eq!(s, RunSummary::default());
    assert!(record_review(&mut s, ReviewEvent::Reviewed { accepted: true }));
    assert!(!record_review(&mut s, ReviewEvent::Reviewed { accepted: false }));
    assert!(!record_review(&mut s, ReviewEvent::Published { posts: 3 }));
    assert!(!record_review(&mut s, ReviewEvent::PublishFailed));
    assert_eq!((s.candidates_reviewed, s.candidates_accepted, s.candidates_rejected), (2, 1, 1));
    assert_eq!((s.posts_completed, s.publish_failures), (3, 1));
}

#[test]
fn an_exhausted_candidate_counts_as_a_failure_and_a_retried_one_does_not() {
    let mut s = RunSummary::default();
    assert_eq!(record_retry(&mut s, 5, 4, true), RetryVerdict::Exhausted);
    assert_eq!(s.publish_failures, 1);
    assert_eq!(record_retry(&mut s, 1, 4, false), RetryVerdict::MissingDecision);
    assert_eq!(s.publish_failures, 2);
    assert_eq!(record_retry(&mut s, 1, 4, true), RetryVerdict::Retry);
    assert_eq!(s.publish_failures, 2);
}
