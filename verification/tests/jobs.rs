use clipfarmer::jobs::{queued_snapshot, validate_source, JobEnding, JobManager, JobSource, JobStatus, ModelPaths};
use clipfarmer::pipeline::RunSummary;
use clipfarmer::config::Config;

fn paths() -> ModelPaths {
    ModelPaths {
        large_turbo_transcription: "large".to_owned(),
        tiny_transcription: "tiny".to_owned(),
        voice_activity_detection: "vad".to_owned(),
    }
}

#[test]
fn validates_channel_and_vod_sources() {
    assert!(validate_source(&JobSource::Channel { channel: "twitch_dev".into() }).is_ok());
    assert!(validate_source(&JobSource::Channel { channel: "bad/name".into() }).is_err());
    assert!(validate_source(&JobSource::Vod { url: "https://www.twitch.tv/videos/123".into() }).is_ok());
    assert!(validate_source(&JobSource::Vod { url: "https://example.com/123".into() }).is_err());
    assert!(validate_source(&JobSource::VodSlice {
        url: "https://www.twitch.tv/videos/123".into(),
        start_ms: 30_000,
        end_ms: 45_000,
    })
    .is_ok());
    assert!(validate_source(&JobSource::VodSlice {
        url: "https://www.twitch.tv/videos/123".into(),
        start_ms: 30_000,
        end_ms: 34_999,
    })
    .is_err());
}

#[test]
fn source_errors_say_what_is_wrong() {
    assert_eq!(validate_source(&JobSource::Channel { channel: String::new() }), Err("invalid Twitch channel login".to_owned()));
    assert_eq!(validate_source(&JobSource::Vod { url: "http://twitch.tv/videos/1".into() }), Err("invalid Twitch VOD URL".to_owned()));
    assert_eq!(
        validate_source(&JobSource::VodSlice { url: "https://twitch.tv/videos/1".into(), start_ms: -1, end_ms: 10_000 }),
        Err("invalid Twitch VOD slice".to_owned())
    );
}

#[test]
fn jobs_read_back_cancel_and_finish() {
    let mut manager = JobManager::new("/jobs".to_owned(), paths());
    let first = queued_snapshot("a".to_owned(), JobSource::Channel { channel: "dev".to_owned() }, "/jobs/a".to_owned(), 10);
    manager.insert(first);
    let second = queued_snapshot("b".to_owned(), JobSource::Vod { url: "https://twitch.tv/videos/1".to_owned() }, "/jobs/b".to_owned(), 20);
    manager.insert(second);
    let a = manager.get("a").unwrap();
    assert_eq!(a.status, JobStatus::Queued);
    assert_eq!(a.channel.as_deref(), Some("dev"));
    assert_eq!(a.progress.phase, "queued");
    assert_eq!(manager.get("zzz").unwrap_err(), "unknown clipping job zzz");

    manager.mark_running("a");
    assert_eq!(manager.get("a").unwrap().status, JobStatus::Running);
    let cancelled = manager.cancel("a").unwrap();
    assert_eq!(cancelled.status, JobStatus::Cancelling);
    assert_eq!(cancelled.progress.message, "Stopping clipping job");
    manager.finish("a", JobEnding::Cancelled, 99);
    assert_eq!(manager.get("a").unwrap().status, JobStatus::Cancelled);
    assert_eq!(manager.cancel("a").unwrap().status, JobStatus::Cancelled);

    let summary = RunSummary {
        windows_observed: 3,
        candidates_reviewed: 1,
        candidates_accepted: 1,
        candidates_rejected: 0,
        posts_completed: 1,
        publish_failures: 0,
    };
    manager.finish("b", JobEnding::Completed { channel: "dev".to_owned(), summary }, 100);
    let b = manager.get("b").unwrap();
    assert_eq!(b.status, JobStatus::Completed);
    assert_eq!(b.summary, Some(summary));
    assert_eq!(b.finished_at_ms, Some(100));

    let listed = manager.list();
    assert_eq!(listed.iter().map(|j| j.id.as_str()).collect::<Vec<_>>(), ["b", "a"]);
}

#[test]
fn failed_jobs_keep_their_error() {
    let mut manager = JobManager::new("/jobs".to_owned(), paths());
    manager.insert(queued_snapshot("x".to_owned(), JobSource::Channel { channel: "dev".to_owned() }, "/o".to_owned(), 1));
    manager.finish("x", JobEnding::Failed { error: "boom".to_owned() }, 5);
    let x = manager.get("x").unwrap();
    assert_eq!(x.status, JobStatus::Failed);
    assert_eq!(x.error.as_deref(), Some("boom"));
    assert_eq!(x.progress.phase, "failed");
}

#[test]
fn started_jobs_are_queued_under_a_fresh_id_and_read_back() {
    let mut manager = JobManager::new("/jobs".to_owned(), paths());
    assert_eq!(manager.jobs_root(), "/jobs");
    let config = Config::default();
    let first = manager
        .start(JobSource::Channel { channel: "twitch_dev".into() }, &config, 7)
        .unwrap();
    assert_eq!(first.id.len(), 36);
    assert_eq!(first.status, JobStatus::Queued);
    assert_eq!(first.channel.as_deref(), Some("twitch_dev"));
    assert_eq!(first.output_dir, format!("/jobs/{}/outputs", first.id));
    assert_eq!(first.created_at_ms, 7);
    let second = manager
        .start(JobSource::Vod { url: "https://twitch.tv/videos/42".into() }, &config, 8)
        .unwrap();
    assert_ne!(first.id, second.id);
    assert_eq!(manager.get(&first.id).unwrap().created_at_ms, 7);
    assert_eq!(manager.get(&second.id).unwrap().created_at_ms, 8);
    assert_eq!(manager.list().len(), 2);
}

#[test]
fn refused_jobs_add_nothing() {
    let mut manager = JobManager::new("/jobs/".to_owned(), paths());
    let config = Config::default();
    let bad_source = manager.start(JobSource::Channel { channel: "bad/name".into() }, &config, 1);
    assert_eq!(bad_source.unwrap_err(), "invalid Twitch channel login");
    let mut broken = Config::default();
    broken.worker.queue_capacity = 0;
    let bad_config = manager.start(JobSource::Channel { channel: "ok".into() }, &broken, 1);
    assert_eq!(bad_config.unwrap_err(), "invalid clipping configuration: queue capacity must be positive");
    assert!(manager.list().is_empty());
    let job = manager.start(JobSource::Channel { channel: "ok".into() }, &config, 1).unwrap();
    assert_eq!(job.output_dir, format!("/jobs/{}/outputs", job.id));
}

#[test]
fn a_job_started_under_a_given_id_is_queued_and_takes_that_ids_place() {
    let mut manager = JobManager::new("/jobs".to_owned(), paths());
    assert_eq!(manager.model_paths().tiny_transcription, "tiny");
    let config = Config::default();
    let first = manager
        .start_with_id("job-1".to_owned(), JobSource::Channel { channel: "one".into() }, &config, 1)
        .unwrap();
    assert_eq!(first.id, "job-1");
    assert_eq!(first.output_dir, "/jobs/job-1/outputs");
    let again = manager
        .start_with_id("job-1".to_owned(), JobSource::Channel { channel: "two".into() }, &config, 2)
        .unwrap();
    assert_eq!(again.channel.as_deref(), Some("two"));
    assert_eq!(manager.list().len(), 1);
    assert_eq!(manager.get("job-1").unwrap().created_at_ms, 2);
    let refused = manager.start_with_id("job-2".to_owned(), JobSource::Vod { url: "https://example.com".into() }, &config, 3);
    assert_eq!(refused.unwrap_err(), "invalid Twitch VOD URL");
    assert_eq!(manager.list().len(), 1);
}
