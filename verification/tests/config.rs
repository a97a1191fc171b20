use clipfarmer::config::{planned_publishers, PlannedPublisher, PublishPlatform, PublisherConfig, StagingConfig, StagingKind};
use clipfarmer::cli_config;
use clipfarmer::config::{Config, ConfigError, ModelProvider, ScribbleModel};

#[test]
fn default_config_validates_for_both_model_providers() {
    let mut config = Config::default();
    for provider in [ModelProvider::OpenAi, ModelProvider::Gemini] {
        config.models.provider = provider;
        config.validate().unwrap();
    }
}

#[test]
fn gemini_requires_3_7_flash_for_every_role() {
    let mut config = Config::default();
    config.models.provider = ModelProvider::Gemini;
    config.gemini.observer_model = "gemini-3.8-flash".to_owned();
    assert!(config.validate().is_err());
}

#[test]
fn defaults_match_the_former_example_configuration() {
    let config = Config::default();
    assert_eq!(config.worker.poll_seconds, 10);
    assert_eq!(config.models.provider, ModelProvider::Gemini);
    assert_eq!(config.scribble.model_variant, ScribbleModel::LargeTurbo);
    assert!(config.publishers.dry_run);
    assert!(config.publishers.youtube);
    assert!(!config.publishers.instagram);
    assert!(!config.publishers.tiktok_drafts);
    assert!(!config.publishers.twitch_clips);
    assert_eq!(config.scribble.model_path, "models/ggml-large-v3-turbo-q5_0.bin");
}

#[test]
fn validation_names_the_first_broken_rule() {
    let mut c = Config::default();
    c.worker.observer_step_seconds = 0;
    assert_eq!(c.validate(), Err(ConfigError::ObserverStepNotPositive));
    let mut c = Config::default();
    c.worker.observer_window_seconds = 3;
    assert_eq!(c.validate(), Err(ConfigError::ObserverWindowShorterThanStep));
    let mut c = Config::default();
    c.worker.queue_capacity = 0;
    assert_eq!(c.validate(), Err(ConfigError::QueueCapacityZero));
    let mut c = Config::default();
    c.scribble.model_path = String::new();
    assert_eq!(c.validate(), Err(ConfigError::EmptyScribbleModelPath));
    let mut c = Config::default();
    c.scribble.vad_model_path = String::new();
    assert_eq!(c.validate(), Err(ConfigError::EmptyScribbleVadModelPath));
    let mut c = Config::default();
    c.scribble.incremental_min_window_seconds = 0;
    assert_eq!(c.validate(), Err(ConfigError::ScribbleWindowZero));
    let mut c = Config::default();
    c.models.provider = ModelProvider::OpenAi;
    c.openai.observer_model = "other".to_owned();
    assert_eq!(c.validate(), Err(ConfigError::OpenAiObserverModel));
    let mut c = Config::default();
    c.models.provider = ModelProvider::OpenAi;
    c.openai.critic_model = "other".to_owned();
    assert_eq!(c.validate(), Err(ConfigError::OpenAiEditorialModels));
    let mut c = Config::default();
    c.models.provider = ModelProvider::OpenAi;
    c.openai.audio_model = "other".to_owned();
    assert_eq!(c.validate(), Err(ConfigError::OpenAiAudioModel));
    assert_eq!(ConfigError::GeminiModels.message(), "Gemini observer, director, editor, critic, and audio models must use gemini-3.7-flash");
}

#[test]
fn database_lives_in_the_data_directory() {
    let mut c = Config::default();
    assert_eq!(c.db_path(), "./data/clipfarmer.sqlite3");
    c.data_dir = "/var/lib/clips/".to_owned();
    assert_eq!(c.db_path(), "/var/lib/clips/clipfarmer.sqlite3");
    c.data_dir = String::new();
    assert_eq!(c.db_path(), "clipfarmer.sqlite3");
}

#[test]
fn command_line_configuration_defaults_and_rules() {
    let c = cli_config::Config::default();
    assert_eq!(c.worker.poll_seconds, 5);
    assert!(c.publishers.instagram && c.publishers.tiktok_drafts);
    assert_eq!(c.whisper.executable, "whisper-cli");
    assert!(c.validate().is_ok());
    assert_eq!(c.db_path(), "./data/clipfarmer.sqlite3");
    let mut bad = cli_config::Config::default();
    bad.openai.director_model = "x".to_owned();
    assert_eq!(bad.validate(), Err(cli_config::CliConfigError::EditorialModels));
}

#[test]
fn deterministic_mode_builds_fake_publishers_without_provider_credentials() {
    let mut publishers = PublisherConfig::default();
    publishers.dry_run = true;
    publishers.youtube = true;
    publishers.instagram = false;
    publishers.tiktok_drafts = false;
    publishers.twitch_clips = false;
    let plan = planned_publishers(&publishers);
    assert_eq!(plan, vec![PlannedPublisher::DryRun { platform: PublishPlatform::YouTube, draft_only: false }]);
    assert_eq!(PublishPlatform::YouTube.name(), "youtube");
}

#[test]
fn every_enabled_platform_gets_a_publisher_in_order() {
    let mut publishers = PublisherConfig::default();
    publishers.youtube = true;
    publishers.instagram = true;
    publishers.tiktok_drafts = true;
    publishers.twitch_clips = true;
    assert_eq!(
        planned_publishers(&publishers),
        vec![
            PlannedPublisher::DryRun { platform: PublishPlatform::YouTube, draft_only: false },
            PlannedPublisher::DryRun { platform: PublishPlatform::Instagram, draft_only: false },
            PlannedPublisher::DryRun { platform: PublishPlatform::TikTok, draft_only: true },
            PlannedPublisher::DryRun { platform: PublishPlatform::Twitch, draft_only: false },
        ]
    );
    publishers.dry_run = false;
    publishers.youtube = false;
    assert_eq!(
        planned_publishers(&publishers),
        vec![
            PlannedPublisher::Live(PublishPlatform::Instagram),
            PlannedPublisher::Live(PublishPlatform::TikTok),
            PlannedPublisher::Live(PublishPlatform::Twitch),
        ]
    );
}

#[test]
fn instagram_needs_s3_or_an_https_base_url() {
    let mut staging = StagingConfig::default();
    assert!(!staging.instagram_reachable());
    staging.public_base_url = Some("http://clips.example".to_owned());
    assert!(!staging.instagram_reachable());
    staging.public_base_url = Some("https://clips.example".to_owned());
    assert!(staging.instagram_reachable());
    staging.public_base_url = None;
    staging.provider = "s3".to_owned();
    assert!(staging.instagram_reachable());
}

#[test]
fn staging_providers_are_local_or_s3() {
    let mut staging = StagingConfig::default();
    assert_eq!(staging.kind(), Some(StagingKind::Local));
    staging.provider = "s3".to_owned();
    assert_eq!(staging.kind(), Some(StagingKind::S3));
    staging.provider = "gcs".to_owned();
    assert_eq!(staging.kind(), None);
}

#[test]
fn hosted_defaults_sample_every_two_seconds_and_keep_sol_for_the_critic() {
    let c = Config::default();
    assert_eq!(c.media.frame_interval_seconds, 2);
    assert_eq!(c.openai.observer_model, "gpt-5.6-terra");
    assert_eq!(c.openai.director_model, "gpt-5.6-terra");
    assert_eq!(c.openai.editor_model, "gpt-5.6-terra");
    assert_eq!(c.openai.critic_model, "gpt-5.6-sol");
    let mut c = Config::default();
    c.models.provider = ModelProvider::OpenAi;
    assert!(c.validate().is_ok());
    c.openai.director_model = "gpt-5.6-sol".to_owned();
    assert_eq!(c.validate(), Err(ConfigError::OpenAiEditorialModels));
    assert_eq!(
        ConfigError::OpenAiEditorialModels.message(),
        "OpenAI director and editor must use gpt-5.6-terra and the critic gpt-5.6-sol"
    );
}
