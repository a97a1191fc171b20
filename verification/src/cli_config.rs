//! Configuration of the command-line pipeline, which transcribes with an external whisper
//! executable and uses OpenAI models only.
use vstd::prelude::*;
use crate::config::{
    default_api_key_env, default_attempts, default_audio_model, default_bucket, default_data_dir,
    default_maturation_delay, default_observer_model, default_observer_step, default_observer_window,
    default_prefix, default_queue_capacity, default_ring_minutes, default_s3_endpoint_env,
    default_staging_provider, default_true, instagram_account_env, instagram_token_env, join_path, join_path_exec,
    openai_audio, openai_critic, openai_observer, tiktok_token_env, twitch_client_env, twitch_token_env,
    youtube_token_env, MediaConfig, OpenAiConfig, StagingConfig,
};
use crate::text::str_eq;

verus! {

/// Where the command-line pipeline keeps its data and which tools and models it uses.
pub struct Config {
    pub data_dir: String,
    pub worker: WorkerConfig,
    pub media: MediaConfig,
    pub whisper: WhisperConfig,
    pub openai: OpenAiConfig,
    pub staging: StagingConfig,
    pub publishers: PublisherConfig,
}

/// Polling, retry, buffering and observation cadence.
pub struct WorkerConfig {
    pub poll_seconds: u64,
    pub max_attempts: u32,
    pub ring_minutes: u64,
    pub observer_window_seconds: u64,
    pub observer_step_seconds: u64,
    pub maturation_delay_seconds: u64,
    pub queue_capacity: usize,
}

/// The external whisper transcriber.
pub struct WhisperConfig {
    pub executable: String,
    pub model_path: String,
    pub threads: usize,
    pub language: String,
}

/// Which platforms receive clips, and where their credentials come from.
pub struct PublisherConfig {
    pub dry_run: bool,
    pub youtube: bool,
    pub instagram: bool,
    pub tiktok_drafts: bool,
    pub twitch_clips: bool,
    pub youtube_token_env: String,
    pub instagram_token_env: String,
    pub instagram_account_env: String,
    pub tiktok_token_env: String,
    pub twitch_token_env: String,
    pub twitch_client_id_env: String,
    pub twitch_broadcaster_id_env: String,
}

fn default_poll() -> (n: u64)
    ensures
        n == 5,
{
    5
}

fn default_whisper_executable() -> (s: String)
    ensures
        s@ == "whisper-cli"@,
{
    "whisper-cli".to_owned()
}

fn default_whisper_model() -> (s: String)
    ensures
        s@ == "models/ggml-large-v3-turbo.bin"@,
{
    "models/ggml-large-v3-turbo.bin".to_owned()
}

fn default_whisper_threads() -> (n: usize)
    ensures
        n == 4,
{
    4
}

fn default_whisper_language() -> (s: String)
    ensures
        s@ == "auto"@,
{
    "auto".to_owned()
}

fn twitch_broadcaster_env() -> (s: String)
    ensures
        s@ == "TWITCH_BROADCASTER_ID"@,
{
    "TWITCH_BROADCASTER_ID".to_owned()
}

impl Default for WorkerConfig {
    fn default() -> (c: Self)
        ensures
            c.poll_seconds == 5,
            c.max_attempts == 4,
            c.ring_minutes == 10,
            c.observer_window_seconds == 12,
            c.observer_step_seconds == 6,
            c.maturation_delay_seconds == 20,
            c.queue_capacity == 256,
    {
        WorkerConfig {
            poll_seconds: default_poll(),
            max_attempts: default_attempts(),
            ring_minutes: default_ring_minutes(),
            observer_window_seconds: default_observer_window(),
            observer_step_seconds: default_observer_step(),
            maturation_delay_seconds: default_maturation_delay(),
            queue_capacity: default_queue_capacity(),
        }
    }
}

impl Default for WhisperConfig {
    fn default() -> (c: Self)
        ensures
            c.executable@ == "whisper-cli"@,
            c.model_path@ == "models/ggml-large-v3-turbo.bin"@,
            c.threads == 4,
            c.language@ == "auto"@,
    {
        WhisperConfig {
            executable: default_whisper_executable(),
            model_path: default_whisper_model(),
            threads: default_whisper_threads(),
            language: default_whisper_language(),
        }
    }
}

impl Default for PublisherConfig {
    fn default() -> (c: Self)
        ensures
            c.dry_run,
            c.youtube,
            c.instagram,
            c.tiktok_drafts,
            !c.twitch_clips,
            c.youtube_token_env@ == "YOUTUBE_ACCESS_TOKEN"@,
            c.instagram_token_env@ == "INSTAGRAM_ACCESS_TOKEN"@,
            c.instagram_account_env@ == "INSTAGRAM_ACCOUNT_ID"@,
            c.tiktok_token_env@ == "TIKTOK_ACCESS_TOKEN"@,
            c.twitch_token_env@ == "TWITCH_ACCESS_TOKEN"@,
            c.twitch_client_id_env@ == "TWITCH_CLIENT_ID"@,
            c.twitch_broadcaster_id_env@ == "TWITCH_BROADCASTER_ID"@,
    {
        PublisherConfig {
            dry_run: default_true(),
            youtube: default_true(),
            instagram: default_true(),
            tiktok_drafts: default_true(),
            twitch_clips: false,
            youtube_token_env: youtube_token_env(),
            instagram_token_env: instagram_token_env(),
            instagram_account_env: instagram_account_env(),
            tiktok_token_env: tiktok_token_env(),
            twitch_token_env: twitch_token_env(),
            twitch_client_id_env: twitch_client_env(),
            twitch_broadcaster_id_env: twitch_broadcaster_env(),
        }
    }
}

impl Default for Config {
    fn default() -> (c: Self)
        ensures
            c.data_dir@ == "./data"@,
            c.worker.poll_seconds == 5,
            c.worker.observer_window_seconds == 12,
            c.worker.observer_step_seconds == 6,
            c.worker.queue_capacity == 256,
            c.whisper.model_path@ == "models/ggml-large-v3-turbo.bin"@,
            c.openai.observer_model@ == openai_observer(),
            c.openai.director_model@ == openai_observer(),
            c.openai.editor_model@ == openai_observer(),
            c.openai.critic_model@ == openai_critic(),
            c.openai.audio_model@ == openai_audio(),
            c.publishers.dry_run,
    {
        Config {
            data_dir: default_data_dir(),
            worker: WorkerConfig::default(),
            media: MediaConfig::default(),
            whisper: WhisperConfig::default(),
            openai: OpenAiConfig::default(),
            staging: StagingConfig::default(),
            publishers: PublisherConfig::default(),
        }
    }
}

/// Why a command-line configuration was refused.
#[derive(Debug, Clone, Copy, PartialEq, Eq, Structural)]
pub enum CliConfigError {
    ObserverStepNotPositive,
    ObserverWindowShorterThanStep,
    QueueCapacityZero,
    ObserverModel,
    EditorialModels,
    AudioModel,
}

impl CliConfigError {
    /// The explanation shown to the operator.
    pub fn message(&self) -> (m: &'static str)
        ensures
            m@ == cli_config_error_message(*self),
    {
        match self {
            CliConfigError::ObserverStepNotPositive => "observer step must be positive",
            CliConfigError::ObserverWindowShorterThanStep => "observer window must be at least one observer step",
            CliConfigError::QueueCapacityZero => "queue capacity must be positive",
            CliConfigError::ObserverModel => "observer model must be gpt-5.6-terra for this architecture",
            CliConfigError::EditorialModels => "director and editor must use gpt-5.6-terra and the critic gpt-5.6-sol",
            CliConfigError::AudioModel => "audio model must be gpt-audio-1.5",
        }
    }
}

/// The explanation of each refusal.
pub open spec fn cli_config_error_message(e: CliConfigError) -> Seq<char> {
    match e {
        CliConfigError::ObserverStepNotPositive => "observer step must be positive"@,
        CliConfigError::ObserverWindowShorterThanStep => "observer window must be at least one observer step"@,
        CliConfigError::QueueCapacityZero => "queue capacity must be positive"@,
        CliConfigError::ObserverModel => "observer model must be gpt-5.6-terra for this architecture"@,
        CliConfigError::EditorialModels => "director and editor must use gpt-5.6-terra and the critic gpt-5.6-sol"@,
        CliConfigError::AudioModel => "audio model must be gpt-audio-1.5"@,
    }
}

/// The first rule `c` breaks, in the order the rules are checked, or none.
pub open spec fn cli_config_problem(c: &Config) -> Option<CliConfigError> {
    if c.worker.observer_step_seconds == 0 {
        Some(CliConfigError::ObserverStepNotPositive)
    } else if c.worker.observer_window_seconds < c.worker.observer_step_seconds {
        Some(CliConfigError::ObserverWindowShorterThanStep)
    } else if c.worker.queue_capacity == 0 {
        Some(CliConfigError::QueueCapacityZero)
    } else if c.openai.observer_model@ != openai_observer() {
        Some(CliConfigError::ObserverModel)
    } else if c.openai.director_model@ != openai_observer() || c.openai.editor_model@ != openai_observer()
        || c.openai.critic_model@ != openai_critic() {
        Some(CliConfigError::EditorialModels)
    } else if c.openai.audio_model@ != openai_audio() {
        Some(CliConfigError::AudioModel)
    } else {
        None
    }
}

impl Config {
    /// Checks the configuration, naming the first rule it breaks.
    pub fn validate(&self) -> (r: Result<(), CliConfigError>)
        ensures
            match cli_config_problem(self) {
                None => r is Ok,
                Some(e) => r == Err::<(), CliConfigError>(e),
            },
    {
        if self.worker.observer_step_seconds == 0 {
            return Err(CliConfigError::ObserverStepNotPositive);
        }
        if self.worker.observer_window_seconds < self.worker.observer_step_seconds {
            return Err(CliConfigError::ObserverWindowShorterThanStep);
        }
        if self.worker.queue_capacity == 0 {
            return Err(CliConfigError::QueueCapacityZero);
        }
        if !str_eq(self.openai.observer_model.as_str(), "gpt-5.6-terra") {
            return Err(CliConfigError::ObserverModel);
        }
        if !(str_eq(self.openai.director_model.as_str(), "gpt-5.6-terra") && str_eq(
            self.openai.editor_model.as_str(),
            "gpt-5.6-terra",
        ) && str_eq(self.openai.critic_model.as_str(), "gpt-5.6-sol")) {
            return Err(CliConfigError::EditorialModels);
        }
        if !str_eq(self.openai.audio_model.as_str(), "gpt-audio-1.5") {
            return Err(CliConfigError::AudioModel);
        }
        Ok(())
    }

    /// The SQLite database inside the data directory.
    pub fn db_path(&self) -> (p: String)
        ensures
            p@ == join_path(self.data_dir@, "clipfarmer.sqlite3"@),
    {
        join_path_exec(self.data_dir.as_str(), "clipfarmer.sqlite3")
    }
}

} // verus!
