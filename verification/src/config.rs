//! Pipeline configuration: defaults, validation and derived paths.
use vstd::prelude::*;
use crate::text::{chars_of, spec_starts_with, str_eq, str_starts_with, string_of};

verus! {

/// Where the pipeline keeps its data and which workers, tools, models and publishers it uses.
pub struct Config {
    pub data_dir: String,
    pub worker: WorkerConfig,
    pub media: MediaConfig,
    pub scribble: ScribbleConfig,
    pub models: ModelSelectionConfig,
    pub openai: OpenAiConfig,
    pub gemini: GeminiConfig,
    pub staging: StagingConfig,
    pub publishers: PublisherConfig,
}

/// Polling, retry, buffering and observation cadence.
pub struct WorkerConfig {
    pub poll_seconds: u64,
    pub max_attempts: u32,
    pub ring_minutes: u64,
    pub observer_window_seconds: u64,
    pub observer_step_seconds: u64,
    pub maturation_delay_seconds: u64,
    pub queue_capacity: usize,
}

/// The external media tools.
pub struct MediaConfig {
    pub ffmpeg_path: String,
    pub ffprobe_path: String,
    pub streamlink_path: String,
    pub chat_downloader_path: String,
    pub frame_interval_seconds: u64,
}

/// The local transcriber.
pub struct ScribbleConfig {
    pub model_variant: ScribbleModel,
    pub model_path: String,
    pub vad_model_path: String,
    pub enable_vad: bool,
    pub language: String,
    pub incremental_min_window_seconds: usize,
}

/// Which transcription model to run.
#[derive(Debug, Clone, Copy, PartialEq, Eq, Structural)]
pub enum ScribbleModel {
    LargeTurbo,
    Tiny,
}

/// Which hosted model family makes the editorial decisions.
#[derive(Debug, Clone, Copy, PartialEq, Eq, Structural)]
pub enum ModelProvider {
    OpenAi,
    Gemini,
}

/// The choice of model provider.
pub struct ModelSelectionConfig {
    pub provider: ModelProvider,
}

/// OpenAI models per role.
pub struct OpenAiConfig {
    pub api_key_env: String,
    pub observer_model: String,
    pub director_model: String,
    pub editor_model: String,
    pub critic_model: String,
    pub audio_model: String,
}

/// Gemini models per role.
pub struct GeminiConfig {
    pub api_key_env: String,
    pub observer_model: String,
    pub director_model: String,
    pub editor_model: String,
    pub critic_model: String,
    pub audio_model: String,
}

/// Where rendered artifacts are staged.
pub struct StagingConfig {
    pub provider: String,
    pub bucket: String,
    pub prefix: String,
    pub public_base_url: Option<String>,
    pub endpoint_env: String,
}

/// Which platforms receive clips, and where their credentials come from.
pub struct PublisherConfig {
    pub dry_run: bool,
    pub youtube: bool,
    pub instagram: bool,
    pub tiktok_drafts: bool,
    pub twitch_clips: bool,
    pub youtube_token_env: String,
    pub instagram_token_env: String,
    pub instagram_account_env: String,
    pub tiktok_token_env: String,
    pub twitch_token_env: String,
    pub twitch_client_id_env: String,
}

pub(crate) fn default_data_dir() -> (s: String)
    ensures
        s@ == "./data"@,
{
    "./data".to_owned()
}

fn default_poll() -> (n: u64)
    ensures
        n == 10,
{
    10
}

pub(crate) fn default_attempts() -> (n: u32)
    ensures
        n == 4,
{
    4
}

pub(crate) fn default_ring_minutes() -> (n: u64)
    ensures
        n == 10,
{
    10
}

pub(crate) fn default_observer_window() -> (n: u64)
    ensures
        n == 12,
{
    12
}

pub(crate) fn default_observer_step() -> (n: u64)
    ensures
        n == 6,
{
    6
}

pub(crate) fn default_maturation_delay() -> (n: u64)
    ensures
        n == 20,
{
    20
}

pub(crate) fn default_queue_capacity() -> (n: usize)
    ensures
        n == 256,
{
    256
}

fn default_ffmpeg() -> (s: String)
    ensures
        s@ == "ffmpeg"@,
{
    "ffmpeg".to_owned()
}

fn default_ffprobe() -> (s: String)
    ensures
        s@ == "ffprobe"@,
{
    "ffprobe".to_owned()
}

fn default_streamlink() -> (s: String)
    ensures
        s@ == "streamlink"@,
{
    "streamlink".to_owned()
}

fn default_chat_downloader() -> (s: String)
    ensures
        s@ == "chat_downloader"@,
{
    "chat_downloader".to_owned()
}

fn default_frame_interval() -> (n: u64)
    ensures
        n == 2,
{
    2
}

fn default_scribble_model() -> (s: String)
    ensures
        s@ == "models/ggml-large-v3-turbo-q5_0.bin"@,
{
    "models/ggml-large-v3-turbo-q5_0.bin".to_owned()
}

fn default_scribble_vad_model() -> (s: String)
    ensures
        s@ == "models/ggml-silero-v6.2.0.bin"@,
{
    "models/ggml-silero-v6.2.0.bin".to_owned()
}

fn default_scribble_vad() -> (b: bool)
    ensures
        b,
{
    true
}

fn default_scribble_language() -> (s: String)
    ensures
        s@ == "auto"@,
{
    "auto".to_owned()
}

fn default_scribble_window() -> (n: usize)
    ensures
        n == 30,
{
    30
}

pub(crate) fn default_api_key_env() -> (s: String)
    ensures
        s@ == "OPENAI_API_KEY"@,
{
    "OPENAI_API_KEY".to_owned()
}

/// The OpenAI model this architecture observes, directs and edits with.
pub open spec fn openai_observer() -> Seq<char> {
    "gpt-5.6-terra"@
}

/// The OpenAI model kept for the final critic.
pub open spec fn openai_critic() -> Seq<char> {
    "gpt-5.6-sol"@
}

/// The OpenAI audio model.
pub open spec fn openai_audio() -> Seq<char> {
    "gpt-audio-1.5"@
}

/// The Gemini model for every role.
pub open spec fn gemini_model() -> Seq<char> {
    "gemini-3.7-flash"@
}

pub(crate) fn default_observer_model() -> (s: String)
    ensures
        s@ == openai_observer(),
{
    "gpt-5.6-terra".to_owned()
}

pub(crate) fn default_sol_model() -> (s: String)
    ensures
        s@ == openai_critic(),
{
    "gpt-5.6-sol".to_owned()
}

pub(crate) fn default_audio_model() -> (s: String)
    ensures
        s@ == openai_audio(),
{
    "gpt-audio-1.5".to_owned()
}

fn default_gemini_api_key_env() -> (s: String)
    ensures
        s@ == "GEMINI_API_KEY"@,
{
    "GEMINI_API_KEY".to_owned()
}

fn default_gemini_observer_model() -> (s: String)
    ensures
        s@ == gemini_model(),
{
    "gemini-3.7-flash".to_owned()
}

fn default_gemini_editorial_model() -> (s: String)
    ensures
        s@ == gemini_model(),
{
    "gemini-3.7-flash".to_owned()
}

fn default_gemini_audio_model() -> (s: String)
    ensures
        s@ == gemini_model(),
{
    "gemini-3.7-flash".to_owned()
}

pub(crate) fn default_staging_provider() -> (s: String)
    ensures
        s@ == "local"@,
{
    "local".to_owned()
}

pub(crate) fn default_bucket() -> (s: String)
    ensures
        s@ == "clipfarmer-artifacts"@,
{
    "clipfarmer-artifacts".to_owned()
}

pub(crate) fn default_prefix() -> (s: String)
    ensures
        s@ == "staged"@,
{
    "staged".to_owned()
}

pub(crate) fn default_s3_endpoint_env() -> (s: String)
    ensures
        s@ == "S3_ENDPOINT"@,
{
    "S3_ENDPOINT".to_owned()
}

pub(crate) fn default_true() -> (b: bool)
    ensures
        b,
{
    true
}

fn default_false() -> (b: bool)
    ensures
        !b,
{
    false
}

pub(crate) fn youtube_token_env() -> (s: String)
    ensures
        s@ == "YOUTUBE_ACCESS_TOKEN"@,
{
    "YOUTUBE_ACCESS_TOKEN".to_owned()
}

pub(crate) fn instagram_token_env() -> (s: String)
    ensures
        s@ == "INSTAGRAM_ACCESS_TOKEN"@,
{
    "INSTAGRAM_ACCESS_TOKEN".to_owned()
}

pub(crate) fn instagram_account_env() -> (s: String)
    ensures
        s@ == "INSTAGRAM_ACCOUNT_ID"@,
{
    "INSTAGRAM_ACCOUNT_ID".to_owned()
}

pub(crate) fn tiktok_token_env() -> (s: String)
    ensures
        s@ == "TIKTOK_ACCESS_TOKEN"@,
{
    "TIKTOK_ACCESS_TOKEN".to_owned()
}

pub(crate) fn twitch_token_env() -> (s: String)
    ensures
        s@ == "TWITCH_ACCESS_TOKEN"@,
{
    "TWITCH_ACCESS_TOKEN".to_owned()
}

pub(crate) fn twitch_client_env() -> (s: String)
    ensures
        s@ == "TWITCH_CLIENT_ID"@,
{
    "TWITCH_CLIENT_ID".to_owned()
}

impl Default for WorkerConfig {
    fn default() -> (c: Self)
        ensures
            c.poll_seconds == 10,
            c.max_attempts == 4,
            c.ring_minutes == 10,
            c.observer_window_seconds == 12,
            c.observer_step_seconds == 6,
            c.maturation_delay_seconds == 20,
            c.queue_capacity == 256,
    {
        WorkerConfig {
            poll_seconds: default_poll(),
            max_attempts: default_attempts(),
            ring_minutes: default_ring_minutes(),
            observer_window_seconds: default_observer_window(),
            observer_step_seconds: default_observer_step(),
            maturation_delay_seconds: default_maturation_delay(),
            queue_capacity: default_queue_capacity(),
        }
    }
}

impl Default for MediaConfig {
    fn default() -> (c: Self)
        ensures
            c.ffmpeg_path@ == "ffmpeg"@,
            c.ffprobe_path@ == "ffprobe"@,
            c.streamlink_path@ == "streamlink"@,
            c.chat_downloader_path@ == "chat_downloader"@,
            c.frame_interval_seconds == 2,
    {
        MediaConfig {
            ffmpeg_path: default_ffmpeg(),
            ffprobe_path: default_ffprobe(),
            streamlink_path: default_streamlink(),
            chat_downloader_path: default_chat_downloader(),
            frame_interval_seconds: default_frame_interval(),
        }
    }
}

impl Default for ScribbleModel {
    fn default() -> (m: Self)
        ensures
            m == ScribbleModel::LargeTurbo,
    {
        ScribbleModel::LargeTurbo
    }
}

impl Default for ScribbleConfig {
    fn default() -> (c: Self)
        ensures
            c.model_variant == ScribbleModel::LargeTurbo,
            c.model_path@ == "models/ggml-large-v3-turbo-q5_0.bin"@,
            c.vad_model_path@ == "models/ggml-silero-v6.2.0.bin"@,
            c.enable_vad,
            c.language@ == "auto"@,
            c.incremental_min_window_seconds == 30,
    {
        ScribbleConfig {
            model_variant: ScribbleModel::LargeTurbo,
            model_path: default_scribble_model(),
            vad_model_path: default_scribble_vad_model(),
            enable_vad: default_scribble_vad(),
            language: default_scribble_language(),
            incremental_min_window_seconds: default_scribble_window(),
        }
    }
}

impl Default for ModelProvider {
    fn default() -> (p: Self)
        ensures
            p == ModelProvider::Gemini,
    {
        ModelProvider::Gemini
    }
}

impl Default for ModelSelectionConfig {
    fn default() -> (c: Self)
        ensures
            c.provider == ModelProvider::Gemini,
    {
        ModelSelectionConfig { provider: ModelProvider::Gemini }
    }
}

impl Default for OpenAiConfig {
    fn default() -> (c: Self)
        ensures
            c.api_key_env@ == "OPENAI_API_KEY"@,
            c.observer_model@ == openai_observer(),
            c.director_model@ == openai_observer(),
            c.editor_model@ == openai_observer(),
            c.critic_model@ == openai_critic(),
            c.audio_model@ == openai_audio(),
    {
        OpenAiConfig {
            api_key_env: default_api_key_env(),
            observer_model: default_observer_model(),
            director_model: default_observer_model(),
            editor_model: default_observer_model(),
            critic_model: default_sol_model(),
            audio_model: default_audio_model(),
        }
    }
}

impl Default for GeminiConfig {
    fn default() -> (c: Self)
        ensures
            c.api_key_env@ == "GEMINI_API_KEY"@,
            c.observer_model@ == gemini_model(),
            c.director_model@ == gemini_model(),
            c.editor_model@ == gemini_model(),
            c.critic_model@ == gemini_model(),
            c.audio_model@ == gemini_model(),
    {
        GeminiConfig {
            api_key_env: default_gemini_api_key_env(),
            observer_model: default_gemini_observer_model(),
            director_model: default_gemini_editorial_model(),
            editor_model: default_gemini_editorial_model(),
            critic_model: default_gemini_editorial_model(),
            audio_model: default_gemini_audio_model(),
        }
    }
}

impl Default for StagingConfig {
    fn default() -> (c: Self)
        ensures
            c.provider@ == "local"@,
            c.bucket@ == "clipfarmer-artifacts"@,
            c.prefix@ == "staged"@,
            c.public_base_url.is_none(),
            c.endpoint_env@ == "S3_ENDPOINT"@,
    {
        StagingConfig {
            provider: default_staging_provider(),
            bucket: default_bucket(),
            prefix: default_prefix(),
            public_base_url: None,
            endpoint_env: default_s3_endpoint_env(),
        }
    }
}

impl Default for PublisherConfig {
    fn default() -> (c: Self)
        ensures
            c.dry_run,
            c.youtube,
            !c.instagram,
            !c.tiktok_drafts,
            !c.twitch_clips,
            c.youtube_token_env@ == "YOUTUBE_ACCESS_TOKEN"@,
            c.instagram_token_env@ == "INSTAGRAM_ACCESS_TOKEN"@,
            c.instagram_account_env@ == "INSTAGRAM_ACCOUNT_ID"@,
            c.tiktok_token_env@ == "TIKTOK_ACCESS_TOKEN"@,
            c.twitch_token_env@ == "TWITCH_ACCESS_TOKEN"@,
            c.twitch_client_id_env@ == "TWITCH_CLIENT_ID"@,
    {
        PublisherConfig {
            dry_run: default_true(),
            youtube: default_true(),
            instagram: default_false(),
            tiktok_drafts: default_false(),
            twitch_clips: false,
            youtube_token_env: youtube_token_env(),
            instagram_token_env: instagram_token_env(),
            instagram_account_env: instagram_account_env(),
            tiktok_token_env: tiktok_token_env(),
            twitch_token_env: twitch_token_env(),
            twitch_client_id_env: twitch_client_env(),
        }
    }
}

/// Whether `c` holds the documented defaults, whichever model provider it names.
pub open spec fn is_default_config(c: &Config) -> bool {
    &&& c.data_dir@ == "./data"@
    &&& c.worker.poll_seconds == 10
    &&& c.worker.max_attempts == 4
    &&& c.worker.ring_minutes == 10
    &&& c.worker.observer_window_seconds == 12
    &&& c.worker.observer_step_seconds == 6
    &&& c.worker.maturation_delay_seconds == 20
    &&& c.worker.queue_capacity == 256
    &&& c.media.frame_interval_seconds == 2
    &&& c.scribble.model_variant == ScribbleModel::LargeTurbo
    &&& c.scribble.model_path@ == "models/ggml-large-v3-turbo-q5_0.bin"@
    &&& c.scribble.vad_model_path@ == "models/ggml-silero-v6.2.0.bin"@
    &&& c.scribble.incremental_min_window_seconds == 30
    &&& c.openai.observer_model@ == openai_observer()
    &&& c.openai.director_model@ == openai_observer()
    &&& c.openai.editor_model@ == openai_observer()
    &&& c.openai.critic_model@ == openai_critic()
    &&& c.openai.audio_model@ == openai_audio()
    &&& c.gemini.observer_model@ == gemini_model()
    &&& c.gemini.director_model@ == gemini_model()
    &&& c.gemini.editor_model@ == gemini_model()
    &&& c.gemini.critic_model@ == gemini_model()
    &&& c.gemini.audio_model@ == gemini_model()
    &&& c.publishers.dry_run
    &&& c.publishers.youtube
    &&& !c.publishers.instagram
    &&& !c.publishers.tiktok_drafts
    &&& !c.publishers.twitch_clips
}

impl Default for Config {
    fn default() -> (c: Self)
        ensures
            is_default_config(&c),
            c.models.provider == ModelProvider::Gemini,
            c.media.ffmpeg_path@ == "ffmpeg"@,
            c.staging.provider@ == "local"@,
    {
        Config {
            data_dir: default_data_dir(),
            worker: WorkerConfig::default(),
            media: MediaConfig::default(),
            scribble: ScribbleConfig::default(),
            models: ModelSelectionConfig::default(),
            openai: OpenAiConfig::default(),
            gemini: GeminiConfig::default(),
            staging: StagingConfig::default(),
            publishers: PublisherConfig::default(),
        }
    }
}

/// Why a configuration was refused.
#[derive(Debug, Clone, Copy, PartialEq, Eq, Structural)]
pub enum ConfigError {
    ObserverStepNotPositive,
    ObserverWindowShorterThanStep,
    QueueCapacityZero,
    EmptyScribbleModelPath,
    EmptyScribbleVadModelPath,
    ScribbleWindowZero,
    OpenAiObserverModel,
    OpenAiEditorialModels,
    OpenAiAudioModel,
    GeminiModels,
}

impl ConfigError {
    /// The explanation shown to the operator.
    pub fn message(&self) -> (m: &'static str)
        ensures
            m@ == config_error_message(*self),
    {
        match self {
            ConfigError::ObserverStepNotPositive => "observer step must be positive",
            ConfigError::ObserverWindowShorterThanStep => "observer window must be at least one observer step",
            ConfigError::QueueCapacityZero => "queue capacity must be positive",
            ConfigError::EmptyScribbleModelPath => "Scribble model path must not be empty",
            ConfigError::EmptyScribbleVadModelPath => "Scribble VAD model path must not be empty",
            ConfigError::ScribbleWindowZero => "Scribble incremental window must be positive",
            ConfigError::OpenAiObserverModel => "OpenAI observer model must be gpt-5.6-terra for this architecture",
            ConfigError::OpenAiEditorialModels => "OpenAI director and editor must use gpt-5.6-terra and the critic gpt-5.6-sol",
            ConfigError::OpenAiAudioModel => "OpenAI audio model must be gpt-audio-1.5",
            ConfigError::GeminiModels => "Gemini observer, director, editor, critic, and audio models must use gemini-3.7-flash",
        }
    }
}

/// The explanation of each refusal.
pub open spec fn config_error_message(e: ConfigError) -> Seq<char> {
    match e {
        ConfigError::ObserverStepNotPositive => "observer step must be positive"@,
        ConfigError::ObserverWindowShorterThanStep => "observer window must be at least one observer step"@,
        ConfigError::QueueCapacityZero => "queue capacity must be positive"@,
        ConfigError::EmptyScribbleModelPath => "Scribble model path must not be empty"@,
        ConfigError::EmptyScribbleVadModelPath => "Scribble VAD model path must not be empty"@,
        ConfigError::ScribbleWindowZero => "Scribble incremental window must be positive"@,
        ConfigError::OpenAiObserverModel => "OpenAI observer model must be gpt-5.6-terra for this architecture"@,
        ConfigError::OpenAiEditorialModels => "OpenAI director and editor must use gpt-5.6-terra and the critic gpt-5.6-sol"@,
        ConfigError::OpenAiAudioModel => "OpenAI audio model must be gpt-audio-1.5"@,
        ConfigError::GeminiModels => "Gemini observer, director, editor, critic, and audio models must use gemini-3.7-flash"@,
    }
}

/// The first rule `c` breaks, in the order the rules are checked, or none.
pub open spec fn config_problem(c: &Config) -> Option<ConfigError> {
    if c.worker.observer_step_seconds == 0 {
        Some(ConfigError::ObserverStepNotPositive)
    } else if c.worker.observer_window_seconds < c.worker.observer_step_seconds {
        Some(ConfigError::ObserverWindowShorterThanStep)
    } else if c.worker.queue_capacity == 0 {
        Some(ConfigError::QueueCapacityZero)
    } else if c.scribble.model_path@.len() == 0 {
        Some(ConfigError::EmptyScribbleModelPath)
    } else if c.scribble.vad_model_path@.len() == 0 {
        Some(ConfigError::EmptyScribbleVadModelPath)
    } else if c.scribble.incremental_min_window_seconds == 0 {
        Some(ConfigError::ScribbleWindowZero)
    } else {
        match c.models.provider {
            ModelProvider::OpenAi => if c.openai.observer_model@ != openai_observer() {
                Some(ConfigError::OpenAiObserverModel)
            } else if c.openai.director_model@ != openai_observer() || c.openai.editor_model@ != openai_observer()
                || c.openai.critic_model@ != openai_critic() {
                Some(ConfigError::OpenAiEditorialModels)
            } else if c.openai.audio_model@ != openai_audio() {
                Some(ConfigError::OpenAiAudioModel)
            } else {
                None
            },
            ModelProvider::Gemini => if c.gemini.observer_model@ != gemini_model() || c.gemini.director_model@ != gemini_model()
                || c.gemini.editor_model@ != gemini_model() || c.gemini.critic_model@ != gemini_model()
                || c.gemini.audio_model@ != gemini_model() {
                Some(ConfigError::GeminiModels)
            } else {
                None
            },
        }
    }
}

/// `dir` joined with the relative file name `name`: the name alone when `dir` is empty,
/// otherwise with one `/` between them unless `dir` already ends in one.
pub open spec fn join_path(dir: Seq<char>, name: Seq<char>) -> Seq<char> {
    if dir.len() == 0 {
        name
    } else if dir.last() == '/' {
        dir + name
    } else {
        dir + seq!['/'] + name
    }
}

/// `dir` joined with a relative file name.
pub fn join_path_exec(dir: &str, name: &str) -> (out: String)
    ensures
        out@ == join_path(dir@, name@),
{
    let mut chars = chars_of(dir);
    let n = chars.len();
    if n > 0 && chars[n - 1] != '/' {
        chars.push('/');
    }
    crate::text::extend_str(&mut chars, name);
    proof {
        if n > 0 && dir@.last() != '/' {
            assert(chars@ =~= dir@ + seq!['/'] + name@);
        } else {
            assert(chars@ =~= dir@ + name@);
        }
    }
    string_of(&chars)
}

impl Config {
    /// Checks the configuration, naming the first rule it breaks.
    pub fn validate(&self) -> (r: Result<(), ConfigError>)
        ensures
            match config_problem(self) {
                None => r is Ok,
                Some(e) => r == Err::<(), ConfigError>(e),
            },
    {
        if self.worker.observer_step_seconds == 0 {
            return Err(ConfigError::ObserverStepNotPositive);
        }
        if self.worker.observer_window_seconds < self.worker.observer_step_seconds {
            return Err(ConfigError::ObserverWindowShorterThanStep);
        }
        if self.worker.queue_capacity == 0 {
            return Err(ConfigError::QueueCapacityZero);
        }
        if self.scribble.model_path.unicode_len() == 0 {
            return Err(ConfigError::EmptyScribbleModelPath);
        }
        if self.scribble.vad_model_path.unicode_len() == 0 {
            return Err(ConfigError::EmptyScribbleVadModelPath);
        }
        if self.scribble.incremental_min_window_seconds == 0 {
            return Err(ConfigError::ScribbleWindowZero);
        }
        match self.models.provider {
            ModelProvider::OpenAi => {
                if !str_eq(self.openai.observer_model.as_str(), "gpt-5.6-terra") {
                    return Err(ConfigError::OpenAiObserverModel);
                }
                if !(str_eq(self.openai.director_model.as_str(), "gpt-5.6-terra") && str_eq(
                    self.openai.editor_model.as_str(),
                    "gpt-5.6-terra",
                ) && str_eq(self.openai.critic_model.as_str(), "gpt-5.6-sol")) {
                    return Err(ConfigError::OpenAiEditorialModels);
                }
                if !str_eq(self.openai.audio_model.as_str(), "gpt-audio-1.5") {
                    return Err(ConfigError::OpenAiAudioModel);
                }
            },
            ModelProvider::Gemini => {
                if !(str_eq(self.gemini.observer_model.as_str(), "gemini-3.7-flash") && str_eq(
                    self.gemini.director_model.as_str(),
                    "gemini-3.7-flash",
                ) && str_eq(self.gemini.editor_model.as_str(), "gemini-3.7-flash") && str_eq(
                    self.gemini.critic_model.as_str(),
                    "gemini-3.7-flash",
                ) && str_eq(self.gemini.audio_model.as_str(), "gemini-3.7-flash")) {
                    return Err(ConfigError::GeminiModels);
                }
            },
        }
        Ok(())
    }

    /// The SQLite database inside the data directory.
    pub fn db_path(&self) -> (p: String)
        ensures
            p@ == join_path(self.data_dir@, "clipfarmer.sqlite3"@),
    {
        join_path_exec(self.data_dir.as_str(), "clipfarmer.sqlite3")
    }
}

/// A platform clips are published to.
#[derive(Debug, Clone, Copy, PartialEq, Eq, Structural)]
pub enum PublishPlatform {
    YouTube,
    Instagram,
    TikTok,
    Twitch,
}

/// The name a platform's publish jobs and outcomes carry.
pub open spec fn platform_name(p: PublishPlatform) -> Seq<char> {
    match p {
        PublishPlatform::YouTube => "youtube"@,
        PublishPlatform::Instagram => "instagram"@,
        PublishPlatform::TikTok => "tiktok"@,
        PublishPlatform::Twitch => "twitch"@,
    }
}

impl PublishPlatform {
    /// The platform's name.
    pub fn name(&self) -> (n: &'static str)
        ensures
            n@ == platform_name(*self),
    {
        match self {
            PublishPlatform::YouTube => "youtube",
            PublishPlatform::Instagram => "instagram",
            PublishPlatform::TikTok => "tiktok",
            PublishPlatform::Twitch => "twitch",
        }
    }
}

/// One publisher the pipeline sets up.
#[derive(Debug, Clone, Copy, PartialEq, Eq, Structural)]
pub enum PlannedPublisher {
    /// Records what would be published without publishing; a draft-only platform's outcome
    /// awaits the creator.
    DryRun { platform: PublishPlatform, draft_only: bool },
    /// Publishes for real, with the platform's credentials.
    Live(PublishPlatform),
}

/// The enabled platforms, in the order YouTube, Instagram, TikTok drafts, Twitch clips.
pub open spec fn enabled_platforms(p: &PublisherConfig) -> Seq<PublishPlatform> {
    (if p.youtube { seq![PublishPlatform::YouTube] } else { Seq::empty() })
        + (if p.instagram { seq![PublishPlatform::Instagram] } else { Seq::empty() })
        + (if p.tiktok_drafts { seq![PublishPlatform::TikTok] } else { Seq::empty() })
        + (if p.twitch_clips { seq![PublishPlatform::Twitch] } else { Seq::empty() })
}

/// The publisher for one enabled platform: a dry run (TikTok only as drafts) when the
/// configuration asks for one, the real publisher otherwise.
pub open spec fn planned_for(p: &PublisherConfig, platform: PublishPlatform) -> PlannedPublisher {
    if p.dry_run {
        PlannedPublisher::DryRun { platform, draft_only: platform == PublishPlatform::TikTok }
    } else {
        PlannedPublisher::Live(platform)
    }
}

fn plan_for(p: &PublisherConfig, platform: PublishPlatform) -> (r: PlannedPublisher)
    ensures
        r == planned_for(p, platform),
{
    if p.dry_run {
        PlannedPublisher::DryRun { platform, draft_only: platform == PublishPlatform::TikTok }
    } else {
        PlannedPublisher::Live(platform)
    }
}

fn push_plan(out: &mut Vec<PlannedPublisher>, p: &PublisherConfig, platform: PublishPlatform, Ghost(ps): Ghost<Seq<PublishPlatform>>)
    requires
        old(out)@ == ps.map_values(|q: PublishPlatform| planned_for(p, q)),
    ensures
        final(out)@ == ps.push(platform).map_values(|q: PublishPlatform| planned_for(p, q)),
{
    let planned = plan_for(p, platform);
    out.push(planned);
    assert(out@ =~= ps.push(platform).map_values(|q: PublishPlatform| planned_for(p, q)));
}

/// The publishers a configuration sets up, one per enabled platform, in platform order.
pub fn planned_publishers(p: &PublisherConfig) -> (out: Vec<PlannedPublisher>)
    ensures
        out@ == enabled_platforms(p).map_values(|platform: PublishPlatform| planned_for(p, platform)),
{
    let mut out: Vec<PlannedPublisher> = Vec::new();
    let ghost mut ps: Seq<PublishPlatform> = Seq::empty();
    assert(out@ =~= ps.map_values(|q: PublishPlatform| planned_for(p, q)));
    if p.youtube {
        push_plan(&mut out, p, PublishPlatform::YouTube, Ghost(ps));
        proof { ps = ps.push(PublishPlatform::YouTube); }
    }
    let ghost after_youtube = ps;
    if p.instagram {
        push_plan(&mut out, p, PublishPlatform::Instagram, Ghost(ps));
        proof { ps = ps.push(PublishPlatform::Instagram); }
    }
    let ghost after_instagram = ps;
    if p.tiktok_drafts {
        push_plan(&mut out, p, PublishPlatform::TikTok, Ghost(ps));
        proof { ps = ps.push(PublishPlatform::TikTok); }
    }
    let ghost after_tiktok = ps;
    if p.twitch_clips {
        push_plan(&mut out, p, PublishPlatform::Twitch, Ghost(ps));
        proof { ps = ps.push(PublishPlatform::Twitch); }
    }
    proof {
        let y: Seq<PublishPlatform> = if p.youtube { seq![PublishPlatform::YouTube] } else { Seq::empty() };
        let i: Seq<PublishPlatform> = if p.instagram { seq![PublishPlatform::Instagram] } else { Seq::empty() };
        let t: Seq<PublishPlatform> = if p.tiktok_drafts { seq![PublishPlatform::TikTok] } else { Seq::empty() };
        let w: Seq<PublishPlatform> = if p.twitch_clips { seq![PublishPlatform::Twitch] } else { Seq::empty() };
        assert(after_youtube =~= y);
        assert(after_instagram =~= y + i);
        assert(after_tiktok =~= y + i + t);
        assert(ps =~= y + i + t + w);
    }
    out
}

/// Whether staged clips can reach Instagram, which fetches them itself: S3 staging, or a
/// public base URL over HTTPS.
pub open spec fn instagram_reachable(s: &StagingConfig) -> bool {
    s.provider@ == "s3"@ || match s.public_base_url {
        Some(u) => spec_starts_with(u@, "https://"@),
        None => false,
    }
}

/// Where rendered clips are staged.
#[derive(Debug, Clone, Copy, PartialEq, Eq, Structural)]
pub enum StagingKind {
    /// A directory of this machine, optionally served under a public base URL.
    Local,
    /// S3-compatible object storage, through the AWS command line.
    S3,
}

/// The staging a provider name selects: `local` or `s3`; any other name selects none.
pub open spec fn staging_kind(provider: Seq<char>) -> Option<StagingKind> {
    if provider == "local"@ {
        Some(StagingKind::Local)
    } else if provider == "s3"@ {
        Some(StagingKind::S3)
    } else {
        None
    }
}

impl StagingConfig {
    /// The staging the provider name selects, if it names one.
    pub fn kind(&self) -> (k: Option<StagingKind>)
        ensures
            k == staging_kind(self.provider@),
    {
        if str_eq(self.provider.as_str(), "local") {
            Some(StagingKind::Local)
        } else if str_eq(self.provider.as_str(), "s3") {
            Some(StagingKind::S3)
        } else {
            None
        }
    }

    /// Whether Instagram can fetch clips staged this way.
    pub fn instagram_reachable(&self) -> (b: bool)
        ensures
            b == instagram_reachable(self),
    {
        str_eq(self.provider.as_str(), "s3") || match &self.public_base_url {
            Some(u) => str_starts_with(u.as_str(), "https://"),
            None => false,
        }
    }
}

/// The documented defaults pass validation whichever model provider is chosen.
pub proof fn law_defaults_validate(c: &Config)
    requires
        is_default_config(c),
    ensures
        config_problem(c) is None,
{
    reveal_strlit("models/ggml-large-v3-turbo-q5_0.bin");
    reveal_strlit("models/ggml-silero-v6.2.0.bin");
}

} // verus!
