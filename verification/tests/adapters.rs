use clipfarmer::adapters::{
    channel_from_streamlink_metadata, channel_url, choose_channel, ffmpeg_filter_path, hook_file_text, layout_filter,
    object_path, public_url, render_filter, twitch_vod_id, ChannelError, DryRunPublisher, MetadataError, VodUrlError,
};
use clipfarmer::domain::{Candidate, CaptionCue, ClipState, EditManifest};
use clipfarmer::json::Json;

fn obj(fields: Vec<(&str, Json)>) -> Json {
    Json::Object(fields.into_iter().map(|(k, v)| (k.to_owned(), v)).collect())
}

fn s(v: &str) -> Json {
    Json::Str(v.to_owned())
}

#[test]
fn validates_twitch_vod_urls_and_metadata() {
    assert_eq!(twitch_vod_id("https://www.twitch.tv/videos/123456789?t=1h2m").unwrap(), "123456789");
    assert!(twitch_vod_id("https://example.com/videos/123456789").is_err());
    assert!(twitch_vod_id("https://www.twitch.tv/videos/not-a-number").is_err());
    let metadata = obj(vec![("metadata", obj(vec![("id", s("123456789")), ("author", s("TwitchDev"))]))]);
    assert_eq!(channel_from_streamlink_metadata(&metadata, "123456789").unwrap(), "twitchdev");
}

#[test]
fn vod_url_refusals() {
    assert_eq!(twitch_vod_id("https://www.twitch.tv/videos/1\n"), Err(VodUrlError::Unsafe));
    assert_eq!(twitch_vod_id("http://www.twitch.tv/videos/1"), Err(VodUrlError::NotHttps));
    assert_eq!(twitch_vod_id("https://www.twitch.tv"), Err(VodUrlError::NoPath));
    assert_eq!(twitch_vod_id("https://www.twitch.tv/clips/1"), Err(VodUrlError::NotVideos));
    assert_eq!(twitch_vod_id("https://twitch.tv/videos/"), Err(VodUrlError::MissingId));
    assert_eq!(twitch_vod_id("https://twitch.tv/videos/1/2"), Err(VodUrlError::InvalidId));
    assert_eq!(twitch_vod_id("https://WWW.Twitch.TV//videos//42#x").unwrap(), "42");
}

#[test]
fn metadata_refusals() {
    assert_eq!(channel_from_streamlink_metadata(&obj(vec![]), "1"), Err(MetadataError::MissingMetadata));
    assert_eq!(
        channel_from_streamlink_metadata(&obj(vec![("metadata", obj(vec![("author", s("a"))]))]), "1"),
        Err(MetadataError::MissingId)
    );
    assert_eq!(
        channel_from_streamlink_metadata(&obj(vec![("metadata", obj(vec![("id", s("2")), ("author", s("a"))]))]), "1"),
        Err(MetadataError::DifferentVod)
    );
    assert_eq!(
        channel_from_streamlink_metadata(&obj(vec![("metadata", obj(vec![("id", s("1"))]))]), "1"),
        Err(MetadataError::MissingAuthor)
    );
    assert_eq!(
        channel_from_streamlink_metadata(&obj(vec![("metadata", obj(vec![("id", s("1")), ("author", s("a b"))]))]), "1"),
        Err(MetadataError::InvalidLogin)
    );
}

#[test]
fn channels_are_chosen_and_linked() {
    assert_eq!(choose_channel("twitchdev", None).unwrap(), "twitchdev");
    assert_eq!(choose_channel("twitchdev", Some("TwitchDev")).unwrap(), "twitchdev");
    assert_eq!(choose_channel("twitchdev", Some("other")), Err(ChannelError::Mismatch));
    assert_eq!(choose_channel("twitchdev", Some("bad name")), Err(ChannelError::InvalidLogin));
    assert_eq!(channel_url("dev").unwrap(), "https://www.twitch.tv/dev");
    assert!(channel_url("bad/name").is_err());
}

#[test]
fn filter_paths_and_graphs() {
    assert_eq!(ffmpeg_filter_path("C:\\clips\\it's.srt"), "C\\:\\\\clips\\\\it\\'s.srt");
    assert_eq!(layout_filter("tracked_crop"), "scale=-2:1920,crop=1080:1920");
    assert!(layout_filter("anything").starts_with("split=2"));
    let manifest = EditManifest {
        version: 1,
        candidate_id: "c".to_owned(),
        input_path: "/in.mp4".to_owned(),
        output_path: "/out.mp4".to_owned(),
        source_start_ms: 0,
        source_end_ms: 10_000,
        width: 1080,
        height: 1920,
        fps: 30,
        layout: "stacked".to_owned(),
        hook_text: Some("  hi  ".to_owned()),
        captions: vec![CaptionCue { start_ms: 0, end_ms: 1_000, text: "a".to_owned() }],
    };
    let f = render_filter(&manifest, "/out.srt", "/out.hook.txt");
    assert_eq!(
        f,
        "scale=1080:1920:force_original_aspect_ratio=decrease,pad=1080:1920:(ow-iw)/2:(oh-ih)/2,subtitles=filename='/out.srt':force_style='Alignment=2,FontSize=18,Outline=3,MarginV=160',drawtext=textfile='/out.hook.txt':expansion=none:fontcolor=white:fontsize=58:borderw=5:bordercolor=black:x=(w-text_w)/2:y=h*0.12"
    );
    assert_eq!(hook_file_text("a\nb\rc\0d"), "a b c d");
}

#[test]
fn staged_object_locations() {
    assert_eq!(object_path("/staged/", "clip.mp4"), "staged/clip.mp4");
    assert_eq!(public_url("https://cdn.example//", "staged/clip.mp4"), "https://cdn.example/staged/clip.mp4");
}

#[test]
fn dry_runs_record_deterministic_outcomes() {
    let candidate = Candidate {
        id: "cand".to_owned(),
        session_id: "s".to_owned(),
        channel_id: "c".to_owned(),
        source: "twitch".to_owned(),
        source_id: "src".to_owned(),
        start_ms: 0,
        end_ms: 10_000,
        payoff_ms: None,
        transcript: String::new(),
        observer_confidence: 0,
        state: ClipState::Publishing,
    };
    let publisher = DryRunPublisher { name: "tiktok".to_owned(), draft_only: true };
    let outcome = publisher.publish(&candidate, "abc");
    assert_eq!(outcome.remote_id, "dry-ba7816bf8f01cfea4141");
    assert_eq!(outcome.status, "awaiting_creator");
    assert_eq!(publisher.platform(), "tiktok");
}
