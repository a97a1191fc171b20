use clipfarmer::domain::{Candidate, ClipState};
use clipfarmer::json::Json;
use clipfarmer::publishers::{
    broadcaster_id_from_response, container_status, content_range, instagram_outcome, normalized_login, resumable_location,
    tiktok_outcome, twitch_outcome, valid_twitch_login, youtube_outcome, BroadcasterError, ContainerStatus, InstagramPublisher,
    TikTokDraftPublisher, YouTubePublisher,
};

fn obj(fields: Vec<(&str, Json)>) -> Json {
    Json::Object(fields.into_iter().map(|(k, v)| (k.to_owned(), v)).collect())
}

fn s(v: &str) -> Json {
    Json::Str(v.to_owned())
}

fn candidate() -> Candidate {
    Candidate {
        id: "cand".to_owned(),
        session_id: "session".to_owned(),
        channel_id: "channel".to_owned(),
        source: "twitch".to_owned(),
        source_id: "src".to_owned(),
        start_ms: 0,
        end_ms: 10_000,
        payoff_ms: None,
        transcript: String::new(),
        observer_confidence: 800_000,
        state: ClipState::Publishing,
    }
}

#[test]
fn parses_broadcaster_id_for_the_requested_login() {
    let response = obj(vec![(
        "data",
        Json::Array(vec![obj(vec![("id", s("141981764")), ("login", s("twitchdev")), ("display_name", s("TwitchDev"))])]),
    )]);
    assert_eq!(broadcaster_id_from_response(&response, "TwitchDev").unwrap(), "141981764");
}

#[test]
fn rejects_an_unexpected_or_unsafe_twitch_login() {
    assert!(valid_twitch_login("some_streamer"));
    assert!(!valid_twitch_login("some-streamer?redirect=1"));
    let response = obj(vec![("data", Json::Array(vec![obj(vec![("id", s("123")), ("login", s("other"))])]))]);
    assert!(broadcaster_id_from_response(&response, "expected").is_err());
}

#[test]
fn broadcaster_lookup_errors() {
    assert_eq!(broadcaster_id_from_response(&obj(vec![("data", Json::Array(vec![]))]), "a"), Err(BroadcasterError::NoChannel));
    assert_eq!(
        broadcaster_id_from_response(&obj(vec![("data", Json::Array(vec![obj(vec![("id", s("1"))])]))]), "a"),
        Err(BroadcasterError::MissingLogin)
    );
    assert_eq!(
        broadcaster_id_from_response(&obj(vec![("data", Json::Array(vec![obj(vec![("id", s("x1")), ("login", s("a"))])]))]), "A"),
        Err(BroadcasterError::InvalidId)
    );
    assert_eq!(
        broadcaster_id_from_response(&obj(vec![("data", Json::Array(vec![obj(vec![("login", s("other"))])]))]), "a"),
        Err(BroadcasterError::DifferentChannel)
    );
}

#[test]
fn resumable_location_is_read_from_headers() {
    let headers = "HTTP/1.1 200 OK\r\nlocation:  https://upload.example/abc \r\nX: y\r\n";
    assert_eq!(resumable_location(headers).as_deref(), Some("https://upload.example/abc"));
    assert_eq!(resumable_location("HTTP/1.1 200 OK\n").as_deref(), None);
    assert_eq!(resumable_location("Location: a\nlocation: b\n").as_deref(), Some("a"));
}

#[test]
fn container_statuses() {
    assert_eq!(container_status(&obj(vec![("status_code", s("FINISHED"))])), ContainerStatus::Finished);
    assert_eq!(container_status(&obj(vec![("status_code", s("EXPIRED"))])), ContainerStatus::Rejected);
    assert_eq!(container_status(&obj(vec![("status_code", s("IN_PROGRESS"))])), ContainerStatus::Pending);
    assert_eq!(container_status(&obj(vec![])), ContainerStatus::Pending);
}

#[test]
fn outcomes_and_headers() {
    let c = candidate();
    let y = youtube_outcome(&c, "vid", "key");
    assert_eq!(y.url.as_deref(), Some("https://youtube.com/shorts/vid"));
    assert_eq!(y.status, "published");
    assert_eq!(instagram_outcome(&c, "m", "key").url, None);
    assert_eq!(tiktok_outcome(&c, "p", "key").status, "awaiting_creator");
    assert_eq!(twitch_outcome(&c, "clip", "key").url.as_deref(), Some("https://clips.twitch.tv/clip"));
    assert_eq!(content_range(1_000), "Content-Range: bytes 0-999/1000");
    assert_eq!(normalized_login("TwitchDev"), "twitchdev");
}

#[test]
fn publisher_names_and_polls() {
    let y = YouTubePublisher { access_token: "t".to_owned(), privacy_status: "private".to_owned(), work_dir: "w".to_owned() };
    assert_eq!(y.platform(), "youtube");
    let i = InstagramPublisher { access_token: "t".to_owned(), account_id: "a".to_owned(), poll_attempts: 0 };
    assert_eq!(i.platform(), "instagram");
    assert_eq!(i.poll_rounds(), 1);
    assert_eq!(TikTokDraftPublisher { access_token: "t".to_owned() }.platform(), "tiktok");
}
