use clipfarmer::accounts::{
    normalize_credentials, platform_variables, platforms, validate_platform, AccountBook, AccountManager,
    ConnectAccountRequest,
};

fn request(token: &str, account: Option<&str>, client: Option<&str>) -> ConnectAccountRequest {
    ConnectAccountRequest {
        access_token: token.to_owned(),
        account_id: account.map(str::to_owned),
        client_id: client.map(str::to_owned),
    }
}

#[test]
fn platforms_are_listed_and_checked() {
    assert_eq!(platforms(), ["youtube", "tiktok", "instagram", "twitch"]);
    assert!(validate_platform("twitch").is_ok());
    assert_eq!(validate_platform("myspace"), Err("unsupported publishing platform myspace".to_owned()));
}

#[test]
fn credentials_are_trimmed_and_required() {
    let c = normalize_credentials("youtube", request("  tok  ", None, None)).unwrap();
    assert_eq!(c.access_token, "tok");
    assert_eq!(normalize_credentials("youtube", request("   ", None, None)).unwrap_err(), "An access token is required.");
    assert_eq!(
        normalize_credentials("instagram", request("t", Some("  "), None)).unwrap_err(),
        "An Instagram account ID is required."
    );
    assert_eq!(normalize_credentials("twitch", request("t", None, None)).unwrap_err(), "A Twitch client ID is required.");
    let t = normalize_credentials("twitch", request("t", None, Some(" cid "))).unwrap();
    assert_eq!(t.client_id.as_deref(), Some("cid"));
}

#[test]
fn connecting_and_disconnecting_accounts() {
    let mut manager = AccountManager::new("/accounts.json".to_owned(), AccountBook::new());
    manager.connect("instagram", request(" tok ", Some("acct"), None)).unwrap();
    manager.connect("youtube", request("yt", None, None)).unwrap();
    assert!(manager.connect("myspace", request("x", None, None)).is_err());
    let stored = manager.accounts.get("instagram").unwrap();
    assert_eq!(stored.access_token, "tok");
    let env = manager.apply_environment();
    assert_eq!(
        env,
        vec![
            ("INSTAGRAM_ACCESS_TOKEN".to_owned(), "tok".to_owned()),
            ("INSTAGRAM_ACCOUNT_ID".to_owned(), "acct".to_owned()),
            ("YOUTUBE_ACCESS_TOKEN".to_owned(), "yt".to_owned()),
        ]
    );
    let statuses = manager.statuses(&[false, true, false, false]);
    let connected = statuses.iter().map(|s| (s.platform.as_str(), s.connected)).collect::<Vec<_>>();
    assert_eq!(connected, [("youtube", true), ("tiktok", true), ("instagram", true), ("twitch", false)]);
    let cleared = manager.disconnect("instagram").unwrap();
    assert_eq!(cleared, ["INSTAGRAM_ACCESS_TOKEN", "INSTAGRAM_ACCOUNT_ID"]);
    assert!(manager.accounts.get("instagram").is_none());
    assert!(manager.accounts.contains("youtube"));
    manager.connect("youtube", request("new", None, None)).unwrap();
    assert_eq!(manager.accounts.get("youtube").unwrap().access_token, "new");
    assert_eq!(platform_variables("twitch"), ["TWITCH_ACCESS_TOKEN", "TWITCH_CLIENT_ID"]);
}
