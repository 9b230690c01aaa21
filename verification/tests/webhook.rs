use discord_recon::invite::PartialUser;
use discord_recon::webhook::{
    parse_webhook, webhook_rows, webhook_type_name, webhook_url, WebhookError, WebhookInfo,
};

#[test]
fn parses_webhook_url_variants() {
    let (id, token) =
        parse_webhook("https://discord.com/api/webhooks/123456789012345678/AbCdEf-Token_123")
            .unwrap();
    assert_eq!(id, "123456789012345678");
    assert_eq!(token, "AbCdEf-Token_123");

    let (id, token) = parse_webhook("123456789012345678/AbCdEf-Token_123").unwrap();
    assert_eq!(id, "123456789012345678");
    assert_eq!(token, "AbCdEf-Token_123");

    let (_id, token) =
        parse_webhook("https://canary.discord.com/api/webhooks/123456789012345678/tok/")
            .unwrap();
    assert_eq!(token, "tok");

    let (_, token) =
        parse_webhook("https://discord.com/api/webhooks/123456789012345678/tok?wait=true")
            .unwrap();
    assert_eq!(token, "tok");
}

#[test]
fn rejects_invalid_webhooks() {
    assert!(parse_webhook("https://discord.com/api/webhooks/notanumber/tok").is_err());
    assert!(parse_webhook("https://discord.com/api/webhooks/123456789012345678").is_err());
    assert!(parse_webhook("").is_err());
}

#[test]
fn names_webhook_types() {
    assert_eq!(webhook_type_name(Some(1)), "1 — Incoming");
    assert_eq!(webhook_type_name(Some(3)), "3 — Application");
    assert_eq!(webhook_type_name(None), "(unknown)");
}

#[test]
fn webhook_errors_name_the_missing_part() {
    assert_eq!(
        parse_webhook("https://discord.com/api/webhooks/notanumber/tok"),
        Err(WebhookError::MissingId)
    );
    assert_eq!(
        parse_webhook("https://discord.com/api/webhooks/123456789012345678"),
        Err(WebhookError::MissingToken)
    );
    assert_eq!(parse_webhook(""), Err(WebhookError::MissingId));
    assert_eq!(parse_webhook("12/?wait=true"), Err(WebhookError::MissingToken));
    assert_eq!(webhook_type_name(Some(2)), "2 — Channel Follower");
    assert_eq!(webhook_type_name(Some(9)), "(unknown)");
}

#[test]
fn webhook_extra_segments_are_ignored() {
    let (id, token) =
        parse_webhook("https://discordapp.com/api/webhooks/42/tok/github").unwrap();
    assert_eq!(id, "42");
    assert_eq!(token, "tok");
    let (id, token) = parse_webhook("  https://ptb.discord.com/api/webhooks/7/t  ").unwrap();
    assert_eq!((id.as_str(), token.as_str()), ("7", "t"));
}

#[test]
fn webhook_table_rows() {
    let w = WebhookInfo {
        wtype: Some(1),
        name: Some("Captain Hook".to_string()),
        avatar: None,
        channel_id: Some("11".to_string()),
        guild_id: Some("22".to_string()),
        application_id: None,
        user: Some(PartialUser {
            id: Some("33".to_string()),
            username: Some("bob".to_string()),
            global_name: Some("Bob".to_string()),
            avatar: None,
        }),
    };
    let rows = webhook_rows(&"44".to_string(), &w);
    let expected: Vec<Vec<&str>> = vec![
        vec!["Webhook ID", "44"],
        vec!["Name", "Captain Hook"],
        vec!["Type", "1 — Incoming"],
        vec!["Avatar hash", ""],
        vec!["Guild ID", "22"],
        vec!["Channel ID", "11"],
        vec!["Creator app ID", ""],
        vec!["Creator user", "Bob (33)"],
    ];
    assert_eq!(rows, expected);
    assert_eq!(
        webhook_url(&"44".to_string(), &"tok".to_string()),
        "https://discord.com/api/webhooks/44/tok"
    );
}

#[test]
fn any_plain_token_comes_back() {
    for form in [
        "123/ab.c~d",
        "123/ab.c~d/",
        "https://discord.com/api/webhooks/123/ab.c~d",
        "https://ptb.discord.com/api/webhooks/123/ab.c~d/",
        "  https://discordapp.com/api/webhooks/123/ab.c~d  ",
    ] {
        assert_eq!(
            parse_webhook(form).unwrap(),
            ("123".to_string(), "ab.c~d".to_string())
        );
    }
}
