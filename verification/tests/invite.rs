use discord_recon::invite::{
    boost_tier_name, invite_guild_id, invite_rows, invite_url, parse_invite_code,
    verification_level_name, InviteChannel, InviteError, InviteGuild, InviteInfo, PartialUser,
};

#[test]
fn parses_invite_code_variants() {
    assert_eq!(
        parse_invite_code("discord-developers").unwrap(),
        "discord-developers"
    );
    assert_eq!(
        parse_invite_code("https://discord.gg/python").unwrap(),
        "python"
    );
    assert_eq!(
        parse_invite_code("http://discord.gg/python").unwrap(),
        "python"
    );
    assert_eq!(parse_invite_code("discord.gg/python/").unwrap(), "python");
    assert_eq!(
        parse_invite_code("https://discord.com/invite/python").unwrap(),
        "python"
    );
    assert_eq!(
        parse_invite_code("https://discord.gg/python?foo=bar").unwrap(),
        "python"
    );
    assert_eq!(
        parse_invite_code("https://discordapp.com/invite/python").unwrap(),
        "python"
    );
    assert_eq!(
        parse_invite_code("https://www.discord.gg/python").unwrap(),
        "python"
    );
    assert_eq!(
        parse_invite_code("www.discord.gg/python").unwrap(),
        "python"
    );
    assert_eq!(
        parse_invite_code("https://canary.discord.com/invite/python").unwrap(),
        "python"
    );
    assert_eq!(
        parse_invite_code("https://ptb.discord.com/invite/python").unwrap(),
        "python"
    );
}

#[test]
fn rejects_invalid_invites() {
    assert!(parse_invite_code("").is_err());
    assert!(parse_invite_code("   ").is_err());
    assert!(parse_invite_code("foo/bar").is_err());
    assert!(parse_invite_code("bad code!").is_err());
}

#[test]
fn names_verification_and_boost_levels() {
    assert_eq!(
        verification_level_name(Some(4)),
        "4 — Very High (verified phone)"
    );
    assert_eq!(verification_level_name(None), "(unknown)");
    assert_eq!(boost_tier_name(Some(3)), "3 — Level 3");
    assert_eq!(boost_tier_name(Some(0)), "0 — None");
}

#[test]
fn invite_code_edge_forms() {
    assert_eq!(
        parse_invite_code("  https://discord.gg/abc#frag ").unwrap(),
        "abc"
    );
    assert_eq!(parse_invite_code("https://discord.gg/a_b-C9///").unwrap(), "a_b-C9");
    assert_eq!(
        parse_invite_code("https://example.com/python"),
        Err(InviteError::Invalid)
    );
    assert_eq!(parse_invite_code("https://discord.gg/?x=1"), Err(InviteError::Invalid));
    assert_eq!(parse_invite_code("code\u{e9}"), Err(InviteError::Invalid));
}

#[test]
fn bare_discord_com_invite_form() {
    assert_eq!(parse_invite_code("discord.com/invite/python").unwrap(), "python");
    assert_eq!(
        parse_invite_code(" discord.com/invite/python?event=1/ ").unwrap(),
        "python"
    );
}

#[test]
fn names_all_levels() {
    assert_eq!(verification_level_name(Some(0)), "0 — None");
    assert_eq!(verification_level_name(Some(1)), "1 — Low (verified email)");
    assert_eq!(
        verification_level_name(Some(2)),
        "2 — Medium (registered >5 min)"
    );
    assert_eq!(verification_level_name(Some(3)), "3 — High (member >10 min)");
    assert_eq!(verification_level_name(Some(5)), "(unknown)");
    assert_eq!(boost_tier_name(Some(1)), "1 — Level 1");
    assert_eq!(boost_tier_name(Some(2)), "2 — Level 2");
    assert_eq!(boost_tier_name(Some(4)), "(unknown)");
    assert_eq!(boost_tier_name(None), "(unknown)");
}

fn sample_invite() -> InviteInfo {
    InviteInfo {
        expires_at: None,
        approximate_member_count: Some(294043),
        approximate_presence_count: Some(58212),
        guild: Some(InviteGuild {
            id: Some("613425648685547541".to_string()),
            name: Some("Discord Developers".to_string()),
            icon: None,
            description: None,
            nsfw: Some(false),
            nsfw_level: Some(0),
            verification_level: Some(3),
            premium_tier: Some(3),
            premium_subscription_count: Some(61),
            features: vec!["COMMUNITY".to_string(), "NEWS".to_string()],
            vanity_url_code: Some("discord-developers".to_string()),
        }),
        channel: Some(InviteChannel {
            id: Some("123".to_string()),
            name: Some("welcome".to_string()),
        }),
        inviter: None,
    }
}

#[test]
fn invite_table_rows() {
    let rows = invite_rows(&"discord-developers".to_string(), &sample_invite());
    let expected: Vec<Vec<&str>> = vec![
        vec!["Invite code", "discord-developers"],
        vec!["Guild", "Discord Developers (613425648685547541)"],
        vec!["Channel", "#welcome (123)"],
        vec!["Approx. members", "294043"],
        vec!["Approx. online", "58212"],
        vec!["Inviter", "(not exposed)"],
        vec!["Expires at", "(never)"],
        vec!["NSFW", "no"],
        vec!["Verification level", "3 — High (member >10 min)"],
        vec!["Boost tier", "3 — Level 3 (61 boosts)"],
        vec!["Vanity URL", "discord-developers"],
        vec!["Features", "COMMUNITY, NEWS"],
    ];
    assert_eq!(rows, expected);
}

#[test]
fn invite_table_without_guild() {
    let inv = InviteInfo {
        expires_at: Some("2026-07-01T00:00:00+00:00".to_string()),
        approximate_member_count: None,
        approximate_presence_count: None,
        guild: None,
        channel: None,
        inviter: Some(PartialUser {
            id: Some("42".to_string()),
            username: Some("alice".to_string()),
            global_name: None,
            avatar: None,
        }),
    };
    let rows = invite_rows(&"abc".to_string(), &inv);
    let expected: Vec<Vec<&str>> = vec![
        vec!["Invite code", "abc"],
        vec!["Guild", " ()"],
        vec!["Inviter", "alice (42)"],
        vec!["Expires at", "2026-07-01T00:00:00+00:00"],
        vec!["NSFW", "(unknown)"],
        vec!["Verification level", "(unknown)"],
        vec!["Boost tier", "(unknown) (? boosts)"],
    ];
    assert_eq!(rows, expected);
    assert_eq!(invite_guild_id(&inv), None);
    assert_eq!(
        invite_guild_id(&sample_invite()),
        Some("613425648685547541".to_string())
    );
}

#[test]
fn invite_endpoint_url() {
    assert_eq!(
        invite_url(&"python".to_string()),
        "https://discord.com/api/v10/invites/python?with_counts=true&with_expiration=true"
    );
}
