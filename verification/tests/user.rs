use discord_recon::api::{ApiError, DiscordError};
use discord_recon::user::{
    avatar_url, banner_url, bot_authorization, check_user_response, decode_public_flags,
    prepare_user_lookup, public_flags, usable_token, user_rows, user_url, UserError, UserProfile,
};

#[test]
fn decodes_public_flags() {
    let badges = decode_public_flags((1 << 0) | (1 << 6) | (1 << 22));
    assert_eq!(
        badges,
        vec!["Discord Staff", "HypeSquad Bravery", "Active Developer"]
    );

    assert!(decode_public_flags(0).is_empty());

    // All known flags decode without panic.
    let table = public_flags();
    let all: u64 = table.iter().map(|(b, _)| b).sum();
    assert_eq!(decode_public_flags(all).len(), table.len());

    // Unknown bits are ignored.
    assert!(decode_public_flags(1 << 5).is_empty());
}

#[test]
fn unknown_flag_bits_do_not_change_badges() {
    let flags: u64 = 4194560;
    assert_eq!(
        decode_public_flags(flags),
        decode_public_flags(flags | (1 << 5) | (1 << 40))
    );
    assert_eq!(decode_public_flags(flags), vec!["HypeSquad Balance", "Active Developer"]);
    assert_eq!(decode_public_flags(u64::MAX).len(), 15);
}

#[test]
fn badge_count_union_and_no_repeats() {
    let known: u64 = public_flags().iter().fold(0, |m, (b, _)| m | b);
    assert_eq!(known, 0x4F_47CF);
    for flags in [0u64, 1, 0x4F_47CF, 0xFFFF, u64::MAX, 0x40_0100, 0x12_3456] {
        let badges = decode_public_flags(flags);
        assert_eq!(badges.len() as u32, (flags & known).count_ones());
        for (i, x) in badges.iter().enumerate() {
            assert!(!badges[i + 1..].contains(x));
        }
    }
    let (a, b): (u64, u64) = (0x4101, 0x40_0141);
    let mut both = decode_public_flags(a);
    for x in decode_public_flags(b) {
        if !both.contains(&x) {
            both.push(x);
        }
    }
    let union = decode_public_flags(a | b);
    assert_eq!(union.len(), both.len());
    assert!(both.iter().all(|x| union.contains(x)));
}

#[test]
fn blank_tokens_are_not_used() {
    assert_eq!(usable_token(None), None);
    assert_eq!(usable_token(Some("   ".to_string())), None);
    assert_eq!(usable_token(Some(String::new())), None);
    assert_eq!(
        usable_token(Some(" abc ".to_string())),
        Some(" abc ".to_string())
    );
}

#[test]
fn user_response_checks() {
    assert_eq!(check_user_response(200, None), Ok(()));
    assert_eq!(check_user_response(401, None), Err(UserError::Unauthorized));
    assert_eq!(
        check_user_response(
            404,
            Some(DiscordError {
                code: 10013,
                message: "Unknown User".to_string()
            })
        ),
        Err(UserError::Api(ApiError::Discord {
            code: 10013,
            message: "Unknown User".to_string()
        }))
    );
    assert_eq!(
        check_user_response(500, None),
        Err(UserError::Api(ApiError::Status(500)))
    );
}

#[test]
fn user_profile_rows() {
    let u = UserProfile {
        id: Some("80351110224678912".to_string()),
        username: Some("nelly".to_string()),
        global_name: Some("Nelly".to_string()),
        discriminator: Some("0".to_string()),
        avatar: Some("a_abc123".to_string()),
        banner: None,
        accent_color: Some(255),
        public_flags: Some(4194560),
        bot: Some(false),
    };
    let rows = user_rows(&u);
    let expected: Vec<Vec<&str>> = vec![
        vec!["User ID", "80351110224678912"],
        vec!["Username", "nelly"],
        vec!["Global name", "Nelly"],
        vec!["Legacy discriminator", "0"],
        vec!["Is bot", "no"],
        vec!["Avatar hash", "a_abc123"],
        vec![
            "Avatar URL",
            "https://cdn.discordapp.com/avatars/80351110224678912/a_abc123.png",
        ],
        vec!["Accent color", "#0000ff (255)"],
        vec!["Public flags", "4194560 (0x400100)"],
        vec!["Badges", "HypeSquad Balance, Active Developer"],
    ];
    assert_eq!(rows, expected);
    assert_eq!(banner_url(&u), None);
    assert_eq!(
        avatar_url(&u),
        Some("https://cdn.discordapp.com/avatars/80351110224678912/a_abc123.png".to_string())
    );
}

#[test]
fn user_rows_wide_accent_and_banner() {
    let u = UserProfile {
        id: None,
        username: None,
        global_name: None,
        discriminator: None,
        avatar: None,
        banner: Some("b1".to_string()),
        accent_color: Some(16711680),
        public_flags: None,
        bot: Some(true),
    };
    let rows = user_rows(&u);
    let expected: Vec<Vec<&str>> = vec![
        vec!["Is bot", "yes"],
        vec!["Banner hash", "b1"],
        vec!["Banner URL", "https://cdn.discordapp.com/banners//b1.png"],
        vec!["Accent color", "#ff0000 (16711680)"],
    ];
    assert_eq!(rows, expected);
}

#[test]
fn user_endpoint_and_authorization() {
    assert_eq!(
        user_url(&"42".to_string()),
        "https://discord.com/api/v10/users/42"
    );
    assert_eq!(bot_authorization(&"T0K".to_string()), "Bot T0K");
}

#[test]
fn user_lookup_needs_id_then_token() {
    assert_eq!(
        prepare_user_lookup("abc", Some("t".to_string())),
        Err(UserError::InvalidId)
    );
    assert_eq!(prepare_user_lookup("abc", None), Err(UserError::InvalidId));
    assert_eq!(
        prepare_user_lookup(" 80351110224678912 ", None),
        Err(UserError::MissingToken)
    );
    assert_eq!(
        prepare_user_lookup("42", Some("t".to_string())),
        Ok(("42".to_string(), "t".to_string()))
    );
}
