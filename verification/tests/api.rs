use discord_recon::api::{ensure_success, numeric_id, ApiError, DiscordError};
use discord_recon::guild::{
    check_guild_id, check_widget_response, widget_rows, widget_url, GuildError, WidgetChannel,
    WidgetInfo, WidgetMember,
};

fn body(code: i64, message: &str) -> Option<DiscordError> {
    Some(DiscordError {
        code,
        message: message.to_string(),
    })
}

#[test]
fn success_and_discord_errors() {
    assert_eq!(ensure_success(200, None), Ok(()));
    assert_eq!(ensure_success(204, body(1, "x")), Ok(()));
    assert_eq!(
        ensure_success(404, body(10006, "Unknown Invite")),
        Err(ApiError::Discord {
            code: 10006,
            message: "Unknown Invite".to_string()
        })
    );
    assert_eq!(ensure_success(502, None), Err(ApiError::Status(502)));
    assert_eq!(ensure_success(199, None), Err(ApiError::Status(199)));
}

#[test]
fn numeric_ids() {
    assert_eq!(numeric_id(" 613425648685547541 "), Some("613425648685547541".to_string()));
    assert_eq!(numeric_id(""), None);
    assert_eq!(numeric_id("12a"), None);
}

#[test]
fn widget_checks() {
    assert_eq!(check_guild_id("abc"), Err(GuildError::InvalidId));
    assert_eq!(check_guild_id("42"), Ok("42".to_string()));
    assert_eq!(
        check_widget_response(403, body(50004, "Widget Disabled")),
        Err(GuildError::WidgetDisabled)
    );
    assert_eq!(
        check_widget_response(403, body(50001, "Missing Access")),
        Err(GuildError::Discord {
            code: 50001,
            message: "Missing Access".to_string()
        })
    );
    assert_eq!(check_widget_response(403, None), Err(GuildError::Forbidden));
    assert_eq!(check_widget_response(200, None), Ok(()));
    assert_eq!(
        check_widget_response(404, body(10004, "Unknown Guild")),
        Err(GuildError::Api(ApiError::Discord {
            code: 10004,
            message: "Unknown Guild".to_string()
        }))
    );
}

#[test]
fn widget_table_rows() {
    let w = WidgetInfo {
        name: Some("Example Guild".to_string()),
        instant_invite: None,
        presence_count: None,
        channels: vec![WidgetChannel {
            id: Some("111".to_string()),
            name: Some("general".to_string()),
            position: Some(0),
        }],
        members: vec![
            WidgetMember {
                id: Some("222".to_string()),
                username: Some("alice".to_string()),
                avatar: None,
                status: Some("online".to_string()),
                activity: Some("Visual Studio Code".to_string()),
            },
            WidgetMember {
                id: Some("333".to_string()),
                username: Some("bob".to_string()),
                avatar: None,
                status: Some("idle".to_string()),
                activity: None,
            },
        ],
    };
    let rows = widget_rows(&"9".to_string(), &w);
    let expected: Vec<Vec<&str>> = vec![
        vec!["Guild name", "Example Guild"],
        vec!["Guild ID", "9"],
        vec!["Online members (widget)", "2"],
        vec!["Instant invite", "(none)"],
        vec!["Channel", "#general (111)"],
        vec!["Member (online)", "alice (222) — online, activity: Visual Studio Code"],
        vec!["Member (online)", "bob (333) — idle"],
    ];
    assert_eq!(rows, expected);
    assert_eq!(
        widget_url(&"9".to_string()),
        "https://discord.com/api/v10/guilds/9/widget.json"
    );
}
