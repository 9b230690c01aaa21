//! Guild widget intelligence: request checks.
use vstd::prelude::*;

use crate::api::{
    api_error_of, ensure_success, is_success, numeric_id, numeric_id_of, ApiError, DiscordError,
};
use crate::text::{
    decimal, lemma_deep_view_push, opt_text, opt_view, paren_text, push_decimal, row, shows,
    with_paren,
};

verus! {

/// Why a guild widget lookup failed.
#[derive(Debug, PartialEq, Eq)]
pub enum GuildError {
    /// The guild ID is not numeric.
    InvalidId,
    /// HTTP 403 with Discord error 50004: the widget is disabled.
    WidgetDisabled,
    /// HTTP 403 with another Discord error.
    Discord { code: i64, message: String },
    /// HTTP 403 without a Discord error body.
    Forbidden,
    /// Any other unsuccessful response.
    Api(ApiError),
}

/// Discord's "widget disabled" error code.
pub const WIDGET_DISABLED: i64 = 50004;

/// The guild ID to look up, or `InvalidId`.
pub fn check_guild_id(raw: &str) -> (r: Result<String, GuildError>)
    ensures
        match r {
            Ok(id) => numeric_id_of(raw@) == Some(id@),
            Err(e) => numeric_id_of(raw@) is None && e == GuildError::InvalidId,
        },
{
    match numeric_id(raw) {
        Some(id) => Ok(id),
        None => Err(GuildError::InvalidId),
    }
}

/// What a widget response with this status and decoded error body means.
pub open spec fn widget_check_of(status: u16, body: Option<DiscordError>) -> Result<(), GuildError> {
    if status == 403 {
        match body {
            Some(e) => if e.code == WIDGET_DISABLED {
                Err(GuildError::WidgetDisabled)
            } else {
                Err(GuildError::Discord { code: e.code, message: e.message })
            },
            None => Err(GuildError::Forbidden),
        }
    } else if is_success(status) {
        Ok(())
    } else {
        Err(GuildError::Api(api_error_of(status, body)))
    }
}

/// Check a widget response: a disabled widget (403, code 50004) is told
/// apart from other refusals and from other failures.
pub fn check_widget_response(status: u16, body: Option<DiscordError>) -> (r: Result<(), GuildError>)
    ensures
        r == widget_check_of(status, body),
{
    if status == 403 {
        return match body {
            Some(e) => if e.code == WIDGET_DISABLED {
                Err(GuildError::WidgetDisabled)
            } else {
                Err(GuildError::Discord { code: e.code, message: e.message })
            },
            None => Err(GuildError::Forbidden),
        };
    }
    match ensure_success(status, body) {
        Ok(()) => Ok(()),
        Err(e) => Err(GuildError::Api(e)),
    }
}

/// How a widget response is read: a 403 with Discord error 50004 means the
/// widget is disabled, a 403 with another Discord error carries that error,
/// a 403 without one is a plain refusal; any other 2xx succeeds and any
/// other failure is an API error with Discord's code and message, or the
/// status.
pub proof fn lemma_widget_check_cases(status: u16, body: Option<DiscordError>)
    ensures
        status == 403 && (body matches Some(e) && e.code == 50004) ==> widget_check_of(status, body)
            == Err::<(), GuildError>(GuildError::WidgetDisabled),
        status == 403 && (body matches Some(e) && e.code != 50004) ==> widget_check_of(status, body)
            == Err::<(), GuildError>(GuildError::Discord { code: body->0.code, message: body->0.message }),
        status == 403 && body is None ==> widget_check_of(status, body) == Err::<(), GuildError>(
            GuildError::Forbidden,
        ),
        200 <= status < 300 ==> widget_check_of(status, body) == Ok::<(), GuildError>(()),
        status != 403 && !(200 <= status < 300) && body is None ==> widget_check_of(status, body)
            == Err::<(), GuildError>(GuildError::Api(ApiError::Status(status))),
        status != 403 && !(200 <= status < 300) && body is Some ==> widget_check_of(status, body)
            == Err::<(), GuildError>(
            GuildError::Api(ApiError::Discord { code: body->0.code, message: body->0.message }),
        ),
{
}

// ---------------------------------------------------------------------------
// The widget table
// ---------------------------------------------------------------------------

/// A channel listed by a guild widget.
pub struct WidgetChannel {
    pub id: Option<String>,
    pub name: Option<String>,
    pub position: Option<u32>,
}

/// An online member listed by a guild widget.
pub struct WidgetMember {
    pub id: Option<String>,
    pub username: Option<String>,
    pub avatar: Option<String>,
    pub status: Option<String>,
    /// The name of the member's current activity, when it has one.
    pub activity: Option<String>,
}

/// What a public guild widget tells.
pub struct WidgetInfo {
    pub name: Option<String>,
    pub instant_invite: Option<String>,
    pub presence_count: Option<u64>,
    pub channels: Vec<WidgetChannel>,
    pub members: Vec<WidgetMember>,
}

pub open spec fn channel_row(c: WidgetChannel) -> Seq<Seq<char>> {
    seq!["Channel"@, "#"@ + with_paren(opt_view(c.name), opt_view(c.id))]
}

pub open spec fn member_row(m: WidgetMember) -> Seq<Seq<char>> {
    seq![
        "Member (online)"@,
        with_paren(opt_view(m.username), opt_view(m.id)) + " — "@ + opt_view(m.status) + match m.activity {
            Some(n) => ", activity: "@ + n@,
            None => Seq::empty(),
        },
    ]
}

/// The widget table: guild name, ID, online count, instant invite, then
/// one row per channel and one per online member.
pub open spec fn widget_rows_spec(id: Seq<char>, w: WidgetInfo) -> Seq<Seq<Seq<char>>> {
    seq![
        seq!["Guild name"@, opt_view(w.name)],
        seq!["Guild ID"@, id],
        seq!["Online members (widget)"@, match w.presence_count {
            Some(n) => decimal(n as nat),
            None => decimal(w.members@.len()),
        }],
        seq!["Instant invite"@, match w.instant_invite {
            Some(i) => i@,
            None => "(none)"@,
        }],
    ] + w.channels@.map_values(|c: WidgetChannel| channel_row(c)) + w.members@.map_values(
        |m: WidgetMember| member_row(m),
    )
}

/// The table rows shown for a guild widget.
pub fn widget_rows(id: &String, w: &WidgetInfo) -> (r: Vec<Vec<String>>)
    ensures
        r.deep_view() == widget_rows_spec(id@, *w),
{
    let mut online = String::new();
    match w.presence_count {
        Some(n) => push_decimal(&mut online, n),
        None => push_decimal(&mut online, w.members.len() as u64),
    }
    let invite = match &w.instant_invite {
        Some(i) => i.clone(),
        None => String::from_str("(none)"),
    };
    let mut rows = vec![
        row("Guild name", opt_text(&w.name)),
        row("Guild ID", id.clone()),
        row("Online members (widget)", online),
        row("Instant invite", invite),
    ];
    let ghost head = rows.deep_view();
    let ghost chans = w.channels@.map_values(|c: WidgetChannel| channel_row(c));
    let ghost mems = w.members@.map_values(|m: WidgetMember| member_row(m));
    assert(head[0] == widget_rows_spec(id@, *w)[0]);
    assert(head[2] == widget_rows_spec(id@, *w)[2]);
    assert(head[3] == widget_rows_spec(id@, *w)[3]);
    let mut i: usize = 0;
    while i < w.channels.len()
        invariant
            i <= w.channels@.len(),
            chans == w.channels@.map_values(|c: WidgetChannel| channel_row(c)),
            rows.deep_view() == head + chans.take(i as int),
        decreases w.channels@.len() - i,
    {
        let c = &w.channels[i];
        let mut v = String::from_str("#");
        let p = paren_text(&opt_text(&c.name), &opt_text(&c.id));
        v.append(p.as_str());
        let r = row("Channel", v);
        let ghost before = rows;
        assert(r.deep_view() == chans[i as int]);
        rows.push(r);
        proof {
            lemma_deep_view_push(before, rows, r);
        }
        assert(rows.deep_view() =~= head + chans.take(i + 1));
        i += 1;
    }
    assert(chans.take(i as int) =~= chans);
    let mut j: usize = 0;
    while j < w.members.len()
        invariant
            j <= w.members@.len(),
            mems == w.members@.map_values(|m: WidgetMember| member_row(m)),
            rows.deep_view() == head + chans + mems.take(j as int),
        decreases w.members@.len() - j,
    {
        let m = &w.members[j];
        let mut v = paren_text(&opt_text(&m.username), &opt_text(&m.id));
        v.append(" — ");
        v.append(opt_text(&m.status).as_str());
        match &m.activity {
            Some(n) => {
                v.append(", activity: ");
                v.append(n.as_str());
            },
            None => {},
        }
        assert(v@ =~= member_row(*m)[1]);
        let r = row("Member (online)", v);
        assert(r.deep_view() =~= mems[j as int]);
        let ghost before = rows;
        rows.push(r);
        proof {
            lemma_deep_view_push(before, rows, r);
        }
        assert(rows.deep_view() =~= head + chans + mems.take(j + 1));
        j += 1;
    }
    assert(mems.take(j as int) =~= mems);
    assert(rows.deep_view() =~= widget_rows_spec(id@, *w));
    rows
}

/// Each of the four head rows of the widget table is the only row with its
/// label.
proof fn lemma_widget_head_shows(id: Seq<char>, w: WidgetInfo, k: int)
    requires
        0 <= k < 4,
    ensures
        shows(widget_rows_spec(id, w), widget_rows_spec(id, w)[k][0], widget_rows_spec(id, w)[k][1]),
{
    reveal_strlit("Guild name");
    reveal_strlit("Guild ID");
    reveal_strlit("Online members (widget)");
    reveal_strlit("Instant invite");
    reveal_strlit("Channel");
    reveal_strlit("Member (online)");
    let t = widget_rows_spec(id, w);
    let head = t.take(4);
    let chans = w.channels@.map_values(|c: WidgetChannel| channel_row(c));
    let mems = w.members@.map_values(|m: WidgetMember| member_row(m));
    let nc = chans.len();
    assert(t[0][0].len() == 10 && t[1][0].len() == 8 && t[2][0].len() == 23 && t[3][0].len() == 14);
    assert(t[k] =~= seq![t[k][0], t[k][1]]);
    assert forall|i: int| 0 <= i < t.len() && (#[trigger] t[i])[0] == t[k][0] implies t[i] == seq![
        t[k][0],
        t[k][1],
    ] by {
        if i >= 4 && i < 4 + nc {
            assert(t[i] == chans[i - 4]);
            assert(t[i][0].len() == 7);
        } else if i >= 4 + nc {
            assert(t[i] == mems[i - 4 - nc]);
            assert(t[i][0].len() == 15);
        }
    }
}

/// The widget table starts with the guild's name, its ID, the online count
/// (the widget's presence count, or the number of listed members when it
/// reports none) and the instant invite, each the only row with its label;
/// then comes one `Channel` row per channel and one `Member (online)` row
/// per listed member, in order.
pub proof fn lemma_widget_table_fields(id: Seq<char>, w: WidgetInfo)
    ensures
        widget_rows_spec(id, w).len() == 4 + w.channels@.len() + w.members@.len(),
        shows(widget_rows_spec(id, w), "Guild name"@, opt_view(w.name)),
        shows(widget_rows_spec(id, w), "Guild ID"@, id),
        shows(
            widget_rows_spec(id, w),
            "Online members (widget)"@,
            match w.presence_count {
                Some(n) => decimal(n as nat),
                None => decimal(w.members@.len()),
            },
        ),
        shows(
            widget_rows_spec(id, w),
            "Instant invite"@,
            match w.instant_invite {
                Some(i) => i@,
                None => "(none)"@,
            },
        ),
        forall|j: int|
            0 <= j < w.channels@.len() ==> widget_rows_spec(id, w)[4 + j] == seq![
                "Channel"@,
                "#"@ + opt_view((#[trigger] w.channels@[j]).name) + " ("@ + opt_view(
                    w.channels@[j].id,
                ) + ")"@,
            ],
        forall|j: int|
            0 <= j < w.members@.len() ==> widget_rows_spec(id, w)[4 + w.channels@.len() + j]
                == seq![
                "Member (online)"@,
                opt_view((#[trigger] w.members@[j]).username) + " ("@ + opt_view(w.members@[j].id)
                    + ")"@ + " — "@ + opt_view(w.members@[j].status) + match w.members@[j].activity {
                    Some(n) => ", activity: "@ + n@,
                    None => Seq::empty(),
                },
            ],
{
    let t = widget_rows_spec(id, w);
    let chans = w.channels@.map_values(|c: WidgetChannel| channel_row(c));
    let mems = w.members@.map_values(|m: WidgetMember| member_row(m));
    lemma_widget_head_shows(id, w, 0);
    lemma_widget_head_shows(id, w, 1);
    lemma_widget_head_shows(id, w, 2);
    lemma_widget_head_shows(id, w, 3);
    assert(t[0][0] == "Guild name"@ && t[0][1] == opt_view(w.name));
    assert(t[1][0] == "Guild ID"@ && t[1][1] == id);
    assert(t[2][0] == "Online members (widget)"@);
    assert(t[3][0] == "Instant invite"@);
    lemma_widget_list_rows(id, w);
}

proof fn lemma_widget_list_rows(id: Seq<char>, w: WidgetInfo)
    ensures
        forall|j: int|
            0 <= j < w.channels@.len() ==> widget_rows_spec(id, w)[4 + j] == seq![
                "Channel"@,
                "#"@ + opt_view((#[trigger] w.channels@[j]).name) + " ("@ + opt_view(
                    w.channels@[j].id,
                ) + ")"@,
            ],
        forall|j: int|
            0 <= j < w.members@.len() ==> widget_rows_spec(id, w)[4 + w.channels@.len() + j]
                == seq![
                "Member (online)"@,
                opt_view((#[trigger] w.members@[j]).username) + " ("@ + opt_view(w.members@[j].id)
                    + ")"@ + " — "@ + opt_view(w.members@[j].status) + match w.members@[j].activity {
                    Some(n) => ", activity: "@ + n@,
                    None => Seq::empty(),
                },
            ],
{
    let t = widget_rows_spec(id, w);
    let chans = w.channels@.map_values(|c: WidgetChannel| channel_row(c));
    let mems = w.members@.map_values(|m: WidgetMember| member_row(m));
    assert forall|j: int| 0 <= j < w.channels@.len() implies t[4 + j] == seq![
        "Channel"@,
        "#"@ + opt_view((#[trigger] w.channels@[j]).name) + " ("@ + opt_view(w.channels@[j].id)
            + ")"@,
    ] by {
        let c = w.channels@[j];
        assert(t[4 + j] == chans[j]);
        assert("#"@ + with_paren(opt_view(c.name), opt_view(c.id)) =~= "#"@ + opt_view(c.name)
            + " ("@ + opt_view(c.id) + ")"@);
    }
    assert forall|j: int| 0 <= j < w.members@.len() implies t[4 + w.channels@.len() + j] == seq![
        "Member (online)"@,
        opt_view((#[trigger] w.members@[j]).username) + " ("@ + opt_view(w.members@[j].id) + ")"@
            + " — "@ + opt_view(w.members@[j].status) + match w.members@[j].activity {
            Some(n) => ", activity: "@ + n@,
            None => Seq::empty(),
        },
    ] by {
        let m = w.members@[j];
        assert(t[4 + w.channels@.len() + j] == mems[j]);
    }
}

/// The public widget endpoint of guild `id`.
pub fn widget_url(id: &String) -> (s: String)
    ensures
        s@ == "https://discord.com/api/v10/guilds/"@ + id@ + "/widget.json"@,
{
    let mut s = String::from_str("https://discord.com/api/v10/guilds/");
    s.append(id.as_str());
    s.append("/widget.json");
    s
}

} // verus!
