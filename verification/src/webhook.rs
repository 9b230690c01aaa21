//! Webhook metadata: webhook URLs and webhook types.
use vstd::prelude::*;

use crate::invite::{
    lemma_prefix_mismatch, lemma_strip_first_prefix_skip, lemma_trim_noop, strip_first_prefix,
    strip_first_prefix_of, user_label, user_text, PartialUser,
};
use crate::text::{
    all_code_chars, all_code_chars_in, all_digits, all_digits_in, chars_of, in_class,
    is_ascii_digit, is_code_char, is_ws, labels_distinct, lemma_shows_at, lemma_skip_last_while,
    lemma_take_until_props, lemma_take_until, opt_text, opt_view, row,
    shows, skip_last_class, skip_last_while, string_of, strip_prefix, sub_chars, take_until,
    take_until_class, trim, trim_chars, CharClass,
};

verus! {

broadcast use vstd::string::group_string_axioms;

/// The webhook URL forms, tried in this order.
pub open spec fn webhook_prefixes() -> Seq<Seq<char>> {
    seq![
        "https://discord.com/api/webhooks/"@,
        "https://discordapp.com/api/webhooks/"@,
        "https://canary.discord.com/api/webhooks/"@,
        "https://ptb.discord.com/api/webhooks/"@,
    ]
}

/// What follows the first `c` in `s`; empty when `s` holds no `c`.
pub open spec fn after_first(s: Seq<char>, c: char) -> Seq<char> {
    let head = take_until(s, CharClass::Is(c));
    if head.len() < s.len() {
        s.skip(head.len() + 1 as int)
    } else {
        Seq::empty()
    }
}

/// The webhook path of `raw`: surrounding whitespace, trailing `/` and a
/// known URL prefix removed.
pub open spec fn webhook_path(raw: Seq<char>) -> Seq<char> {
    strip_first_prefix(skip_last_while(trim(raw), CharClass::Is('/')), webhook_prefixes())
}

/// The first path segment: the webhook ID.
pub open spec fn webhook_id_part(raw: Seq<char>) -> Seq<char> {
    take_until(webhook_path(raw), CharClass::Is('/'))
}

/// The second path segment up to any `?`: the webhook token.
pub open spec fn webhook_token_part(raw: Seq<char>) -> Seq<char> {
    take_until(
        take_until(after_first(webhook_path(raw), '/'), CharClass::Is('/')),
        CharClass::Is('?'),
    )
}

/// Why an input is not a webhook reference.
#[derive(Debug, Clone, Copy, PartialEq, Eq, Structural)]
pub enum WebhookError {
    /// The first segment is empty or not numeric.
    MissingId,
    /// There is no token segment.
    MissingToken,
}

pub open spec fn webhook_of(raw: Seq<char>) -> Result<(Seq<char>, Seq<char>), WebhookError> {
    let id = webhook_id_part(raw);
    let token = webhook_token_part(raw);
    if id.len() == 0 || !all_digits(id) {
        Err(WebhookError::MissingId)
    } else if token.len() == 0 {
        Err(WebhookError::MissingToken)
    } else {
        Ok((id, token))
    }
}

/// What follows the first `c` in `v`; empty when `v` holds no `c`.
pub fn after_first_char(v: &Vec<char>, c: char) -> (r: Vec<char>)
    ensures
        r@ == after_first(v@, c),
{
    let head = take_until_class(v, &CharClass::Is(c));
    if head.len() < v.len() {
        sub_chars(v, head.len() + 1, v.len())
    } else {
        Vec::new()
    }
}

/// Extract (id, token) from a webhook URL or an `id/token` pair.
pub fn parse_webhook(raw: &str) -> (r: Result<(String, String), WebhookError>)
    ensures
        match r {
            Ok((id, token)) => webhook_of(raw@) == Ok::<(Seq<char>, Seq<char>), WebhookError>(
                (id@, token@),
            ),
            Err(e) => webhook_of(raw@) == Err::<(Seq<char>, Seq<char>), WebhookError>(e),
        },
{
    let prefixes: [&str; 4] = [
        "https://discord.com/api/webhooks/",
        "https://discordapp.com/api/webhooks/",
        "https://canary.discord.com/api/webhooks/",
        "https://ptb.discord.com/api/webhooks/",
    ];
    assert(prefixes@.map_values(|p: &str| p@) =~= webhook_prefixes());
    let v = chars_of(raw);
    let t = skip_last_class(&trim_chars(&v), &CharClass::Is('/'));
    let path = strip_first_prefix_of(&t, prefixes.as_slice());
    let id = take_until_class(&path, &CharClass::Is('/'));
    let second = take_until_class(&after_first_char(&path, '/'), &CharClass::Is('/'));
    let token = take_until_class(&second, &CharClass::Is('?'));
    if id.len() == 0 || !all_digits_in(&id) {
        return Err(WebhookError::MissingId);
    }
    if token.len() == 0 {
        return Err(WebhookError::MissingToken);
    }
    Ok((string_of(&id), string_of(&token)))
}

pub open spec fn webhook_type_text(t: Option<u32>) -> Seq<char> {
    match t {
        Some(1) => "1 — Incoming"@,
        Some(2) => "2 — Channel Follower"@,
        Some(3) => "3 — Application"@,
        _ => "(unknown)"@,
    }
}

/// The name of a webhook type.
pub fn webhook_type_name(t: Option<u32>) -> (s: String)
    ensures
        s@ == webhook_type_text(t),
{
    match t {
        Some(1) => String::from_str("1 — Incoming"),
        Some(2) => String::from_str("2 — Channel Follower"),
        Some(3) => String::from_str("3 — Application"),
        _ => String::from_str("(unknown)"),
    }
}

// ---------------------------------------------------------------------------
// The webhook table
// ---------------------------------------------------------------------------

/// What the webhook endpoint tells about a webhook.
pub struct WebhookInfo {
    pub wtype: Option<u32>,
    pub name: Option<String>,
    pub avatar: Option<String>,
    pub channel_id: Option<String>,
    pub guild_id: Option<String>,
    pub application_id: Option<String>,
    /// The creator, when exposed (its `avatar` is never set).
    pub user: Option<PartialUser>,
}

pub open spec fn webhook_rows_spec(id: Seq<char>, w: WebhookInfo) -> Seq<Seq<Seq<char>>> {
    seq![
        seq!["Webhook ID"@, id],
        seq!["Name"@, opt_view(w.name)],
        seq!["Type"@, webhook_type_text(w.wtype)],
        seq!["Avatar hash"@, opt_view(w.avatar)],
        seq!["Guild ID"@, opt_view(w.guild_id)],
        seq!["Channel ID"@, opt_view(w.channel_id)],
        seq!["Creator app ID"@, opt_view(w.application_id)],
        seq!["Creator user"@, user_text(w.user)],
    ]
}

/// The table rows shown for a webhook.
pub fn webhook_rows(id: &String, w: &WebhookInfo) -> (r: Vec<Vec<String>>)
    ensures
        r.deep_view() == webhook_rows_spec(id@, *w),
{
    let rows = vec![
        row("Webhook ID", id.clone()),
        row("Name", opt_text(&w.name)),
        row("Type", webhook_type_name(w.wtype)),
        row("Avatar hash", opt_text(&w.avatar)),
        row("Guild ID", opt_text(&w.guild_id)),
        row("Channel ID", opt_text(&w.channel_id)),
        row("Creator app ID", opt_text(&w.application_id)),
        row("Creator user", user_label(&w.user)),
    ];
    assert(rows.deep_view()[0] == webhook_rows_spec(id@, *w)[0]);
    assert(rows.deep_view()[1] == webhook_rows_spec(id@, *w)[1]);
    assert(rows.deep_view()[2] == webhook_rows_spec(id@, *w)[2]);
    assert(rows.deep_view()[3] == webhook_rows_spec(id@, *w)[3]);
    assert(rows.deep_view()[4] == webhook_rows_spec(id@, *w)[4]);
    assert(rows.deep_view()[5] == webhook_rows_spec(id@, *w)[5]);
    assert(rows.deep_view()[6] == webhook_rows_spec(id@, *w)[6]);
    assert(rows.deep_view()[7] == webhook_rows_spec(id@, *w)[7]);
    assert(rows.deep_view() =~= webhook_rows_spec(id@, *w));
    rows
}

/// The labels of the webhook table are distinct.
proof fn lemma_webhook_labels(id: Seq<char>, w: WebhookInfo)
    ensures
        labels_distinct(webhook_rows_spec(id, w)),
{
    reveal_strlit("Avatar hash");
    reveal_strlit("Channel ID");
    reveal_strlit("Creator app ID");
    reveal_strlit("Creator user");
    reveal_strlit("Guild ID");
    reveal_strlit("Name");
    reveal_strlit("Type");
    reveal_strlit("Webhook ID");
    let t = webhook_rows_spec(id, w);
    assert(t[0][0] == "Webhook ID"@);
    assert(t[1][0] == "Name"@);
    assert(t[2][0] == "Type"@);
    assert(t[3][0] == "Avatar hash"@);
    assert(t[4][0] == "Guild ID"@);
    assert(t[5][0] == "Channel ID"@);
    assert(t[6][0] == "Creator app ID"@);
    assert(t[7][0] == "Creator user"@);
    assert forall|i: int, j: int| 0 <= i < j < t.len() implies t[i][0] != t[j][0] by {
        if i == 0 {
            if j == 1 {
                assert(t[0][0].len() != t[1][0].len());
            } else if j == 2 {
                assert(t[0][0].len() != t[2][0].len());
            } else if j == 3 {
                assert(t[0][0].len() != t[3][0].len());
            } else if j == 4 {
                assert(t[0][0].len() != t[4][0].len());
            } else if j == 5 {
                assert(t[0][0][0] != t[5][0][0]);
            } else if j == 6 {
                assert(t[0][0].len() != t[6][0].len());
            } else {
                assert(t[0][0].len() != t[7][0].len());
            }
        } else if i == 1 {
            if j == 2 {
                assert(t[1][0][0] != t[2][0][0]);
            } else if j == 3 {
                assert(t[1][0].len() != t[3][0].len());
            } else if j == 4 {
                assert(t[1][0].len() != t[4][0].len());
            } else if j == 5 {
                assert(t[1][0].len() != t[5][0].len());
            } else if j == 6 {
                assert(t[1][0].len() != t[6][0].len());
            } else {
                assert(t[1][0].len() != t[7][0].len());
            }
        } else if i == 2 {
            if j == 3 {
                assert(t[2][0].len() != t[3][0].len());
            } else if j == 4 {
                assert(t[2][0].len() != t[4][0].len());
            } else if j == 5 {
                assert(t[2][0].len() != t[5][0].len());
            } else if j == 6 {
                assert(t[2][0].len() != t[6][0].len());
            } else {
                assert(t[2][0].len() != t[7][0].len());
            }
        } else if i == 3 {
            if j == 4 {
                assert(t[3][0].len() != t[4][0].len());
            } else if j == 5 {
                assert(t[3][0].len() != t[5][0].len());
            } else if j == 6 {
                assert(t[3][0].len() != t[6][0].len());
            } else {
                assert(t[3][0].len() != t[7][0].len());
            }
        } else if i == 4 {
            if j == 5 {
                assert(t[4][0].len() != t[5][0].len());
            } else if j == 6 {
                assert(t[4][0].len() != t[6][0].len());
            } else {
                assert(t[4][0].len() != t[7][0].len());
            }
        } else if i == 5 {
            if j == 6 {
                assert(t[5][0].len() != t[6][0].len());
            } else {
                assert(t[5][0].len() != t[7][0].len());
            }
        } else {
            assert(t[6][0].len() != t[7][0].len());
        }
    }
}

/// The webhook table shows each field of the webhook under its own label:
/// the ID, name, type, avatar hash, guild, channel, creating application
/// and creating user, one row each.
pub proof fn lemma_webhook_table_fields(id: Seq<char>, w: WebhookInfo)
    ensures
        webhook_rows_spec(id, w).len() == 8,
        shows(webhook_rows_spec(id, w), "Webhook ID"@, id),
        shows(webhook_rows_spec(id, w), "Name"@, opt_view(w.name)),
        shows(
            webhook_rows_spec(id, w),
            "Type"@,
            match w.wtype {
                Some(1) => "1 — Incoming"@,
                Some(2) => "2 — Channel Follower"@,
                Some(3) => "3 — Application"@,
                _ => "(unknown)"@,
            },
        ),
        shows(webhook_rows_spec(id, w), "Avatar hash"@, opt_view(w.avatar)),
        shows(webhook_rows_spec(id, w), "Guild ID"@, opt_view(w.guild_id)),
        shows(webhook_rows_spec(id, w), "Channel ID"@, opt_view(w.channel_id)),
        shows(webhook_rows_spec(id, w), "Creator app ID"@, opt_view(w.application_id)),
        shows(webhook_rows_spec(id, w), "Creator user"@, user_text(w.user)),
{
    lemma_webhook_labels(id, w);
    let t = webhook_rows_spec(id, w);
    lemma_shows_at(t, 0);
    lemma_shows_at(t, 1);
    lemma_shows_at(t, 2);
    lemma_shows_at(t, 3);
    lemma_shows_at(t, 4);
    lemma_shows_at(t, 5);
    lemma_shows_at(t, 6);
    lemma_shows_at(t, 7);
}

/// The metadata endpoint of a webhook.
pub fn webhook_url(id: &String, token: &String) -> (s: String)
    ensures
        s@ == "https://discord.com/api/webhooks/"@ + id@ + "/"@ + token@,
{
    let mut s = String::from_str("https://discord.com/api/webhooks/");
    s.append(id.as_str());
    s.append("/");
    s.append(token.as_str());
    s
}


// ---------------------------------------------------------------------------
// Every documented form gives the ID and token back
// ---------------------------------------------------------------------------

/// A token that comes back unchanged from a webhook reference: non-empty,
/// free of `/` and `?`, and not ending in whitespace.
pub open spec fn plain_token(token: Seq<char>) -> bool {
    &&& token.len() > 0
    &&& forall|j: int| 0 <= j < token.len() ==> #[trigger] token[j] != '/' && token[j] != '?'
    &&& !is_ws(token.last())
}

/// A documented way of writing a webhook: `id/token` when `i` is negative,
/// else the `i`-th URL prefix followed by `id/token`.
pub open spec fn webhook_form(i: int, id: Seq<char>, token: Seq<char>) -> Seq<char> {
    if i < 0 {
        id + "/"@ + token
    } else {
        webhook_prefixes()[i] + id + "/"@ + token
    }
}

/// What an ID and a token written as `id/token` parse to.
proof fn lemma_pair_path(id: Seq<char>, token: Seq<char>)
    requires
        id.len() > 0,
        all_digits(id),
        plain_token(token),
    ensures
        take_until(id + "/"@ + token, CharClass::Is('/')) == id,
        take_until(
            take_until(after_first(id + "/"@ + token, '/'), CharClass::Is('/')),
            CharClass::Is('?'),
        ) == token,
{
    reveal_strlit("/");
    let path = id + "/"@ + token;
    assert forall|j: int| 0 <= j < id.len() implies !in_class(#[trigger] path[j], CharClass::Is('/')) by {
        assert(path[j] == id[j]);
        assert(is_ascii_digit(id[j]));
    }
    assert(path[id.len() as int] == '/');
    lemma_take_until(path, CharClass::Is('/'), id.len() as int);
    assert(path.take(id.len() as int) =~= id);
    assert(path.skip(id.len() + 1 as int) =~= token);
    assert forall|j: int| 0 <= j < token.len() implies !in_class(#[trigger] token[j], CharClass::Is('/')) by {
        assert(token[j] != '/');
    }
    lemma_take_until(token, CharClass::Is('/'), token.len() as int);
    assert(token.take(token.len() as int) =~= token);
    assert forall|j: int| 0 <= j < token.len() implies !in_class(#[trigger] token[j], CharClass::Is('?')) by {
        assert(token[j] != '?');
    }
    lemma_take_until(token, CharClass::Is('?'), token.len() as int);
}

/// An `id/token` pair and each documented webhook URL form followed by
/// `id/token`, with or without a trailing `/`, give the ID and the token.
pub proof fn lemma_webhook_forms_parse(i: int, id: Seq<char>, token: Seq<char>)
    requires
        -1 <= i < webhook_prefixes().len(),
        id.len() > 0,
        all_digits(id),
        plain_token(token),
    ensures
        webhook_of(webhook_form(i, id, token)) == Ok::<(Seq<char>, Seq<char>), WebhookError>(
            (id, token),
        ),
        webhook_of(webhook_form(i, id, token) + "/"@) == Ok::<
            (Seq<char>, Seq<char>),
            WebhookError,
        >((id, token)),
{
    reveal_strlit("/");
    reveal_strlit("https://discord.com/api/webhooks/");
    reveal_strlit("https://discordapp.com/api/webhooks/");
    reveal_strlit("https://canary.discord.com/api/webhooks/");
    reveal_strlit("https://ptb.discord.com/api/webhooks/");
    let ps = webhook_prefixes();
    assert(webhook_prefixes()[0].len() == 33);
    assert(webhook_prefixes()[1].len() == 36);
    assert(webhook_prefixes()[2].len() == 40);
    assert(webhook_prefixes()[3].len() == 37);
    assert(webhook_prefixes()[0][0] == 'h');
    assert(webhook_prefixes()[1][0] == 'h');
    assert(webhook_prefixes()[2][0] == 'h');
    assert(webhook_prefixes()[3][0] == 'h');
    let path = id + "/"@ + token;
    let t = webhook_form(i, id, token);
    if i >= 0 {
        assert(ps[i] + id + "/"@ + token =~= ps[i] + path);
    }
    assert(is_ascii_digit(id[0]) && token.last() != '/');
    assert(path[0] == id[0] && path.last() == token.last());
    assert(t.last() == token.last());
    lemma_trim_noop(t);
    lemma_skip_last_while(t, CharClass::Is('/'), t.len() as int);
    assert(t.take(t.len() as int) =~= t);
    lemma_pair_path(id, token);
    if i < 0 {
        assert forall|j: int| 0 <= j < ps.len() implies strip_prefix(t, #[trigger] ps[j]) is None by {
            assert(ps[j][0] == 'h');
            lemma_prefix_mismatch(t, ps[j], 0);
        }
        lemma_strip_first_prefix_skip(t, ps, ps.len() as int);
        assert(ps.skip(ps.len() as int).len() == 0);
    } else {
        assert forall|j: int| 0 <= j < i implies strip_prefix(t, #[trigger] ps[j]) is None by {
        if i == 1 {
            assert(ps[1][15] != ps[0][15]);
            lemma_prefix_mismatch(t, ps[0], 15);
        }
        if i == 2 {
            assert(ps[2][8] != ps[0][8]);
            lemma_prefix_mismatch(t, ps[0], 8);
            assert(ps[2][8] != ps[1][8]);
            lemma_prefix_mismatch(t, ps[1], 8);
        }
        if i == 3 {
            assert(ps[3][8] != ps[0][8]);
            lemma_prefix_mismatch(t, ps[0], 8);
            assert(ps[3][8] != ps[1][8]);
            lemma_prefix_mismatch(t, ps[1], 8);
            assert(ps[3][8] != ps[2][8]);
            lemma_prefix_mismatch(t, ps[2], 8);
        }
        }
        lemma_strip_first_prefix_skip(t, ps, i);
        assert(t.take(ps[i].len() as int) =~= ps[i]);
        assert(t.skip(ps[i].len() as int) =~= path);
        assert(ps.skip(i)[0] == ps[i]);
    }
    assert(webhook_path(t) == path);
    assert(webhook_id_part(t) == id);
    assert(webhook_token_part(t) == token);
    // With a trailing `/`: trimming it gives `t` back.
    let t2 = t + "/"@;
    assert(t2[0] == t[0] && t2.last() == '/');
    lemma_trim_noop(t2);
    assert forall|j: int| t.len() <= j < t2.len() implies in_class(#[trigger] t2[j], CharClass::Is('/')) by {
        assert(t2[j] == '/');
    }
    assert(t2[t.len() - 1] == t.last());
    lemma_skip_last_while(t2, CharClass::Is('/'), t.len() as int);
    assert(t2.take(t.len() as int) =~= t);
    assert(webhook_path(t2) == webhook_path(t));
}

/// A webhook reference that is accepted gives a non-empty numeric ID and a
/// non-empty token free of `/` and `?`.
pub proof fn lemma_webhook_shape(raw: Seq<char>)
    ensures
        webhook_of(raw) matches Ok((id, token)) ==> id.len() > 0 && (forall|i: int|
            0 <= i < id.len() ==> '0' <= #[trigger] id[i] <= '9') && token.len() > 0 && (forall|i: int|
            0 <= i < token.len() ==> #[trigger] token[i] != '/' && token[i] != '?'),
{
    let second = take_until(after_first(webhook_path(raw), '/'), CharClass::Is('/'));
    lemma_take_until_props(after_first(webhook_path(raw), '/'), CharClass::Is('/'));
    lemma_take_until_props(second, CharClass::Is('?'));
    if webhook_of(raw) is Ok {
        let token = webhook_token_part(raw);
        assert forall|i: int| 0 <= i < token.len() implies #[trigger] token[i] != '/' && token[i] != '?' by {
            assert(token[i] == second[i]);
            assert(!in_class(second[i], CharClass::Is('/')));
            assert(!in_class(second[i], CharClass::Is('?')));
        }
    }
}

} // verus!
