//! Invite intelligence: invite codes and the names of guild levels.
use vstd::prelude::*;

use crate::text::{
    all_code_chars, all_code_chars_in, chars_of, decimal, filled_rows, has_char, in_class,
    contains, labels_distinct, lemma_shows_filled_at, lemma_skip_last_while_props,
    lemma_take_until_props, lemma_trim_props, shows_filled,
    is_code_char, is_ws, join, join_strings, lemma_skip_last_while, lemma_skip_while,
    lemma_take_until, opt_text, opt_view, paren_text, push_decimal, retain_filled, row,
    skip_last_class, skip_last_while, string_of, strip_prefix, strip_prefix_str, take_until,
    take_until_class, trim, trim_chars, with_paren, CharClass,
};

verus! {

broadcast use vstd::string::group_string_axioms;

/// The URL forms that an invite code may be given in, tried in this order.
pub open spec fn invite_prefixes() -> Seq<Seq<char>> {
    seq![
        "https://discord.gg/"@,
        "http://discord.gg/"@,
        "https://www.discord.gg/"@,
        "discord.gg/"@,
        "www.discord.gg/"@,
        "https://discord.com/invite/"@,
        "https://discordapp.com/invite/"@,
        "https://www.discord.com/invite/"@,
        "https://canary.discord.com/invite/"@,
        "https://ptb.discord.com/invite/"@,
        "discord.com/invite/"@,
    ]
}

/// `t` without the first prefix of `ps` that it starts with, or `t` itself
/// when it starts with none of them.
pub open spec fn strip_first_prefix(t: Seq<char>, ps: Seq<Seq<char>>) -> Seq<char>
    decreases ps.len(),
{
    if ps.len() == 0 {
        t
    } else {
        match strip_prefix(t, ps[0]) {
            Some(rest) => rest,
            None => strip_first_prefix(t, ps.drop_first()),
        }
    }
}

/// Removes the first matching prefix of `prefixes` from `t`.
pub fn strip_first_prefix_of(t: &Vec<char>, prefixes: &[&str]) -> (r: Vec<char>)
    ensures
        r@ == strip_first_prefix(t@, prefixes@.map_values(|p: &str| p@)),
{
    let ghost ps = prefixes@.map_values(|p: &str| p@);
    assert(ps.skip(0) =~= ps);
    let mut i: usize = 0;
    while i < prefixes.len()
        invariant
            i <= prefixes.len(),
            ps == prefixes@.map_values(|p: &str| p@),
            strip_first_prefix(t@, ps) == strip_first_prefix(t@, ps.skip(i as int)),
        decreases prefixes.len() - i,
    {
        let ghost rest_ps = ps.skip(i as int);
        assert(rest_ps[0] == prefixes@[i as int]@);
        match strip_prefix_str(t, prefixes[i]) {
            Some(rest) => {
                return rest;
            },
            None => {
                assert(rest_ps.drop_first() =~= ps.skip(i + 1));
            },
        }
        i += 1;
    }
    assert(ps.skip(i as int).len() == 0);
    sub_all(t)
}

fn sub_all(t: &Vec<char>) -> (r: Vec<char>)
    ensures
        r@ == t@,
{
    let mut r: Vec<char> = Vec::new();
    let mut i: usize = 0;
    while i < t.len()
        invariant
            i <= t.len(),
            r@ == t@.take(i as int),
        decreases t.len() - i,
    {
        r.push(t[i]);
        assert(t@.take(i + 1) =~= t@.take(i as int).push(t@[i as int]));
        i += 1;
    }
    assert(t@.take(t.len() as int) =~= t@);
    r
}

/// Whether `code` is a well-formed invite code: non-empty, no `/`, and only
/// ASCII letters, digits, `-` and `_`.
pub open spec fn valid_invite_code(code: Seq<char>) -> bool {
    code.len() > 0 && !code.contains('/') && all_code_chars(code)
}

/// The invite code held by `raw`: surrounding whitespace and trailing `/`
/// are dropped, then a known URL prefix, then anything from the first `?`
/// or `#`, then whitespace again.
pub open spec fn invite_code_of(raw: Seq<char>) -> Option<Seq<char>> {
    let t = skip_last_while(trim(raw), CharClass::Is('/'));
    let rest = strip_first_prefix(t, invite_prefixes());
    let code = trim(take_until(rest, CharClass::IsEither('?', '#')));
    if valid_invite_code(code) {
        Some(code)
    } else {
        None
    }
}

/// An input that holds no invite code.
#[derive(Debug, Clone, Copy, PartialEq, Eq, Structural)]
pub enum InviteError {
    Invalid,
}

/// Extract the invite code from a code or any Discord invite URL form.
pub fn parse_invite_code(raw: &str) -> (r: Result<String, InviteError>)
    ensures
        match r {
            Ok(code) => invite_code_of(raw@) == Some(code@),
            Err(_) => invite_code_of(raw@) is None,
        },
{
    let prefixes: [&str; 11] = [
        "https://discord.gg/",
        "http://discord.gg/",
        "https://www.discord.gg/",
        "discord.gg/",
        "www.discord.gg/",
        "https://discord.com/invite/",
        "https://discordapp.com/invite/",
        "https://www.discord.com/invite/",
        "https://canary.discord.com/invite/",
        "https://ptb.discord.com/invite/",
        "discord.com/invite/",
    ];
    assert(prefixes@.map_values(|p: &str| p@) =~= invite_prefixes());
    let v = chars_of(raw);
    let t = skip_last_class(&trim_chars(&v), &CharClass::Is('/'));
    let rest = strip_first_prefix_of(&t, prefixes.as_slice());
    let code = trim_chars(&take_until_class(&rest, &CharClass::IsEither('?', '#')));
    if code.len() == 0 || has_char(&code, '/') || !all_code_chars_in(&code) {
        return Err(InviteError::Invalid);
    }
    Ok(string_of(&code))
}

pub open spec fn verification_level_text(level: Option<u32>) -> Seq<char> {
    match level {
        Some(0) => "0 — None"@,
        Some(1) => "1 — Low (verified email)"@,
        Some(2) => "2 — Medium (registered >5 min)"@,
        Some(3) => "3 — High (member >10 min)"@,
        Some(4) => "4 — Very High (verified phone)"@,
        _ => "(unknown)"@,
    }
}

/// The name of a guild verification level.
pub fn verification_level_name(level: Option<u32>) -> (s: String)
    ensures
        s@ == verification_level_text(level),
{
    match level {
        Some(0) => String::from_str("0 — None"),
        Some(1) => String::from_str("1 — Low (verified email)"),
        Some(2) => String::from_str("2 — Medium (registered >5 min)"),
        Some(3) => String::from_str("3 — High (member >10 min)"),
        Some(4) => String::from_str("4 — Very High (verified phone)"),
        _ => String::from_str("(unknown)"),
    }
}

pub open spec fn boost_tier_text(tier: Option<u32>) -> Seq<char> {
    match tier {
        Some(0) => "0 — None"@,
        Some(1) => "1 — Level 1"@,
        Some(2) => "2 — Level 2"@,
        Some(3) => "3 — Level 3"@,
        _ => "(unknown)"@,
    }
}

/// The name of a guild boost (premium) tier.
pub fn boost_tier_name(tier: Option<u32>) -> (s: String)
    ensures
        s@ == boost_tier_text(tier),
{
    match tier {
        Some(0) => String::from_str("0 — None"),
        Some(1) => String::from_str("1 — Level 1"),
        Some(2) => String::from_str("2 — Level 2"),
        Some(3) => String::from_str("3 — Level 3"),
        _ => String::from_str("(unknown)"),
    }
}

// ---------------------------------------------------------------------------
// The invite table
// ---------------------------------------------------------------------------

/// The guild an invite resolves to, as the invites endpoint describes it.
pub struct InviteGuild {
    pub id: Option<String>,
    pub name: Option<String>,
    pub icon: Option<String>,
    pub description: Option<String>,
    pub nsfw: Option<bool>,
    pub nsfw_level: Option<u32>,
    pub verification_level: Option<u32>,
    pub premium_tier: Option<u32>,
    pub premium_subscription_count: Option<u32>,
    pub features: Vec<String>,
    pub vanity_url_code: Option<String>,
}

/// The channel an invite leads to.
pub struct InviteChannel {
    pub id: Option<String>,
    pub name: Option<String>,
}

/// A Discord user as an invite or a webhook exposes it.
pub struct PartialUser {
    pub id: Option<String>,
    pub username: Option<String>,
    pub global_name: Option<String>,
    pub avatar: Option<String>,
}

/// What the public invites endpoint tells about an invite.
pub struct InviteInfo {
    pub expires_at: Option<String>,
    pub approximate_member_count: Option<u64>,
    pub approximate_presence_count: Option<u64>,
    pub guild: Option<InviteGuild>,
    pub channel: Option<InviteChannel>,
    pub inviter: Option<PartialUser>,
}

/// The name a user is shown by: the global name, else the username.
pub open spec fn shown_name(u: PartialUser) -> Seq<char> {
    match u.global_name {
        Some(g) => g@,
        None => opt_view(u.username),
    }
}

/// `name (id)` for a user, or `(not exposed)`.
pub open spec fn user_text(u: Option<PartialUser>) -> Seq<char> {
    match u {
        Some(u) => with_paren(shown_name(u), opt_view(u.id)),
        None => "(not exposed)"@,
    }
}

pub fn user_label(u: &Option<PartialUser>) -> (s: String)
    ensures
        s@ == user_text(*u),
{
    match u {
        Some(u) => {
            let name = match &u.global_name {
                Some(g) => g.clone(),
                None => opt_text(&u.username),
            };
            paren_text(&name, &opt_text(&u.id))
        },
        None => String::from_str("(not exposed)"),
    }
}

pub open spec fn opt_decimal(n: Option<u64>) -> Seq<char> {
    match n {
        Some(n) => decimal(n as nat),
        None => Seq::empty(),
    }
}

fn opt_decimal_text(n: Option<u64>) -> (s: String)
    ensures
        s@ == opt_decimal(n),
{
    let mut s = String::new();
    match n {
        Some(n) => {
            push_decimal(&mut s, n);
            assert(s@ =~= decimal(n as nat));
        },
        None => {},
    }
    s
}

pub open spec fn yes_no_text(b: Option<bool>) -> Seq<char> {
    match b {
        Some(true) => "yes"@,
        Some(false) => "no"@,
        None => "(unknown)"@,
    }
}

fn yes_no(b: Option<bool>) -> (s: String)
    ensures
        s@ == yes_no_text(b),
{
    match b {
        Some(true) => String::from_str("yes"),
        Some(false) => String::from_str("no"),
        None => String::from_str("(unknown)"),
    }
}

/// A field of the guild, empty when there is no guild.
pub open spec fn guild_text(g: Option<InviteGuild>, f: spec_fn(InviteGuild) -> Seq<char>) -> Seq<char> {
    match g {
        Some(g) => f(g),
        None => Seq::empty(),
    }
}

pub open spec fn boost_text(g: Option<InviteGuild>) -> Seq<char> {
    let tier = match g {
        Some(g) => g.premium_tier,
        None => None,
    };
    let count = match g {
        Some(g) => match g.premium_subscription_count {
            Some(n) => decimal(n as nat),
            None => "?"@,
        },
        None => "?"@,
    };
    boost_tier_text(tier) + " ("@ + count + " boosts)"@
}

pub open spec fn channel_text(c: Option<InviteChannel>) -> Seq<char> {
    match c {
        Some(c) => "#"@ + with_paren(opt_view(c.name), opt_view(c.id)),
        None => Seq::empty(),
    }
}

/// Every row of the invite table, before empty values are dropped.
pub open spec fn invite_rows_all(code: Seq<char>, inv: InviteInfo) -> Seq<Seq<Seq<char>>> {
    let g = inv.guild;
    seq![
        seq!["Invite code"@, code],
        seq!["Guild"@, with_paren(guild_text(g, |g: InviteGuild| opt_view(g.name)), guild_text(g, |g: InviteGuild| opt_view(g.id)))],
        seq!["Description"@, guild_text(g, |g: InviteGuild| opt_view(g.description))],
        seq!["Channel"@, channel_text(inv.channel)],
        seq!["Approx. members"@, opt_decimal(inv.approximate_member_count)],
        seq!["Approx. online"@, opt_decimal(inv.approximate_presence_count)],
        seq!["Inviter"@, user_text(inv.inviter)],
        seq!["Expires at"@, match inv.expires_at { Some(e) => e@, None => "(never)"@ }],
        seq!["NSFW"@, yes_no_text(match g { Some(g) => g.nsfw, None => None })],
        seq!["Verification level"@, verification_level_text(match g { Some(g) => g.verification_level, None => None })],
        seq!["Boost tier"@, boost_text(g)],
        seq!["Vanity URL"@, guild_text(g, |g: InviteGuild| opt_view(g.vanity_url_code))],
        seq!["Features"@, guild_text(g, |g: InviteGuild| join(g.features.deep_view(), ", "@))],
    ]
}

/// The invite table: the rows of `invite_rows_all` whose value is not empty.
pub open spec fn invite_rows_spec(code: Seq<char>, inv: InviteInfo) -> Seq<Seq<Seq<char>>> {
    filled_rows(invite_rows_all(code, inv))
}

/// The labels of the invite table are distinct.
proof fn lemma_invite_labels(code: Seq<char>, inv: InviteInfo)
    ensures
        labels_distinct(invite_rows_all(code, inv)),
{
    reveal_strlit("Approx. members");
    reveal_strlit("Approx. online");
    reveal_strlit("Boost tier");
    reveal_strlit("Channel");
    reveal_strlit("Description");
    reveal_strlit("Expires at");
    reveal_strlit("Features");
    reveal_strlit("Guild");
    reveal_strlit("Invite code");
    reveal_strlit("Inviter");
    reveal_strlit("NSFW");
    reveal_strlit("Vanity URL");
    reveal_strlit("Verification level");
    let t = invite_rows_all(code, inv);
    assert(t[0][0] == "Invite code"@);
    assert(t[1][0] == "Guild"@);
    assert(t[2][0] == "Description"@);
    assert(t[3][0] == "Channel"@);
    assert(t[4][0] == "Approx. members"@);
    assert(t[5][0] == "Approx. online"@);
    assert(t[6][0] == "Inviter"@);
    assert(t[7][0] == "Expires at"@);
    assert(t[8][0] == "NSFW"@);
    assert(t[9][0] == "Verification level"@);
    assert(t[10][0] == "Boost tier"@);
    assert(t[11][0] == "Vanity URL"@);
    assert(t[12][0] == "Features"@);
    assert forall|i: int, j: int| 0 <= i < j < t.len() implies t[i][0] != t[j][0] by {
        if i == 0 {
            if j == 1 {
                assert(t[0][0].len() != t[1][0].len());
            } else if j == 2 {
                assert(t[0][0][0] != t[2][0][0]);
            } else if j == 3 {
                assert(t[0][0].len() != t[3][0].len());
            } else if j == 4 {
                assert(t[0][0].len() != t[4][0].len());
            } else if j == 5 {
                assert(t[0][0].len() != t[5][0].len());
            } else if j == 6 {
                assert(t[0][0].len() != t[6][0].len());
            } else if j == 7 {
                assert(t[0][0].len() != t[7][0].len());
            } else if j == 8 {
                assert(t[0][0].len() != t[8][0].len());
            } else if j == 9 {
                assert(t[0][0].len() != t[9][0].len());
            } else if j == 10 {
                assert(t[0][0].len() != t[10][0].len());
            } else if j == 11 {
                assert(t[0][0].len() != t[11][0].len());
            } else {
                assert(t[0][0].len() != t[12][0].len());
            }
        } else if i == 1 {
            if j == 2 {
                assert(t[1][0].len() != t[2][0].len());
            } else if j == 3 {
                assert(t[1][0].len() != t[3][0].len());
            } else if j == 4 {
                assert(t[1][0].len() != t[4][0].len());
            } else if j == 5 {
                assert(t[1][0].len() != t[5][0].len());
            } else if j == 6 {
                assert(t[1][0].len() != t[6][0].len());
            } else if j == 7 {
                assert(t[1][0].len() != t[7][0].len());
            } else if j == 8 {
                assert(t[1][0].len() != t[8][0].len());
            } else if j == 9 {
                assert(t[1][0].len() != t[9][0].len());
            } else if j == 10 {
                assert(t[1][0].len() != t[10][0].len());
            } else if j == 11 {
                assert(t[1][0].len() != t[11][0].len());
            } else {
                assert(t[1][0].len() != t[12][0].len());
            }
        } else if i == 2 {
            if j == 3 {
                assert(t[2][0].len() != t[3][0].len());
            } else if j == 4 {
                assert(t[2][0].len() != t[4][0].len());
            } else if j == 5 {
                assert(t[2][0].len() != t[5][0].len());
            } else if j == 6 {
                assert(t[2][0].len() != t[6][0].len());
            } else if j == 7 {
                assert(t[2][0].len() != t[7][0].len());
            } else if j == 8 {
                assert(t[2][0].len() != t[8][0].len());
            } else if j == 9 {
                assert(t[2][0].len() != t[9][0].len());
            } else if j == 10 {
                assert(t[2][0].len() != t[10][0].len());
            } else if j == 11 {
                assert(t[2][0].len() != t[11][0].len());
            } else {
                assert(t[2][0].len() != t[12][0].len());
            }
        } else if i == 3 {
            if j == 4 {
                assert(t[3][0].len() != t[4][0].len());
            } else if j == 5 {
                assert(t[3][0].len() != t[5][0].len());
            } else if j == 6 {
                assert(t[3][0][0] != t[6][0][0]);
            } else if j == 7 {
                assert(t[3][0].len() != t[7][0].len());
            } else if j == 8 {
                assert(t[3][0].len() != t[8][0].len());
            } else if j == 9 {
                assert(t[3][0].len() != t[9][0].len());
            } else if j == 10 {
                assert(t[3][0].len() != t[10][0].len());
            } else if j == 11 {
                assert(t[3][0].len() != t[11][0].len());
            } else {
                assert(t[3][0].len() != t[12][0].len());
            }
        } else if i == 4 {
            if j == 5 {
                assert(t[4][0].len() != t[5][0].len());
            } else if j == 6 {
                assert(t[4][0].len() != t[6][0].len());
            } else if j == 7 {
                assert(t[4][0].len() != t[7][0].len());
            } else if j == 8 {
                assert(t[4][0].len() != t[8][0].len());
            } else if j == 9 {
                assert(t[4][0].len() != t[9][0].len());
            } else if j == 10 {
                assert(t[4][0].len() != t[10][0].len());
            } else if j == 11 {
                assert(t[4][0].len() != t[11][0].len());
            } else {
                assert(t[4][0].len() != t[12][0].len());
            }
        } else if i == 5 {
            if j == 6 {
                assert(t[5][0].len() != t[6][0].len());
            } else if j == 7 {
                assert(t[5][0].len() != t[7][0].len());
            } else if j == 8 {
                assert(t[5][0].len() != t[8][0].len());
            } else if j == 9 {
                assert(t[5][0].len() != t[9][0].len());
            } else if j == 10 {
                assert(t[5][0].len() != t[10][0].len());
            } else if j == 11 {
                assert(t[5][0].len() != t[11][0].len());
            } else {
                assert(t[5][0].len() != t[12][0].len());
            }
        } else if i == 6 {
            if j == 7 {
                assert(t[6][0].len() != t[7][0].len());
            } else if j == 8 {
                assert(t[6][0].len() != t[8][0].len());
            } else if j == 9 {
                assert(t[6][0].len() != t[9][0].len());
            } else if j == 10 {
                assert(t[6][0].len() != t[10][0].len());
            } else if j == 11 {
                assert(t[6][0].len() != t[11][0].len());
            } else {
                assert(t[6][0].len() != t[12][0].len());
            }
        } else if i == 7 {
            if j == 8 {
                assert(t[7][0].len() != t[8][0].len());
            } else if j == 9 {
                assert(t[7][0].len() != t[9][0].len());
            } else if j == 10 {
                assert(t[7][0][0] != t[10][0][0]);
            } else if j == 11 {
                assert(t[7][0][0] != t[11][0][0]);
            } else {
                assert(t[7][0].len() != t[12][0].len());
            }
        } else if i == 8 {
            if j == 9 {
                assert(t[8][0].len() != t[9][0].len());
            } else if j == 10 {
                assert(t[8][0].len() != t[10][0].len());
            } else if j == 11 {
                assert(t[8][0].len() != t[11][0].len());
            } else {
                assert(t[8][0].len() != t[12][0].len());
            }
        } else if i == 9 {
            if j == 10 {
                assert(t[9][0].len() != t[10][0].len());
            } else if j == 11 {
                assert(t[9][0].len() != t[11][0].len());
            } else {
                assert(t[9][0].len() != t[12][0].len());
            }
        } else if i == 10 {
            if j == 11 {
                assert(t[10][0][0] != t[11][0][0]);
            } else {
                assert(t[10][0].len() != t[12][0].len());
            }
        } else {
            assert(t[11][0].len() != t[12][0].len());
        }
    }
}

/// The invite table shows each non-empty field of the invite under its own
/// label: the code, the guild's name and ID, its description, the channel,
/// the approximate counts, the inviter, the expiry, whether the guild is
/// NSFW, its verification level, its boost tier and count, its vanity code
/// and its features. A field that is empty has no row.
pub proof fn lemma_invite_table_fields(code: Seq<char>, inv: InviteInfo)
    ensures
        shows_filled(
            invite_rows_spec(code, inv),
            "Invite code"@,
            code,
        ),
        shows_filled(
            invite_rows_spec(code, inv),
            "Guild"@,
            match inv.guild {
                Some(g) => opt_view(g.name) + " ("@ + opt_view(g.id) + ")"@,
                None => " ()"@,
            },
        ),
        shows_filled(
            invite_rows_spec(code, inv),
            "Description"@,
            match inv.guild {
                Some(g) => opt_view(g.description),
                None => Seq::empty(),
            },
        ),
        shows_filled(
            invite_rows_spec(code, inv),
            "Channel"@,
            match inv.channel {
                Some(c) => "#"@ + opt_view(c.name) + " ("@ + opt_view(c.id) + ")"@,
                None => Seq::empty(),
            },
        ),
        shows_filled(
            invite_rows_spec(code, inv),
            "Approx. members"@,
            match inv.approximate_member_count {
                Some(n) => decimal(n as nat),
                None => Seq::empty(),
            },
        ),
        shows_filled(
            invite_rows_spec(code, inv),
            "Approx. online"@,
            match inv.approximate_presence_count {
                Some(n) => decimal(n as nat),
                None => Seq::empty(),
            },
        ),
        shows_filled(
            invite_rows_spec(code, inv),
            "Inviter"@,
            user_text(inv.inviter),
        ),
        shows_filled(
            invite_rows_spec(code, inv),
            "Expires at"@,
            match inv.expires_at {
                Some(e) => e@,
                None => "(never)"@,
            },
        ),
        shows_filled(
            invite_rows_spec(code, inv),
            "NSFW"@,
            match inv.guild {
                Some(g) => match g.nsfw {
                    Some(true) => "yes"@,
                    Some(false) => "no"@,
                    None => "(unknown)"@,
                },
                None => "(unknown)"@,
            },
        ),
        shows_filled(
            invite_rows_spec(code, inv),
            "Verification level"@,
            match inv.guild {
                Some(g) => match g.verification_level {
                    Some(0) => "0 — None"@,
                    Some(1) => "1 — Low (verified email)"@,
                    Some(2) => "2 — Medium (registered >5 min)"@,
                    Some(3) => "3 — High (member >10 min)"@,
                    Some(4) => "4 — Very High (verified phone)"@,
                    _ => "(unknown)"@,
                },
                None => "(unknown)"@,
            },
        ),
        shows_filled(
            invite_rows_spec(code, inv),
            "Boost tier"@,
            match inv.guild {
                Some(g) => (match g.premium_tier {
                    Some(0) => "0 — None"@,
                    Some(1) => "1 — Level 1"@,
                    Some(2) => "2 — Level 2"@,
                    Some(3) => "3 — Level 3"@,
                    _ => "(unknown)"@,
                }) + " ("@ + (match g.premium_subscription_count {
                    Some(n) => decimal(n as nat),
                    None => "?"@,
                }) + " boosts)"@,
                None => "(unknown) (? boosts)"@,
            },
        ),
        shows_filled(
            invite_rows_spec(code, inv),
            "Vanity URL"@,
            match inv.guild {
                Some(g) => opt_view(g.vanity_url_code),
                None => Seq::empty(),
            },
        ),
        shows_filled(
            invite_rows_spec(code, inv),
            "Features"@,
            match inv.guild {
                Some(g) => join(g.features.deep_view(), ", "@),
                None => Seq::empty(),
            },
        ),
{
    reveal_strlit("(unknown)");
    reveal_strlit(" (");
    reveal_strlit(" boosts)");
    reveal_strlit("?");
    reveal_strlit("(unknown) (? boosts)");
    assert("(unknown)"@ + " ("@ + "?"@ + " boosts)"@ =~= "(unknown) (? boosts)"@);
    reveal_strlit(")");
    reveal_strlit(" ()");
    assert(Seq::<char>::empty() + " ("@ + Seq::<char>::empty() + ")"@ =~= " ()"@);
    match inv.channel {
        Some(c) => {
            assert("#"@ + with_paren(opt_view(c.name), opt_view(c.id)) =~= "#"@ + opt_view(c.name)
                + " ("@ + opt_view(c.id) + ")"@);
        },
        None => {},
    }
    lemma_invite_labels(code, inv);
    let t = invite_rows_all(code, inv);
    lemma_shows_filled_at(t, 0);
    lemma_shows_filled_at(t, 1);
    lemma_shows_filled_at(t, 2);
    lemma_shows_filled_at(t, 3);
    lemma_shows_filled_at(t, 4);
    lemma_shows_filled_at(t, 5);
    lemma_shows_filled_at(t, 6);
    lemma_shows_filled_at(t, 7);
    lemma_shows_filled_at(t, 8);
    lemma_shows_filled_at(t, 9);
    lemma_shows_filled_at(t, 10);
    lemma_shows_filled_at(t, 11);
    lemma_shows_filled_at(t, 12);
}

/// The table rows shown for an invite.
pub fn invite_rows(code: &String, inv: &InviteInfo) -> (r: Vec<Vec<String>>)
    ensures
        r.deep_view() == invite_rows_spec(code@, *inv),
{
    let (name, id, description, nsfw, level, tier, count, vanity, features) = match &inv.guild {
        Some(g) => (
            opt_text(&g.name),
            opt_text(&g.id),
            opt_text(&g.description),
            g.nsfw,
            g.verification_level,
            g.premium_tier,
            g.premium_subscription_count,
            opt_text(&g.vanity_url_code),
            join_strings(&g.features, ", "),
        ),
        None => (
            String::new(),
            String::new(),
            String::new(),
            None,
            None,
            None,
            None,
            String::new(),
            String::new(),
        ),
    };
    let channel = match &inv.channel {
        Some(c) => {
            let mut s = String::from_str("#");
            let p = paren_text(&opt_text(&c.name), &opt_text(&c.id));
            s.append(p.as_str());
            s
        },
        None => String::new(),
    };
    let expires = match &inv.expires_at {
        Some(e) => e.clone(),
        None => String::from_str("(never)"),
    };
    let mut boost = boost_tier_name(tier);
    boost.append(" (");
    match count {
        Some(n) => push_decimal(&mut boost, n as u64),
        None => boost.append("?"),
    }
    boost.append(" boosts)");
    let rows = vec![
        row("Invite code", code.clone()),
        row("Guild", paren_text(&name, &id)),
        row("Description", description),
        row("Channel", channel),
        row("Approx. members", opt_decimal_text(inv.approximate_member_count)),
        row("Approx. online", opt_decimal_text(inv.approximate_presence_count)),
        row("Inviter", user_label(&inv.inviter)),
        row("Expires at", expires),
        row("NSFW", yes_no(nsfw)),
        row("Verification level", verification_level_name(level)),
        row("Boost tier", boost),
        row("Vanity URL", vanity),
        row("Features", features),
    ];
    assert(rows@.len() == 13);
    assert(rows.deep_view()[0] == invite_rows_all(code@, *inv)[0]);
    assert(rows.deep_view()[1] == invite_rows_all(code@, *inv)[1]);
    assert(rows.deep_view()[2] == invite_rows_all(code@, *inv)[2]);
    assert(rows.deep_view()[3] == invite_rows_all(code@, *inv)[3]);
    assert(rows.deep_view()[4] == invite_rows_all(code@, *inv)[4]);
    assert(rows.deep_view()[5] == invite_rows_all(code@, *inv)[5]);
    assert(rows.deep_view()[6] == invite_rows_all(code@, *inv)[6]);
    assert(rows.deep_view()[7] == invite_rows_all(code@, *inv)[7]);
    assert(rows.deep_view()[8] == invite_rows_all(code@, *inv)[8]);
    assert(rows.deep_view()[9] == invite_rows_all(code@, *inv)[9]);
    assert(rows.deep_view()[10] == invite_rows_all(code@, *inv)[10]);
    assert(rows.deep_view()[11] == invite_rows_all(code@, *inv)[11]);
    assert(rows.deep_view()[12] == invite_rows_all(code@, *inv)[12]);
    assert(rows.deep_view() =~= invite_rows_all(code@, *inv));
    assert forall|i: int| 0 <= i < rows@.len() implies #[trigger] rows@[i]@.len() == 2 by {
        assert(rows.deep_view()[i].len() == 2);
    }
    retain_filled(rows)
}

/// The ID of the guild an invite resolves to, when the invite names one.
pub open spec fn invite_guild_id_of(inv: InviteInfo) -> Option<Seq<char>> {
    match inv.guild {
        Some(g) => match g.id {
            Some(id) => Some(id@),
            None => None,
        },
        None => None,
    }
}

pub fn invite_guild_id(inv: &InviteInfo) -> (r: Option<String>)
    ensures
        match r {
            Some(id) => invite_guild_id_of(*inv) == Some(id@),
            None => invite_guild_id_of(*inv) is None,
        },
{
    match &inv.guild {
        Some(g) => match &g.id {
            Some(id) => Some(id.clone()),
            None => None,
        },
        None => None,
    }
}

/// The public invites endpoint for `code`, with counts and expiration.
pub fn invite_url(code: &String) -> (s: String)
    ensures
        s@ == "https://discord.com/api/v10/invites/"@ + code@ + "?with_counts=true&with_expiration=true"@,
{
    let mut s = String::from_str("https://discord.com/api/v10/invites/");
    s.append(code.as_str());
    s.append("?with_counts=true&with_expiration=true");
    s
}


// ---------------------------------------------------------------------------
// Every documented form gives the code back
// ---------------------------------------------------------------------------

/// A string without whitespace at either end is its own trim.
pub proof fn lemma_trim_noop(s: Seq<char>)
    requires
        s.len() == 0 || (!is_ws(s[0]) && !is_ws(s.last())),
    ensures
        trim(s) == s,
{
    lemma_skip_while(s, CharClass::Whitespace, 0);
    assert(s.skip(0) =~= s);
    lemma_skip_last_while(s, CharClass::Whitespace, s.len() as int);
    assert(s.take(s.len() as int) =~= s);
}

/// A prefix that differs from `t` at position `k` does not strip.
pub proof fn lemma_prefix_mismatch(t: Seq<char>, q: Seq<char>, k: int)
    requires
        0 <= k < q.len(),
        k < t.len(),
        t[k] != q[k],
    ensures
        strip_prefix(t, q) is None,
{
    if q.len() <= t.len() && t.take(q.len() as int) == q {
        assert(t.take(q.len() as int)[k] == t[k]);
    }
}

/// A prefix holding a character that `t` lacks does not strip.
pub proof fn lemma_prefix_missing_char(t: Seq<char>, q: Seq<char>, k: int)
    requires
        0 <= k < q.len(),
        !t.contains(q[k]),
    ensures
        strip_prefix(t, q) is None,
{
    if q.len() <= t.len() && t.take(q.len() as int) == q {
        assert(t.take(q.len() as int)[k] == t[k]);
    }
}

/// Prefixes that do not strip are passed over.
pub proof fn lemma_strip_first_prefix_skip(t: Seq<char>, ps: Seq<Seq<char>>, i: int)
    requires
        0 <= i <= ps.len(),
        forall|j: int| 0 <= j < i ==> strip_prefix(t, #[trigger] ps[j]) is None,
    ensures
        strip_first_prefix(t, ps) == strip_first_prefix(t, ps.skip(i)),
    decreases i,
{
    if i == 0 {
        assert(ps.skip(0) =~= ps);
    } else {
        let rest = ps.drop_first();
        assert forall|j: int| 0 <= j < i - 1 implies strip_prefix(t, #[trigger] rest[j]) is None by {
            assert(rest[j] == ps[j + 1]);
        }
        lemma_strip_first_prefix_skip(t, rest, i - 1);
        assert(rest.skip(i - 1) =~= ps.skip(i));
    }
}

proof fn lemma_code_is_plain(c: Seq<char>)
    requires
        valid_invite_code(c),
    ensures
        trim(c) == c,
        skip_last_while(c, CharClass::Is('/')) == c,
        take_until(c, CharClass::IsEither('?', '#')) == c,
        !c.contains('/'),
{
    assert(is_code_char(c[0]) && is_code_char(c.last()));
    lemma_trim_noop(c);
    lemma_skip_last_while(c, CharClass::Is('/'), c.len() as int);
    assert(c.take(c.len() as int) =~= c);
    assert forall|j: int| 0 <= j < c.len() implies !in_class(#[trigger] c[j], CharClass::IsEither('?', '#')) by {
        assert(is_code_char(c[j]));
    }
    lemma_take_until(c, CharClass::IsEither('?', '#'), c.len() as int);
}

/// A bare invite code is taken as it is.
pub proof fn lemma_bare_code_parses(c: Seq<char>)
    requires
        valid_invite_code(c),
    ensures
        invite_code_of(c) == Some(c),
{
    reveal_strlit("https://discord.gg/");
    reveal_strlit("http://discord.gg/");
    reveal_strlit("https://www.discord.gg/");
    reveal_strlit("discord.gg/");
    reveal_strlit("www.discord.gg/");
    reveal_strlit("https://discord.com/invite/");
    reveal_strlit("https://discordapp.com/invite/");
    reveal_strlit("https://www.discord.com/invite/");
    reveal_strlit("https://canary.discord.com/invite/");
    reveal_strlit("https://ptb.discord.com/invite/");
    reveal_strlit("discord.com/invite/");
    lemma_code_is_plain(c);
    let ps = invite_prefixes();
    assert(invite_prefixes()[0][6] == '/');
    assert(invite_prefixes()[1][5] == '/');
    assert(invite_prefixes()[2][6] == '/');
    assert(invite_prefixes()[3][10] == '/');
    assert(invite_prefixes()[4][14] == '/');
    assert(invite_prefixes()[5][6] == '/');
    assert(invite_prefixes()[6][6] == '/');
    assert(invite_prefixes()[7][6] == '/');
    assert(invite_prefixes()[8][6] == '/');
    assert(invite_prefixes()[9][6] == '/');
    assert(invite_prefixes()[10][11] == '/');
    assert forall|j: int| 0 <= j < ps.len() implies strip_prefix(c, #[trigger] ps[j]) is None by {
        if j == 0 { lemma_prefix_missing_char(c, ps[j], 6); }
        if j == 1 { lemma_prefix_missing_char(c, ps[j], 5); }
        if j == 2 { lemma_prefix_missing_char(c, ps[j], 6); }
        if j == 3 { lemma_prefix_missing_char(c, ps[j], 10); }
        if j == 4 { lemma_prefix_missing_char(c, ps[j], 14); }
        if j == 5 { lemma_prefix_missing_char(c, ps[j], 6); }
        if j == 6 { lemma_prefix_missing_char(c, ps[j], 6); }
        if j == 7 { lemma_prefix_missing_char(c, ps[j], 6); }
        if j == 8 { lemma_prefix_missing_char(c, ps[j], 6); }
        if j == 9 { lemma_prefix_missing_char(c, ps[j], 6); }
        if j == 10 { lemma_prefix_missing_char(c, ps[j], 11); }
    }
    lemma_strip_first_prefix_skip(c, ps, ps.len() as int);
    assert(ps.skip(ps.len() as int).len() == 0);
}

/// Each documented invite URL form followed by a code gives the code.
pub proof fn lemma_invite_url_parses(i: int, c: Seq<char>)
    requires
        0 <= i < invite_prefixes().len(),
        valid_invite_code(c),
    ensures
        invite_code_of(invite_prefixes()[i] + c) == Some(c),
{
    reveal_strlit("https://discord.gg/");
    reveal_strlit("http://discord.gg/");
    reveal_strlit("https://www.discord.gg/");
    reveal_strlit("discord.gg/");
    reveal_strlit("www.discord.gg/");
    reveal_strlit("https://discord.com/invite/");
    reveal_strlit("https://discordapp.com/invite/");
    reveal_strlit("https://www.discord.com/invite/");
    reveal_strlit("https://canary.discord.com/invite/");
    reveal_strlit("https://ptb.discord.com/invite/");
    reveal_strlit("discord.com/invite/");
    let ps = invite_prefixes();
    let t = ps[i] + c;
    assert(invite_prefixes()[0].len() == 19);
    assert(invite_prefixes()[1].len() == 18);
    assert(invite_prefixes()[2].len() == 23);
    assert(invite_prefixes()[3].len() == 11);
    assert(invite_prefixes()[4].len() == 15);
    assert(invite_prefixes()[5].len() == 27);
    assert(invite_prefixes()[6].len() == 30);
    assert(invite_prefixes()[7].len() == 31);
    assert(invite_prefixes()[8].len() == 34);
    assert(invite_prefixes()[9].len() == 31);
    assert(invite_prefixes()[10].len() == 19);
    assert(!is_ws(invite_prefixes()[0][0]));
    assert(!is_ws(invite_prefixes()[1][0]));
    assert(!is_ws(invite_prefixes()[2][0]));
    assert(!is_ws(invite_prefixes()[3][0]));
    assert(!is_ws(invite_prefixes()[4][0]));
    assert(!is_ws(invite_prefixes()[5][0]));
    assert(!is_ws(invite_prefixes()[6][0]));
    assert(!is_ws(invite_prefixes()[7][0]));
    assert(!is_ws(invite_prefixes()[8][0]));
    assert(!is_ws(invite_prefixes()[9][0]));
    assert(!is_ws(invite_prefixes()[10][0]));
    lemma_code_is_plain(c);
    assert(is_code_char(c.last()));
    assert(t.last() == c.last());
    lemma_trim_noop(t);
    lemma_skip_last_while(t, CharClass::Is('/'), t.len() as int);
    assert(t.take(t.len() as int) =~= t);
    assert forall|j: int| 0 <= j < i implies strip_prefix(t, #[trigger] ps[j]) is None by {
        if i == 1 {
            assert(ps[1].len() == 18);
            assert(ps[1][4] != ps[0][4]);
            lemma_prefix_mismatch(t, ps[0], 4);
        }
        if i == 2 {
            assert(ps[2].len() == 23);
            assert(ps[2][8] != ps[0][8]);
            lemma_prefix_mismatch(t, ps[0], 8);
            assert(ps[2][4] != ps[1][4]);
            lemma_prefix_mismatch(t, ps[1], 4);
        }
        if i == 3 {
            assert(ps[3].len() == 11);
            assert(ps[3][0] != ps[0][0]);
            lemma_prefix_mismatch(t, ps[0], 0);
            assert(ps[3][0] != ps[1][0]);
            lemma_prefix_mismatch(t, ps[1], 0);
            assert(ps[3][0] != ps[2][0]);
            lemma_prefix_mismatch(t, ps[2], 0);
        }
        if i == 4 {
            assert(ps[4].len() == 15);
            assert(ps[4][0] != ps[0][0]);
            lemma_prefix_mismatch(t, ps[0], 0);
            assert(ps[4][0] != ps[1][0]);
            lemma_prefix_mismatch(t, ps[1], 0);
            assert(ps[4][0] != ps[2][0]);
            lemma_prefix_mismatch(t, ps[2], 0);
            assert(ps[4][0] != ps[3][0]);
            lemma_prefix_mismatch(t, ps[3], 0);
        }
        if i == 5 {
            assert(ps[5].len() == 27);
            assert(ps[5][16] != ps[0][16]);
            lemma_prefix_mismatch(t, ps[0], 16);
            assert(ps[5][4] != ps[1][4]);
            lemma_prefix_mismatch(t, ps[1], 4);
            assert(ps[5][8] != ps[2][8]);
            lemma_prefix_mismatch(t, ps[2], 8);
            assert(ps[5][0] != ps[3][0]);
            lemma_prefix_mismatch(t, ps[3], 0);
            assert(ps[5][0] != ps[4][0]);
            lemma_prefix_mismatch(t, ps[4], 0);
        }
        if i == 6 {
            assert(ps[6].len() == 30);
            assert(ps[6][15] != ps[0][15]);
            lemma_prefix_mismatch(t, ps[0], 15);
            assert(ps[6][4] != ps[1][4]);
            lemma_prefix_mismatch(t, ps[1], 4);
            assert(ps[6][8] != ps[2][8]);
            lemma_prefix_mismatch(t, ps[2], 8);
            assert(ps[6][0] != ps[3][0]);
            lemma_prefix_mismatch(t, ps[3], 0);
            assert(ps[6][0] != ps[4][0]);
            lemma_prefix_mismatch(t, ps[4], 0);
            assert(ps[6][15] != ps[5][15]);
            lemma_prefix_mismatch(t, ps[5], 15);
        }
        if i == 7 {
            assert(ps[7].len() == 31);
            assert(ps[7][8] != ps[0][8]);
            lemma_prefix_mismatch(t, ps[0], 8);
            assert(ps[7][4] != ps[1][4]);
            lemma_prefix_mismatch(t, ps[1], 4);
            assert(ps[7][20] != ps[2][20]);
            lemma_prefix_mismatch(t, ps[2], 20);
            assert(ps[7][0] != ps[3][0]);
            lemma_prefix_mismatch(t, ps[3], 0);
            assert(ps[7][0] != ps[4][0]);
            lemma_prefix_mismatch(t, ps[4], 0);
            assert(ps[7][8] != ps[5][8]);
            lemma_prefix_mismatch(t, ps[5], 8);
            assert(ps[7][8] != ps[6][8]);
            lemma_prefix_mismatch(t, ps[6], 8);
        }
        if i == 8 {
            assert(ps[8].len() == 34);
            assert(ps[8][8] != ps[0][8]);
            lemma_prefix_mismatch(t, ps[0], 8);
            assert(ps[8][4] != ps[1][4]);
            lemma_prefix_mismatch(t, ps[1], 4);
            assert(ps[8][8] != ps[2][8]);
            lemma_prefix_mismatch(t, ps[2], 8);
            assert(ps[8][0] != ps[3][0]);
            lemma_prefix_mismatch(t, ps[3], 0);
            assert(ps[8][0] != ps[4][0]);
            lemma_prefix_mismatch(t, ps[4], 0);
            assert(ps[8][8] != ps[5][8]);
            lemma_prefix_mismatch(t, ps[5], 8);
            assert(ps[8][8] != ps[6][8]);
            lemma_prefix_mismatch(t, ps[6], 8);
            assert(ps[8][8] != ps[7][8]);
            lemma_prefix_mismatch(t, ps[7], 8);
        }
        if i == 9 {
            assert(ps[9].len() == 31);
            assert(ps[9][8] != ps[0][8]);
            lemma_prefix_mismatch(t, ps[0], 8);
            assert(ps[9][4] != ps[1][4]);
            lemma_prefix_mismatch(t, ps[1], 4);
            assert(ps[9][8] != ps[2][8]);
            lemma_prefix_mismatch(t, ps[2], 8);
            assert(ps[9][0] != ps[3][0]);
            lemma_prefix_mismatch(t, ps[3], 0);
            assert(ps[9][0] != ps[4][0]);
            lemma_prefix_mismatch(t, ps[4], 0);
            assert(ps[9][8] != ps[5][8]);
            lemma_prefix_mismatch(t, ps[5], 8);
            assert(ps[9][8] != ps[6][8]);
            lemma_prefix_mismatch(t, ps[6], 8);
            assert(ps[9][8] != ps[7][8]);
            lemma_prefix_mismatch(t, ps[7], 8);
            assert(ps[9][8] != ps[8][8]);
            lemma_prefix_mismatch(t, ps[8], 8);
        }
        if i == 10 {
            assert(ps[10].len() == 19);
            assert(ps[10][0] != ps[0][0]);
            lemma_prefix_mismatch(t, ps[0], 0);
            assert(ps[10][0] != ps[1][0]);
            lemma_prefix_mismatch(t, ps[1], 0);
            assert(ps[10][0] != ps[2][0]);
            lemma_prefix_mismatch(t, ps[2], 0);
            assert(ps[10][8] != ps[3][8]);
            lemma_prefix_mismatch(t, ps[3], 8);
            assert(ps[10][0] != ps[4][0]);
            lemma_prefix_mismatch(t, ps[4], 0);
            assert(ps[10][0] != ps[5][0]);
            lemma_prefix_mismatch(t, ps[5], 0);
            assert(ps[10][0] != ps[6][0]);
            lemma_prefix_mismatch(t, ps[6], 0);
            assert(ps[10][0] != ps[7][0]);
            lemma_prefix_mismatch(t, ps[7], 0);
            assert(ps[10][0] != ps[8][0]);
            lemma_prefix_mismatch(t, ps[8], 0);
            assert(ps[10][0] != ps[9][0]);
            lemma_prefix_mismatch(t, ps[9], 0);
        }
    }
    lemma_strip_first_prefix_skip(t, ps, i);
    assert(t.take(ps[i].len() as int) =~= ps[i]);
    assert(t.skip(ps[i].len() as int) =~= c);
    assert(ps.skip(i)[0] == ps[i]);
}

/// A user is shown by the global name when it has one, else by the
/// username, followed by the ID in brackets; an absent user is
/// `(not exposed)`.
pub proof fn lemma_user_text(u: Option<PartialUser>)
    ensures
        u is None ==> user_text(u) == "(not exposed)"@,
        u is Some && u->0.global_name is Some ==> user_text(u) == u->0.global_name->0@ + " ("@
            + opt_view(u->0.id) + ")"@,
        u is Some && u->0.global_name is None ==> user_text(u) == opt_view(u->0.username) + " ("@
            + opt_view(u->0.id) + ")"@,
{
}

/// The guild ID given for an invite is its guild's ID, when both are known.
pub proof fn lemma_invite_guild_id(inv: InviteInfo)
    ensures
        inv.guild is Some && inv.guild->0.id is Some ==> invite_guild_id_of(inv) == Some(
            inv.guild->0.id->0@,
        ),
        inv.guild is Some && inv.guild->0.id is None ==> invite_guild_id_of(inv) is None,
        inv.guild is None ==> invite_guild_id_of(inv) is None,
{
}

proof fn lemma_strip_first_prefix_piece(t: Seq<char>, ps: Seq<Seq<char>>)
    ensures
        exists|a: int| 0 <= a <= t.len() && strip_first_prefix(t, ps) == t.skip(a),
    decreases ps.len(),
{
    if ps.len() == 0 {
        assert(t.skip(0) =~= t);
    } else {
        match strip_prefix(t, ps[0]) {
            Some(rest) => {},
            None => {
                lemma_strip_first_prefix_piece(t, ps.drop_first());
            },
        }
    }
}

proof fn lemma_invite_code_is_piece(raw: Seq<char>)
    ensures
        invite_code_of(raw) matches Some(c) ==> contains(raw, c),
{
    if invite_code_of(raw) is Some {
        let c = invite_code_of(raw)->0;
        let t0 = trim(raw);
        lemma_trim_props(raw);
        let (a0, b0) = choose|a: int, b: int|
            0 <= a <= b <= raw.len() && trim(raw) == raw.subrange(a, b) && (forall|i: int|
                0 <= i < a ==> is_ws(#[trigger] raw[i])) && (forall|i: int|
                b <= i < raw.len() ==> is_ws(#[trigger] raw[i]));
        let t = skip_last_while(t0, CharClass::Is('/'));
        lemma_skip_last_while_props(t0, CharClass::Is('/'));
        let rest = strip_first_prefix(t, invite_prefixes());
        lemma_strip_first_prefix_piece(t, invite_prefixes());
        let a1 = choose|a: int| 0 <= a <= t.len() && rest == t.skip(a);
        let u = take_until(rest, CharClass::IsEither('?', '#'));
        lemma_take_until_props(rest, CharClass::IsEither('?', '#'));
        lemma_trim_props(u);
        let (a2, b2) = choose|a: int, b: int|
            0 <= a <= b <= u.len() && trim(u) == u.subrange(a, b) && (forall|i: int|
                0 <= i < a ==> is_ws(#[trigger] u[i])) && (forall|i: int|
                b <= i < u.len() ==> is_ws(#[trigger] u[i]));
        let start = a0 + a1 + a2;
        let end = a0 + a1 + b2;
        assert(c =~= raw.subrange(start, end));
        assert(raw.subrange(start, start + c.len()) == c);
    }
}

/// Every invite code accepted is a non-empty run of ASCII letters, digits,
/// `-` and `_`, found in the input.
pub proof fn lemma_invite_code_shape(raw: Seq<char>)
    ensures
        invite_code_of(raw) matches Some(c) ==> c.len() > 0 && contains(raw, c) && forall|i: int|
            0 <= i < c.len() ==> ('0' <= #[trigger] c[i] <= '9' || 'a' <= c[i] <= 'z' || 'A' <= c[i]
                <= 'Z' || c[i] == '-' || c[i] == '_'),
{
    if invite_code_of(raw) is Some {
        let c = invite_code_of(raw)->0;
        assert forall|i: int| 0 <= i < c.len() implies ('0' <= #[trigger] c[i] <= '9' || 'a' <= c[i]
            <= 'z' || 'A' <= c[i] <= 'Z' || c[i] == '-' || c[i] == '_') by {
            assert(is_code_char(c[i]));
        }
        lemma_invite_code_is_piece(raw);
    }
}

} // verus!
