//! Target classification and the plan of the `full` orchestrator.
//!
//! Detection order:
//! 1. Webhook URL (`/api/webhooks/`) or `id/token` with a non-numeric
//!    token segment → webhook
//! 2. Invite URL (`discord.gg/`, `/invite/`) or anything else that is not
//!    purely numeric → invite (then the guild widget, when the invite names
//!    a guild)
//! 3. Numeric snowflake → snowflake, guild widget, then the user profile
//!    when a bot token is available
use vstd::prelude::*;

use crate::invite::lemma_trim_noop;
use crate::text::{
    all_code_chars, all_code_chars_in, all_digits, all_digits_in, chars_of, contains, contains_str,
    decimal, lemma_decimal_digits,
    is_ascii_digit, is_code_char, lemma_skip_last_while, lemma_take_until_props, skip_last_class,
    skip_last_while, string_of, take_until, take_until_class, trim, trim_chars, CharClass,
};
use crate::webhook::{
    after_first, after_first_char, lemma_webhook_forms_parse, webhook_form, webhook_of,
    webhook_path,
};

verus! {

broadcast use vstd::string::group_string_axioms;

/// What a target string looks like.
#[derive(Debug, Clone, Copy, PartialEq, Eq, Structural)]
pub enum TargetKind {
    Webhook,
    Invite,
    Snowflake,
}

/// Whether `compact` is an `id/token` pair: a numeric ID, a `/`, then a
/// non-empty, non-numeric token of ASCII letters, digits, `-` and `_`.
pub open spec fn is_id_token_pair(compact: Seq<char>) -> bool {
    let id = take_until(compact, CharClass::Is('/'));
    let token = after_first(compact, '/');
    &&& id.len() < compact.len()
    &&& id.len() > 0
    &&& all_digits(id)
    &&& token.len() > 0
    &&& all_code_chars(token)
    &&& !all_digits(token)
}

/// The kind that `detect_target` gives `raw`.
pub open spec fn target_kind_of(raw: Seq<char>) -> TargetKind {
    let t = trim(raw);
    let compact = skip_last_while(t, CharClass::Is('/'));
    if contains(t, "/api/webhooks/"@) {
        TargetKind::Webhook
    } else if contains(t, "discord.gg/"@) || contains(t, "/invite/"@) {
        TargetKind::Invite
    } else if compact.len() > 0 && all_digits(compact) {
        TargetKind::Snowflake
    } else if is_id_token_pair(compact) {
        TargetKind::Webhook
    } else {
        TargetKind::Invite
    }
}

proof fn lemma_digits_lack_slash(s: Seq<char>, p: Seq<char>)
    requires
        all_digits(s),
        p.len() > 0,
        p[0] == '/',
    ensures
        !contains(s, p),
{
    if contains(s, p) {
        let i = choose|i: int| 0 <= i && i + p.len() <= s.len() && #[trigger] s.subrange(i, i + p.len()) == p;
        assert(s.subrange(i, i + p.len())[0] == s[i]);
        assert(is_ascii_digit(s[i]));
    }
}

/// A target holding a webhook URL path is a webhook; otherwise one holding
/// an invite URL is an invite; a decimal number is a snowflake.
pub proof fn lemma_target_kinds(raw: Seq<char>, n: nat)
    ensures
        contains(trim(raw), "/api/webhooks/"@) ==> target_kind_of(raw) == TargetKind::Webhook,
        !contains(trim(raw), "/api/webhooks/"@) && (contains(trim(raw), "discord.gg/"@) || contains(
            trim(raw),
            "/invite/"@,
        )) ==> target_kind_of(raw) == TargetKind::Invite,
        target_kind_of(decimal(n)) == TargetKind::Snowflake,
{
    reveal_strlit("/api/webhooks/");
    reveal_strlit("/invite/");
    reveal_strlit("discord.gg/");
    let d = decimal(n);
    lemma_decimal_digits(n);
    lemma_trim_noop(d);
    assert(is_ascii_digit(d.last()));
    lemma_skip_last_while(d, CharClass::Is('/'), d.len() as int);
    assert(d.take(d.len() as int) =~= d);
    lemma_digits_lack_slash(d, "/api/webhooks/"@);
    lemma_digits_lack_slash(d, "/invite/"@);
    if contains(d, "discord.gg/"@) {
        let p = "discord.gg/"@;
        let i = choose|i: int| 0 <= i && i + p.len() <= d.len() && #[trigger] d.subrange(i, i + p.len()) == p;
        assert(d.subrange(i, i + p.len())[0] == d[i]);
        assert(is_ascii_digit(d[i]));
    }
}

/// Classify a target string (webhook URL, invite, or bare snowflake).
pub fn detect_target(raw: &str) -> (k: TargetKind)
    ensures
        k == target_kind_of(raw@),
{
    let v = chars_of(raw);
    let t = trim_chars(&v);
    if contains_str(&t, "/api/webhooks/") {
        return TargetKind::Webhook;
    }
    if contains_str(&t, "discord.gg/") || contains_str(&t, "/invite/") {
        return TargetKind::Invite;
    }
    let compact = skip_last_class(&t, &CharClass::Is('/'));
    if compact.len() > 0 && all_digits_in(&compact) {
        return TargetKind::Snowflake;
    }
    let id = take_until_class(&compact, &CharClass::Is('/'));
    if id.len() < compact.len() {
        let token = after_first_char(&compact, '/');
        if id.len() > 0 && all_digits_in(&id) && token.len() > 0 && all_code_chars_in(&token)
            && !all_digits_in(&token) {
            return TargetKind::Webhook;
        }
    }
    TargetKind::Invite
}

// ---------------------------------------------------------------------------
// The orchestration plan
// ---------------------------------------------------------------------------

/// The next thing the orchestrator does.
#[derive(Debug, PartialEq, Eq)]
pub enum FullStep {
    /// Run the webhook module on the target as given.
    Webhook,
    /// Run the invite module on the target as given.
    Invite,
    /// Decode the (trimmed) target as a snowflake.
    Snowflake(String),
    /// Look up the guild widget of this guild ID.
    Guild(String),
    /// Look up the user profile of this ID.
    User(String),
    /// Note that the user lookup is skipped: no bot token.
    SkipUser,
    /// Stop; emit a placeholder output when nothing was produced.
    Finish { placeholder: bool },
}

/// How the last step went.
pub struct StepOutcome {
    /// The step produced a module output.
    pub produced: bool,
    /// For an invite, the ID of the guild it resolved to.
    pub guild_id: Option<String>,
}

/// The orchestrator's progress through one target.
pub struct FullRun {
    pub kind: TargetKind,
    /// The trimmed target.
    pub id: String,
    pub has_token: bool,
    /// 0 before the first step; 1, 2, 3 after that many steps; 4 when done.
    pub stage: u8,
    /// How many steps produced an output.
    pub produced: u8,
}

impl FullRun {
    pub open spec fn wf(&self) -> bool {
        &&& 1 <= self.stage <= 4
        &&& self.produced < self.stage
        &&& self.kind == TargetKind::Webhook ==> self.stage == 1 || self.stage == 4
        &&& self.kind == TargetKind::Invite ==> self.stage != 3
    }

    /// Classify `target` and give the first step.
    pub fn start(target: &str, has_token: bool) -> (r: (FullRun, FullStep))
        ensures
            r.0.wf(),
            r.0.kind == target_kind_of(target@),
            r.0.id@ == trim(target@),
            r.0.has_token == has_token,
            r.0.stage == 1,
            r.0.produced == 0,
            r.1 == match r.0.kind {
                TargetKind::Webhook => FullStep::Webhook,
                TargetKind::Invite => FullStep::Invite,
                TargetKind::Snowflake => FullStep::Snowflake(r.0.id),
            },
    {
        let kind = detect_target(target);
        let id = string_of(&trim_chars(&chars_of(target)));
        let step = match kind {
            TargetKind::Webhook => FullStep::Webhook,
            TargetKind::Invite => FullStep::Invite,
            TargetKind::Snowflake => FullStep::Snowflake(id.clone()),
        };
        (FullRun { kind, id, has_token, stage: 1, produced: 0 }, step)
    }

    /// Record how the last step went and give the next one.
    pub fn advance(&mut self, outcome: StepOutcome) -> (step: FullStep)
        requires
            old(self).wf(),
            old(self).stage < 4,
        ensures
            final(self).wf(),
            final(self).kind == old(self).kind,
            final(self).id == old(self).id,
            final(self).has_token == old(self).has_token,
            final(self).stage > old(self).stage,
            !(step is Finish) ==> final(self).stage == old(self).stage + 1,
            final(self).produced == old(self).produced + if outcome.produced { 1int } else { 0 },
            (step is Finish) <==> final(self).stage == 4,
            step matches FullStep::Finish { placeholder } ==> placeholder == (final(self).produced
                == 0),
            // webhook: the module, then done
            old(self).kind == TargetKind::Webhook ==> step is Finish,
            // invite: the guild widget when the invite named a guild, then done
            old(self).kind == TargetKind::Invite && old(self).stage == 1 ==> step == match outcome.guild_id {
                Some(g) => FullStep::Guild(g),
                None => FullStep::Finish { placeholder: final(self).produced == 0 },
            },
            old(self).kind == TargetKind::Invite && old(self).stage == 2 ==> step is Finish,
            // snowflake: decode, guild widget, user profile (bot tier only)
            old(self).kind == TargetKind::Snowflake && old(self).stage == 1 ==> step
                == FullStep::Guild(old(self).id),
            old(self).kind == TargetKind::Snowflake && old(self).stage == 2 ==> step == if old(
                self,
            ).has_token {
                FullStep::User(old(self).id)
            } else {
                FullStep::SkipUser
            },
            old(self).kind == TargetKind::Snowflake && old(self).stage == 3 ==> step is Finish,
    {
        if outcome.produced {
            self.produced = self.produced + 1;
        }
        let next = match self.kind {
            TargetKind::Webhook => None,
            TargetKind::Invite => {
                if self.stage == 1 {
                    match outcome.guild_id {
                        Some(g) => Some(FullStep::Guild(g)),
                        None => None,
                    }
                } else {
                    None
                }
            },
            TargetKind::Snowflake => {
                if self.stage == 1 {
                    Some(FullStep::Guild(self.id.clone()))
                } else if self.stage == 2 {
                    if self.has_token {
                        Some(FullStep::User(self.id.clone()))
                    } else {
                        Some(FullStep::SkipUser)
                    }
                } else {
                    None
                }
            },
        };
        match next {
            Some(step) => {
                self.stage = self.stage + 1;
                step
            },
            None => {
                self.stage = 4;
                FullStep::Finish { placeholder: self.produced == 0 }
            },
        }
    }
}


/// A target that `detect_target` takes for an `id/token` pair (not a
/// webhook URL) is one that `parse_webhook` accepts.
pub proof fn lemma_pair_target_parses_as_webhook(raw: Seq<char>)
    requires
        target_kind_of(raw) == TargetKind::Webhook,
        !contains(trim(raw), "/api/webhooks/"@),
    ensures
        webhook_of(raw) is Ok,
{
    reveal_strlit("/");
    let compact = skip_last_while(trim(raw), CharClass::Is('/'));
    assert(is_id_token_pair(compact));
    let id = take_until(compact, CharClass::Is('/'));
    let token = after_first(compact, '/');
    lemma_take_until_props(compact, CharClass::Is('/'));
    assert(compact[id.len() as int] == '/');
    assert(compact =~= id + "/"@ + token);
    assert(webhook_form(-1, id, token) == compact);
    assert forall|j: int| 0 <= j < token.len() implies #[trigger] token[j] != '/' && token[j]
        != '?' by {
        assert(is_code_char(token[j]));
    }
    assert(is_code_char(token.last()));
    lemma_webhook_forms_parse(-1, id, token);
    // `compact` is already trimmed and has no trailing `/`.
    assert(is_ascii_digit(id[0]) && is_code_char(token.last()));
    assert(compact[0] == id[0] && compact.last() == token.last());
    lemma_trim_noop(compact);
    lemma_skip_last_while(compact, CharClass::Is('/'), compact.len() as int);
    assert(compact.take(compact.len() as int) =~= compact);
    assert(webhook_path(raw) == webhook_path(compact));
}

} // verus!
