use discord_recon::full::{detect_target, FullRun, FullStep, StepOutcome, TargetKind};

#[test]
fn detects_target_kinds() {
    assert_eq!(
        detect_target("https://discord.com/api/webhooks/123456789012345678/abc-token"),
        TargetKind::Webhook
    );
    assert_eq!(
        detect_target("123456789012345678/abc-token_XyZ"),
        TargetKind::Webhook
    );
    assert_eq!(
        detect_target("https://discord.gg/python"),
        TargetKind::Invite
    );
    assert_eq!(
        detect_target("https://discord.com/invite/discord-developers"),
        TargetKind::Invite
    );
    assert_eq!(detect_target("discord-developers"), TargetKind::Invite);
    assert_eq!(detect_target("80351110224678912"), TargetKind::Snowflake);
}

#[test]
fn detect_target_edge_cases() {
    assert_eq!(detect_target(" 80351110224678912/ "), TargetKind::Snowflake);
    assert_eq!(detect_target("123/tok/extra"), TargetKind::Invite);
    assert_eq!(detect_target("abc/tok"), TargetKind::Invite);
    assert_eq!(detect_target("123/"), TargetKind::Snowflake);
    assert_eq!(detect_target(""), TargetKind::Invite);
}

#[test]
fn numeric_token_pair_is_not_a_webhook() {
    assert_eq!(detect_target("123/456"), TargetKind::Invite);
    assert_eq!(detect_target("123/45a"), TargetKind::Webhook);
}

fn produced(guild: Option<&str>) -> StepOutcome {
    StepOutcome {
        produced: true,
        guild_id: guild.map(|g| g.to_string()),
    }
}

fn failed() -> StepOutcome {
    StepOutcome {
        produced: false,
        guild_id: None,
    }
}

#[test]
fn full_plan_for_invite_chains_guild() {
    let (mut run, step) = FullRun::start("discord.gg/python", false);
    assert_eq!(step, FullStep::Invite);
    let step = run.advance(produced(Some("267624335836053506")));
    assert_eq!(step, FullStep::Guild("267624335836053506".to_string()));
    let step = run.advance(failed());
    assert_eq!(step, FullStep::Finish { placeholder: false });
}

#[test]
fn full_plan_for_failed_invite_emits_placeholder() {
    let (mut run, step) = FullRun::start("discord.gg/nope", true);
    assert_eq!(step, FullStep::Invite);
    let step = run.advance(failed());
    assert_eq!(step, FullStep::Finish { placeholder: true });
}

#[test]
fn full_plan_for_snowflake() {
    let (mut run, step) = FullRun::start(" 80351110224678912 ", false);
    assert_eq!(step, FullStep::Snowflake("80351110224678912".to_string()));
    assert_eq!(
        run.advance(produced(None)),
        FullStep::Guild("80351110224678912".to_string())
    );
    assert_eq!(run.advance(failed()), FullStep::SkipUser);
    assert_eq!(run.advance(failed()), FullStep::Finish { placeholder: false });

    let (mut run, _) = FullRun::start("80351110224678912", true);
    assert_eq!(
        run.advance(failed()),
        FullStep::Guild("80351110224678912".to_string())
    );
    assert_eq!(
        run.advance(failed()),
        FullStep::User("80351110224678912".to_string())
    );
    assert_eq!(run.advance(failed()), FullStep::Finish { placeholder: true });
}

#[test]
fn full_plan_for_webhook() {
    let (mut run, step) = FullRun::start("123/tok", true);
    assert_eq!(step, FullStep::Webhook);
    assert_eq!(run.advance(produced(None)), FullStep::Finish { placeholder: false });
}

#[test]
fn pair_targets_parse_as_webhooks() {
    for raw in ["123/abc-tok", " 42/T_0/ ", "9/x"] {
        assert_eq!(detect_target(raw), TargetKind::Webhook);
        assert!(discord_recon::webhook::parse_webhook(raw).is_ok());
    }
}
