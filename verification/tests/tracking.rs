use discord_recon::invite::{InviteGuild, InviteInfo};
use discord_recon::tracking::{
    delta, format_delta, history_rows, history_table, load_history, record, snapshot, Delta,
    PctText, TrackRecord, TrackStore,
};

fn rec(code: &str, ts: &str, members: u64, online: u64) -> TrackRecord {
    TrackRecord {
        timestamp: ts.to_string(),
        invite_code: code.to_string(),
        guild_id: "613425648685547541".to_string(),
        guild_name: "Discord Developers".to_string(),
        approx_members: members,
        approx_online: online,
    }
}

#[test]
fn store_roundtrip() {
    let mut store = TrackStore::new();

    record(&mut store, rec("abc", "2026-07-01T00:00:00Z", 100, 10));
    record(&mut store, rec("abc", "2026-07-02T00:00:00Z", 120, 12));
    record(&mut store, rec("xyz", "2026-07-01T00:00:00Z", 5, 1));

    let hist = load_history(&store, "abc");
    assert_eq!(hist.len(), 2);
    assert_eq!(hist[0].approx_members, 100);
    assert_eq!(hist[1].approx_members, 120);
    assert_eq!(load_history(&store, "xyz").len(), 1);
    assert!(load_history(&store, "missing").is_empty());
}

#[test]
fn delta_math() {
    let a = rec("abc", "t1", 100, 50);
    let b = rec("abc", "t2", 110, 40);
    let d = delta(&a, &b);
    assert_eq!(d.members_abs, 10);
    assert_eq!(d.online_abs, -10);

    // Zero-growth edge case.
    let d0 = delta(&a, &a);
    assert_eq!(d0.members_abs, 0);
    let z = rec("abc", "t0", 0, 0);
    assert_eq!(delta(&z, &a).members_abs, 100);
}

fn pct_text(prev: u64, next: u64) -> String {
    let pct = if prev == 0 {
        0.0
    } else {
        ((next as f64 - prev as f64) / prev as f64) * 100.0
    };
    format!("{pct:.1}")
}

fn pcts_of(records: &[TrackRecord]) -> (Vec<PctText>, PctText) {
    let pcts = records
        .iter()
        .enumerate()
        .map(|(i, r)| {
            if i == 0 {
                PctText {
                    members: String::new(),
                    online: String::new(),
                }
            } else {
                PctText {
                    members: pct_text(records[i - 1].approx_members, r.approx_members),
                    online: pct_text(records[i - 1].approx_online, r.approx_online),
                }
            }
        })
        .collect();
    let overall = match (records.first(), records.last()) {
        (Some(f), Some(l)) => PctText {
            members: pct_text(f.approx_members, l.approx_members),
            online: pct_text(f.approx_online, l.approx_online),
        },
        _ => PctText {
            members: String::new(),
            online: String::new(),
        },
    };
    (pcts, overall)
}

#[test]
fn delta_formatting() {
    assert_eq!(format_delta(120, &format!("{:.1}", 4.2f64)), "▲ +120 (+4.2%)");
    assert_eq!(format_delta(-30, &format!("{:.1}", -1.1f64)), "▼ -30 (-1.1%)");
    assert_eq!(format_delta(0, &format!("{:.1}", 0.0f64)), "= 0 (0.0%)");
    assert_eq!(format_delta(i64::MIN, "-100.0"), "▼ -9223372036854775808 (-100.0%)");
}

#[test]
fn history_handles_empty_and_series() {
    let mut store = TrackStore::new();

    let records = load_history(&store, "abc");
    let (pcts, overall) = pcts_of(&records);
    let rows = history_table(&records, &pcts, &overall);
    assert!(rows[0][0].contains("no records"));

    record(&mut store, rec("abc", "2026-07-01T00:00:00Z", 100, 10));
    record(&mut store, rec("abc", "2026-07-03T00:00:00Z", 90, 15));
    let records = load_history(&store, "abc");
    let (pcts, overall) = pcts_of(&records);
    let rows = history_table(&records, &pcts, &overall);
    assert_eq!(rows.len(), 3); // 2 points + OVERALL
    assert!(rows[1][3].starts_with('▼'));
    assert!(rows[1][4].starts_with('▲'));
    assert_eq!(rows[2][0], "OVERALL");
}

#[test]
fn history_table_text() {
    let records = vec![
        rec("abc", "2026-07-01T00:00:00Z", 100, 10),
        rec("abc", "2026-07-03T00:00:00Z", 90, 15),
        rec("abc", "2026-07-04T00:00:00Z", 90, 20),
    ];
    let (pcts, overall) = pcts_of(&records);
    let rows = history_table(&records, &pcts, &overall);
    assert_eq!(
        rows[0],
        vec!["2026-07-01T00:00:00Z", "100", "10", "(first seen)", "(first seen)"]
    );
    assert_eq!(
        rows[1],
        vec!["2026-07-03T00:00:00Z", "90", "15", "▼ -10 (-10.0%)", "▲ +5 (+50.0%)"]
    );
    assert_eq!(rows[2][3], "= 0 (0.0%)");
    assert_eq!(
        rows[3],
        vec!["OVERALL", "100 → 90", "10 → 20", "▼ -10 (-10.0%)", "▲ +10 (+100.0%)"]
    );

    let (rows, overall) = history_rows(&records);
    assert_eq!(rows.len(), 3);
    assert!(rows[0].change.is_none());
    assert_eq!(
        overall,
        Some(Delta {
            members_abs: -10,
            online_abs: 10
        })
    );
}

#[test]
fn store_rebuilt_from_its_entries() {
    let mut store = TrackStore::new();
    record(&mut store, rec("a", "t1", 1, 1));
    record(&mut store, rec("b", "t1", 2, 2));
    record(&mut store, rec("a", "t2", 3, 3));
    let copy = TrackStore::from_entries(&store.to_entries());
    for code in ["a", "b", "c"] {
        assert_eq!(load_history(&copy, code), load_history(&store, code));
    }
    let later = TrackStore::from_entries(&vec![
        ("a".to_string(), vec![rec("a", "t1", 1, 1)]),
        ("a".to_string(), vec![rec("a", "t5", 5, 5)]),
    ]);
    assert_eq!(load_history(&later, "a"), vec![rec("a", "t5", 5, 5)]);
}

#[test]
fn record_appends_and_keeps_other_codes() {
    let mut store = TrackStore::new();
    record(&mut store, rec("a", "t1", 1, 1));
    record(&mut store, rec("b", "t1", 2, 2));
    record(&mut store, rec("a", "t2", 3, 3));
    let a = load_history(&store, "a");
    assert_eq!(a, vec![rec("a", "t1", 1, 1), rec("a", "t2", 3, 3)]);
    assert_eq!(load_history(&store, "b"), vec![rec("b", "t1", 2, 2)]);

    let entries = store.to_entries();
    assert_eq!(entries.len(), 2);

    let mut copy = TrackStore::new();
    for (code, records) in entries {
        copy.set_history(code, records);
    }
    assert_eq!(load_history(&copy, "a"), a);
}

#[test]
fn set_history_replaces() {
    let mut store = TrackStore::new();
    record(&mut store, rec("a", "t1", 1, 1));
    store.set_history("a".to_string(), vec![rec("a", "t9", 9, 9)]);
    assert_eq!(load_history(&store, "a"), vec![rec("a", "t9", 9, 9)]);
}

#[test]
fn snapshot_of_invite() {
    let inv = InviteInfo {
        expires_at: None,
        approximate_member_count: Some(294043),
        approximate_presence_count: None,
        guild: Some(InviteGuild {
            id: Some("613425648685547541".to_string()),
            name: None,
            icon: None,
            description: None,
            nsfw: None,
            nsfw_level: None,
            verification_level: None,
            premium_tier: None,
            premium_subscription_count: None,
            features: vec![],
            vanity_url_code: None,
        }),
        channel: None,
        inviter: None,
    };
    let r = snapshot(
        &"discord-developers".to_string(),
        &inv,
        "2026-07-01T00:00:00Z".to_string(),
    );
    assert_eq!(
        r,
        TrackRecord {
            timestamp: "2026-07-01T00:00:00Z".to_string(),
            invite_code: "discord-developers".to_string(),
            guild_id: "613425648685547541".to_string(),
            guild_name: String::new(),
            approx_members: 294043,
            approx_online: 0,
        }
    );
}
