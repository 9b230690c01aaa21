use discord_recon::report::{
    column_widths, csv_table, csv_text, pad_cell, targets_from_lines, Table, TargetsError,
};

#[test]
fn targets_skip_blank_lines_and_comments() {
    let ts = targets_from_lines("80351110224678912\n\n  # comment\n  175928847299117063  \r\n").unwrap();
    assert_eq!(ts, vec!["80351110224678912", "175928847299117063"]);
    assert_eq!(targets_from_lines(""), Err(TargetsError::NoTargets));
    assert_eq!(targets_from_lines("# only\n   \n"), Err(TargetsError::NoTargets));
    assert_eq!(targets_from_lines("x").unwrap(), vec!["x"]);
}

fn table(module: &str, headers: &[&str], rows: &[&[&str]]) -> Table {
    Table {
        module: module.to_string(),
        headers: headers.iter().map(|h| h.to_string()).collect(),
        rows: rows
            .iter()
            .map(|r| r.iter().map(|c| c.to_string()).collect())
            .collect(),
    }
}

#[test]
fn csv_of_one_table_is_the_table() {
    let t = vec![table("invite", &["Field", "Value"], &[&["Invite code", "abc"]])];
    let (h, rows) = csv_table(&t).unwrap();
    assert_eq!(h, vec!["Field", "Value"]);
    assert_eq!(rows, vec![vec!["Invite code", "abc"]]);
}

#[test]
fn csv_merges_same_shaped_tables() {
    let t = vec![
        table("invite", &["Field", "Value"], &[&["Invite code", "abc"]]),
        table("guild", &["Field", "Value"], &[&["Guild ID", "1"], &["Guild name", "G"]]),
    ];
    let (h, rows) = csv_table(&t).unwrap();
    assert_eq!(h, vec!["module", "Field", "Value"]);
    assert_eq!(
        rows,
        vec![
            vec!["invite", "Invite code", "abc"],
            vec!["guild", "Guild ID", "1"],
            vec!["guild", "Guild name", "G"],
        ]
    );
}

#[test]
fn csv_refuses_mixed_shapes() {
    let t = vec![
        table("invite", &["Field", "Value"], &[]),
        table("snowflake", &["ID", "UTC Timestamp"], &[]),
    ];
    assert!(csv_table(&t).is_none());
}

#[test]
fn csv_text_quotes_when_needed() {
    let headers = vec!["Field".to_string(), "Value".to_string()];
    let rows = vec![
        vec!["Features".to_string(), "COMMUNITY, NEWS".to_string()],
        vec!["Name".to_string(), "say \"hi\"".to_string()],
        vec!["Plain".to_string(), "x".to_string()],
    ];
    assert_eq!(
        csv_text(&headers, &rows),
        "Field,Value\nFeatures,\"COMMUNITY, NEWS\"\nName,\"say \"\"hi\"\"\"\nPlain,x\n"
    );
    assert_eq!(csv_text(&vec![], &vec![]), "\n");
}

#[test]
fn table_layout_pads_columns() {
    let headers = vec!["Field".to_string(), "Value".to_string()];
    let rows = vec![
        vec!["Guild".to_string(), "Discord Developers".to_string()],
        vec!["NSFW".to_string()],
    ];
    assert_eq!(column_widths(&headers, &rows), vec![5, 18]);
    assert_eq!(pad_cell(&"ab".to_string(), 4), "ab  ");
    assert_eq!(pad_cell(&"— x".to_string(), 4), "— x ");
    assert_eq!(pad_cell(&"abcdef".to_string(), 4), "abcdef");
}
