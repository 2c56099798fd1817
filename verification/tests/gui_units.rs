use squad_core::csv::parse_csv_line;
use squad_core::domains;
use squad_core::fifa_history::{apply_card_to_field_values, HistoricalDatabase};
use squad_core::FieldValue;

#[test]
fn domain_lookup_resolves_position_labels() {
    let label = domains::label_for("players", "preferredfoot", 0);
    assert_eq!(label, Some("Right"));
}

#[test]
fn parses_quoted_fields_with_commas() {
    let line = r#"1,"CF, ST",normal"#;
    let fields = parse_csv_line(line);
    assert_eq!(fields, vec!["1", "CF, ST", "normal"]);
}

#[test]
fn loads_and_finds_card_by_version() {
    let csv = "player_id,fifa_version,fifa_update,overall,preferred_foot\n158023,23,9,91,Left\n158023,22,5,93,Left\n";
    let db = HistoricalDatabase::from_csv(csv);
    let mut versions = db.versions_for(158023);
    versions.sort();
    assert_eq!(versions, vec![22, 23]);

    let card = db.card_for(158023, 22).unwrap();
    assert_eq!(card.fields.get("overall").unwrap(), "93");

    let (updates, report) = apply_card_to_field_values(card);
    assert!(updates.contains(&("overallrating".to_string(), FieldValue::Int(93))));
    assert!(updates.contains(&("preferredfoot".to_string(), FieldValue::Int(0))));
    assert!(!updates.is_empty());
    assert!(report.skipped > 0);
}
