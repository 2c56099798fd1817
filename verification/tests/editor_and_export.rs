use squad_core::crc::{compute_crc32, compute_crc_db11};
use squad_core::editor::{
    apply_field_updates, apply_formation_preset, assign_player_to_slot, clone_record, ea_date_to_iso,
    filtered_row_indices, find_record_by_int_field, find_team_formation, find_teamsheet, format_import_report,
    formation_shape, int_field, normalize_search, record_matches_search, sanitize_label, table_shortname_by_name,
    teamsheet_slot_count, SlotChange,
};
use squad_core::export::{
    apply_rows, csv_table_text, escape_csv, escape_json, import_csv_text, json_export_text, sheet_name,
    table_display_name, ExportFormat, ImportSummary,
};
use squad_core::meta::parse_meta_xml;
use squad_core::strmap::StrMap;
use squad_core::{FieldValue, ImportReport, SquadFile};

struct Table {
    short: &'static [u8; 4],
    rec_bytes: u32,
    slots: u16,
    written: u16,
    fields: Vec<(i32, i32, [u8; 4], i32)>,
    records: Vec<Vec<u8>>,
}

fn put_u32(b: &mut [u8], pos: usize, v: u32) {
    b[pos..pos + 4].copy_from_slice(&v.to_le_bytes());
}

/// A save with the given tables, each checksum in place.
fn build(tables: &[Table]) -> Vec<u8> {
    let mut b = vec![0u8; 40];
    b.extend_from_slice(b"DB\0\x08\x01\0\0\0");
    b.extend_from_slice(&[0u8; 16]);
    let dir_start = b.len();
    let mut sizes = Vec::new();
    for t in tables {
        let data = t.rec_bytes as usize * t.slots as usize;
        sizes.push(40 + 16 * t.fields.len() + data);
    }
    let mut off = 0u32;
    for (t, size) in tables.iter().zip(&sizes) {
        b.extend_from_slice(t.short);
        b.extend_from_slice(&off.to_le_bytes());
        off += *size as u32;
    }
    let mut prev_region = dir_start;
    for t in tables {
        let start = b.len();
        let mut h = vec![0u8; 40];
        put_u32(&mut h, 0, compute_crc_db11(&b[prev_region..start]) as u32);
        put_u32(&mut h, 8, t.rec_bytes);
        put_u32(&mut h, 12, t.rec_bytes * 8);
        h[20..22].copy_from_slice(&t.slots.to_le_bytes());
        h[22..24].copy_from_slice(&t.written.to_le_bytes());
        h[28] = t.fields.len() as u8;
        b.extend_from_slice(&h);
        prev_region = b.len();
        for (ty, bit, name, depth) in &t.fields {
            b.extend_from_slice(&ty.to_le_bytes());
            b.extend_from_slice(&bit.to_le_bytes());
            b.extend_from_slice(name);
            b.extend_from_slice(&depth.to_le_bytes());
        }
        for i in 0..t.slots as usize {
            let mut r = t.records.get(i).cloned().unwrap_or_default();
            r.resize(t.rec_bytes as usize, 0);
            b.extend_from_slice(&r);
        }
    }
    let end = b.len();
    let crc = compute_crc_db11(&b[prev_region..end]) as u32;
    b.extend_from_slice(&crc.to_le_bytes());
    let file_crc = compute_crc32(&b[36..]);
    put_u32(&mut b, 4, file_crc);
    b
}

const META: &str = r#"
<table name="teams" shortname="TEAM"><fields>
  <field name="teamid" shortname="T001" rangelow="0" />
  <field name="teamname" shortname="T002" rangelow="0" />
</fields></table>
<table name="default_teamsheets" shortname="SHEE"><fields>
  <field name="teamid" shortname="S001" rangelow="0" />
  <field name="playerid0" shortname="S002" rangelow="0" />
  <field name="playerid1" shortname="S003" rangelow="0" />
  <field name="playerid2" shortname="S004" rangelow="0" />
</fields></table>
<table name="formations" shortname="FORM"><fields>
  <field name="teamid" shortname="F001" rangelow="0" />
  <field name="position0" shortname="F002" rangelow="0" />
  <field name="position1" shortname="F003" rangelow="0" />
  <field name="position2" shortname="F004" rangelow="0" />
  <field name="position3" shortname="F005" rangelow="0" />
  <field name="offset1x" shortname="F006" rangelow="0" />
  <field name="formationname" shortname="F007" rangelow="0" />
</fields></table>
"#;

fn squad() -> SquadFile {
    let team_rec = |id: u8, name: &[u8]| {
        let mut r = vec![id];
        r.extend_from_slice(name);
        r
    };
    let sheet = |team: u8, p: [u16; 3]| {
        let mut r = vec![team];
        for x in p {
            r.extend_from_slice(&x.to_le_bytes());
        }
        r
    };
    let form = |team: u8, pos: [u8; 4], off: f32, name: &[u8]| {
        let mut r = vec![team];
        r.extend_from_slice(&pos);
        r.extend_from_slice(&off.to_bits().to_le_bytes());
        r.extend_from_slice(name);
        r
    };
    let tables = vec![
        Table {
            short: b"TEAM",
            rec_bytes: 9,
            slots: 3,
            written: 2,
            fields: vec![(3, 0, *b"T001", 8), (0, 8, *b"T002", 64)],
            records: vec![team_rec(10, b"Arsenal"), team_rec(20, b"Atl\xc3\xa9tico")],
        },
        Table {
            short: b"SHEE",
            rec_bytes: 7,
            slots: 2,
            written: 1,
            fields: vec![(3, 0, *b"S001", 8), (3, 8, *b"S002", 16), (3, 24, *b"S003", 16), (3, 40, *b"S004", 16)],
            records: vec![sheet(10, [100, 101, 102])],
        },
        Table {
            short: b"FORM",
            rec_bytes: 15,
            slots: 2,
            written: 2,
            fields: vec![
                (3, 0, *b"F001", 8),
                (3, 8, *b"F002", 8),
                (3, 16, *b"F003", 8),
                (3, 24, *b"F004", 8),
                (3, 32, *b"F005", 8),
                (4, 40, *b"F006", 32),
                (0, 72, *b"F007", 48),
            ],
            records: vec![form(10, [0, 3, 12, 25], 0.25, b"4-4-2"), form(0, [0, 5, 6, 14], 0.5, b"5-3-2")],
        },
    ];
    let meta = parse_meta_xml(META).unwrap();
    SquadFile::load_from_bytes(build(&tables), Some(&meta)).unwrap()
}

fn float_text(b: u32) -> String {
    f32::from_bits(b).to_string()
}

fn parse_float(s: &str) -> Option<u32> {
    s.parse::<f32>().ok().map(f32::to_bits)
}

#[test]
fn export_formats_are_listed_and_described() {
    assert_eq!(ExportFormat::all(), vec![ExportFormat::Xlsx, ExportFormat::Csv, ExportFormat::Json, ExportFormat::Tsv]);
    assert!(ExportFormat::Xlsx.is_single_file());
    assert!(ExportFormat::Json.is_single_file());
    assert!(!ExportFormat::Csv.is_single_file());
    assert_eq!(ExportFormat::Tsv.extension(), "tsv");
    assert_eq!(ExportFormat::Json.label(), "JSON (single file)");
}

#[test]
fn sheet_names_are_cleaned_cut_and_numbered() {
    let mut used: StrMap<usize> = StrMap::new();
    assert_eq!(sheet_name("a/b:c", &mut used), "a_b_c");
    assert_eq!(sheet_name("a/b:c", &mut used), "a_b_c~1");
    let long = "abcdefghijklmnopqrstuvwxyz0123456789";
    assert_eq!(sheet_name(long, &mut used), "abcdefghijklmnopqrstuvwxyz01234");
    assert_eq!(sheet_name(long, &mut used), "abcdefghijklmnopqrstuvwxyz012~1");
}

#[test]
fn csv_and_json_escaping() {
    assert_eq!(escape_csv("plain"), "plain");
    assert_eq!(escape_csv("a,b"), "\"a,b\"");
    assert_eq!(escape_csv("say \"hi\""), "\"say \"\"hi\"\"\"");
    assert_eq!(escape_json("a\"b\\c\nd\u{1}"), "a\\\"b\\\\c\\nd\\u0001");
}

#[test]
fn csv_text_of_a_table() {
    let s = squad();
    assert_eq!(table_display_name(&s, "TEAM"), "teams");
    assert_eq!(table_display_name(&s, "NONE"), "NONE");
    assert_eq!(csv_table_text(&s, 0, &float_text), "#,teamid,teamname\r\n0,10,Arsenal\r\n1,20,Atl\u{e9}tic\r\n");
    assert_eq!(
        csv_table_text(&s, 2, &float_text),
        "#,teamid,position0,position1,position2,position3,offset1x,formationname\r\n0,10,0,3,12,25,0.25,4-4-2\r\n1,0,0,5,6,14,0.5,5-3-2\r\n"
    );
}

#[test]
fn json_text_of_every_table() {
    let s = squad();
    let text = json_export_text(&s, &float_text);
    assert!(text.starts_with("{\n  \"teams\": [\n    {\"#\": 0, \"teamid\": 10, \"teamname\": \"Arsenal\"},\n"));
    assert!(text.contains("\"offset1x\": 0.25, \"formationname\": \"4-4-2\"}"));
    assert!(text.ends_with("\n  ]\n}\n"));
}

#[test]
fn csv_import_applies_rows_by_header() {
    let mut s = squad();
    let mut summary = ImportSummary { tables_touched: 0, cells_updated: 0, cells_failed: 0 };
    import_csv_text(&mut s, "teams", "#,teamid,teamname,unknown\r\n0,11,\"Gunners, FC\",x\r\n1,abc,Atl\r\n\r\n", &mut summary, &parse_float);
    // "abc" is no integer, and "Gunners, FC" is longer than the field
    assert_eq!(summary.cells_updated, 2);
    assert_eq!(summary.cells_failed, 2);
    assert_eq!(summary.tables_touched, 1);
    assert_eq!(int_field(&s, "TEAM", 0, "teamid"), Some(11));
    assert_eq!(s.get_field("TEAM", 0, "teamname").unwrap(), FieldValue::Str("Arsenal".to_string()));
    assert_eq!(s.get_field("TEAM", 1, "teamname").unwrap(), FieldValue::Str("Atl".to_string()));
}

#[test]
fn csv_rows_for_an_unknown_table_change_nothing() {
    let mut s = squad();
    let before = s.buf.clone();
    let mut summary = ImportSummary { tables_touched: 0, cells_updated: 0, cells_failed: 0 };
    apply_rows(&mut s, "nothing", &["#".to_string()], &[vec!["0".to_string()]], &mut summary, &parse_float);
    assert_eq!(s.buf, before);
    assert_eq!(summary.cells_updated, 0);
}

#[test]
fn integer_lookups() {
    let s = squad();
    assert_eq!(int_field(&s, "TEAM", 1, "teamid"), Some(20));
    assert_eq!(int_field(&s, "TEAM", 1, "teamname"), None);
    assert_eq!(find_record_by_int_field(&s, "TEAM", "teamid", 20), Some(1));
    assert_eq!(find_record_by_int_field(&s, "TEAM", "teamid", 99), None);
    assert_eq!(table_shortname_by_name(&s, "formations").as_deref(), Some("FORM"));
    assert_eq!(find_teamsheet(&s, 10), Some(("SHEE".to_string(), 0)));
    assert_eq!(find_team_formation(&s, 10), Some(("FORM".to_string(), 0)));
    assert_eq!(find_team_formation(&s, 77), None);
    assert_eq!(teamsheet_slot_count(&s, "SHEE"), 3);
    assert_eq!(teamsheet_slot_count(&s, "TEAM"), 0);
}

#[test]
fn formation_shape_counts_lines() {
    let s = squad();
    assert_eq!(formation_shape(&s, "FORM", 0), "1-1-1");
    assert_eq!(formation_shape(&s, "FORM", 1), "2-1-0");
}

#[test]
fn assigning_a_bench_player_replaces_the_starter() {
    let mut s = squad();
    let (change, entry) = assign_player_to_slot(&mut s, "SHEE", 0, 1, 555);
    assert_eq!(change, SlotChange::Replaced { applied: 1, failed: 0 });
    assert_eq!(entry.len(), 1);
    assert_eq!(entry[0].field_name, "playerid1");
    assert_eq!(entry[0].old_value, FieldValue::Int(101));
    assert_eq!(int_field(&s, "SHEE", 0, "playerid1"), Some(555));
    assert_eq!(int_field(&s, "SHEE", 0, "playerid0"), Some(100));
    s.prepare_for_save().unwrap();
}

#[test]
fn assigning_a_player_already_on_the_pitch_swaps_the_two_slots() {
    let mut s = squad();
    assert_eq!(
        assign_player_to_slot(&mut s, "SHEE", 0, 0, 102).0,
        SlotChange::Swapped { other_slot: 2, applied: 2, failed: 0 }
    );
    assert_eq!(int_field(&s, "SHEE", 0, "playerid0"), Some(102));
    assert_eq!(int_field(&s, "SHEE", 0, "playerid2"), Some(100));
}

#[test]
fn assigning_the_same_player_changes_nothing() {
    let mut s = squad();
    let before = s.buf.clone();
    let (change, entry) = assign_player_to_slot(&mut s, "SHEE", 0, 1, 101);
    assert_eq!(change, SlotChange::AlreadyThere);
    assert!(entry.is_empty());
    assert_eq!(s.buf, before);
}

#[test]
fn applying_a_preset_copies_its_slots_and_name() {
    let mut s = squad();
    let (applied, failed, name, entry) = apply_formation_preset(&mut s, "FORM", 1, 0);
    assert_eq!(entry.len(), 6);
    assert_eq!(entry[5].field_name, "formationname");
    assert_eq!(entry[5].old_value, FieldValue::Str("4-4-2".to_string()));
    assert_eq!(name, "5-3-2");
    assert_eq!(failed, 0);
    assert_eq!(applied, 6);
    assert_eq!(formation_shape(&s, "FORM", 0), "2-1-0");
    assert_eq!(s.get_field("FORM", 0, "offset1x").unwrap(), FieldValue::Float(0.5f32.to_bits()));
    assert_eq!(int_field(&s, "FORM", 0, "teamid"), Some(10));
    s.prepare_for_save().unwrap();
}

#[test]
fn cloning_copies_every_field() {
    let mut s = squad();
    let reference = squad();
    assert_eq!(clone_record(&mut s, &reference, "TEAM", 1, 0), Some((2, 0)));
    assert_eq!(int_field(&s, "TEAM", 0, "teamid"), Some(20));
    assert_eq!(clone_record(&mut s, &reference, "NONE", 1, 0), None);
}

#[test]
fn field_updates_count_applied_and_failed() {
    let mut s = squad();
    let updates = vec![
        ("teamid".to_string(), FieldValue::Int(30)),
        ("teamid".to_string(), FieldValue::Int(999)),
        ("teamname".to_string(), FieldValue::Str("X".to_string())),
    ];
    assert_eq!(apply_field_updates(&mut s, "TEAM", 1, updates), (2, 1));
    assert_eq!(int_field(&s, "TEAM", 1, "teamid"), Some(30));
}

#[test]
fn search_normalizes_accents_case_and_punctuation() {
    assert_eq!(normalize_search("Atl\u{e9}tico Madrid!"), "atleticomadrid");
    assert_eq!(normalize_search("  "), "");
    assert_eq!(sanitize_label("a\u{202e}b\nc"), "abc");
    assert_eq!(sanitize_label("clean"), "clean");
}

#[test]
fn search_by_team_name_substring_finds_matching_teams() {
    let s = squad();
    let t = s.table("TEAM").unwrap();
    let all = vec![0usize, 1];
    assert_eq!(filtered_row_indices(&s, t, "TEAM", &all, "  "), vec![0, 1]);
    assert_eq!(filtered_row_indices(&s, t, "TEAM", &all, "ATLET"), vec![1]);
    assert_eq!(filtered_row_indices(&s, t, "TEAM", &all, "10"), vec![0]);
    assert!(record_matches_search(&s, t, "TEAM", 0, None, "arsenal"));
    assert!(!record_matches_search(&s, t, "TEAM", 0, Some(20), "zzz"));
}

#[test]
fn dates_convert_to_iso() {
    assert_eq!(ea_date_to_iso(0), "");
    assert_eq!(ea_date_to_iso(-5), "");
    assert_eq!(ea_date_to_iso(1), "1582-10-15");
    assert_eq!(ea_date_to_iso(141428), "1970-01-01");
    assert_eq!(ea_date_to_iso(152385), "2000-01-01");
    assert_eq!(ea_date_to_iso(158023), "2015-06-09");
}

#[test]
fn import_report_message() {
    let mut r = ImportReport::default();
    r.cells_updated = 3;
    r.cells_failed = 1;
    assert_eq!(format_import_report(&r), "Import complete: 3 cells updated, 1 failed, 0 rows skipped");
    r.unknown_columns = vec!["a".to_string(), "b".to_string()];
    assert_eq!(
        format_import_report(&r),
        "Import complete: 3 cells updated, 1 failed, 0 rows skipped - unknown columns: a, b"
    );
}

fn csv_dump(s: &SquadFile) -> Vec<(String, String)> {
    (0..s.tables.len())
        .map(|i| (table_display_name(s, &s.tables[i].shortname), csv_table_text(s, i, &float_text)))
        .collect()
}

fn csv_reimport(s: &mut SquadFile, files: &[(String, String)]) -> ImportSummary {
    let mut summary = ImportSummary { tables_touched: 0, cells_updated: 0, cells_failed: 0 };
    for (name, content) in files {
        import_csv_text(s, name, content, &mut summary, &parse_float);
    }
    summary
}

#[test]
fn csv_export_then_import_roundtrip_changes_nothing() {
    let mut s = squad();
    let before = s.buf.clone();
    let files = csv_dump(&s);
    let summary = csv_reimport(&mut s, &files);
    assert!(summary.cells_updated > 0, "no cell read back");
    assert_eq!(s.buf, before, "the CSV round trip modified the file");
}

#[test]
fn csv_export_then_import_restores_an_edited_value() {
    let mut s = squad();
    let files = csv_dump(&s);
    let original = s.get_field("TEAM", 0, "teamid").unwrap();
    s.set_field("TEAM", 0, "teamid", FieldValue::Int(42)).unwrap();
    assert_eq!(s.get_field("TEAM", 0, "teamid").unwrap().as_int(), Some(42));
    let summary = csv_reimport(&mut s, &files);
    assert!(summary.cells_updated > 0);
    assert_eq!(s.get_field("TEAM", 0, "teamid").unwrap(), original);
    s.recompute_file_crc();
    assert!(s.validate_crc_chain().is_empty());
}
