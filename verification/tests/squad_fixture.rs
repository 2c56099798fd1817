use squad_core::crc::{compute_crc32, compute_crc_db11};
use squad_core::meta::parse_meta_xml;
use squad_core::tsv;
use squad_core::{FieldType, FieldValue, MetaMap, SquadError, SquadFile};

const META: &str = r#"
<table name="teams" shortname="TEST">
  <fields>
    <field name="teamid" shortname="AAAA" rangelow="0" />
    <field name="overallrating" shortname="BBBB" rangelow="-10" />
    <field name="teamname" shortname="CCCC" rangelow="0" />
    <field name="rating" shortname="DDDD" rangelow="0" />
  </fields>
</table>
<table name="links" shortname="SECO">
  <fields>
    <field name="playerid" shortname="XXXX" rangelow="0" />
  </fields>
</table>
"#;

fn put_u32(b: &mut [u8], pos: usize, v: u32) {
    b[pos..pos + 4].copy_from_slice(&v.to_le_bytes());
}

fn put_desc(b: &mut Vec<u8>, ty: i32, bit_offset: i32, name: &[u8; 4], depth: i32) {
    b.extend_from_slice(&ty.to_le_bytes());
    b.extend_from_slice(&bit_offset.to_le_bytes());
    b.extend_from_slice(name);
    b.extend_from_slice(&depth.to_le_bytes());
}

fn table_header(rec_bytes: u32, slots: u16, written: u16, n_fields: u8) -> Vec<u8> {
    let mut h = vec![0u8; 40];
    put_u32(&mut h, 8, rec_bytes);
    put_u32(&mut h, 12, rec_bytes * 8);
    h[20..22].copy_from_slice(&slots.to_le_bytes());
    h[22..24].copy_from_slice(&written.to_le_bytes());
    h[28] = n_fields;
    h
}

/// A small save: a name, the database signature, a directory of two tables and their records.
fn fixture_bytes() -> Vec<u8> {
    fixture_with_links(2, 3, 16)
}

/// The same save with the record size, slot count and `playerid` depth of the links table
/// chosen; its records take six bytes either way.
fn fixture_with_links(rec_bytes: u32, slots: u16, depth: i32) -> Vec<u8> {
    let mut b = vec![0u8; 40];
    b[18..23].copy_from_slice(b"Squad");
    b.extend_from_slice(b"DB\0\x08\x01\0\0\0");
    b.extend_from_slice(&[0u8; 16]);
    let dir_start = b.len();
    b.extend_from_slice(b"TEST");
    b.extend_from_slice(&0u32.to_le_bytes());
    b.extend_from_slice(b"SECO");
    b.extend_from_slice(&164u32.to_le_bytes());
    b.extend_from_slice(&[0u8; 8]);
    let base = b.len();
    assert_eq!(base, 88);
    // the directory ends at the first invalid entry
    let t1 = base - 8;
    b.truncate(t1);
    let t1 = b.len();
    let mut h1 = table_header(15, 4, 2, 4);
    let dir_crc = compute_crc_db11(&b[dir_start..t1]) as u32;
    put_u32(&mut h1, 0, dir_crc);
    b.extend_from_slice(&h1);
    let fds1 = b.len();
    put_desc(&mut b, 3, 0, b"AAAA", 8);
    put_desc(&mut b, 3, 8, b"BBBB", 16);
    put_desc(&mut b, 0, 24, b"CCCC", 64);
    put_desc(&mut b, 4, 88, b"DDDD", 32);
    let mut rec0 = vec![0u8; 15];
    rec0[0] = 7;
    rec0[1..3].copy_from_slice(&(90u16 + 10).to_le_bytes());
    rec0[3..8].copy_from_slice(b"Alpha");
    rec0[11..15].copy_from_slice(&1.5f32.to_bits().to_le_bytes());
    let mut rec1 = vec![0u8; 15];
    rec1[0] = 9;
    rec1[1..3].copy_from_slice(&(75u16 + 10).to_le_bytes());
    rec1[3..10].copy_from_slice(b"Be\ta,\"x");
    rec1[11..15].copy_from_slice(&(-2.25f32).to_bits().to_le_bytes());
    b.extend_from_slice(&rec0);
    b.extend_from_slice(&rec1);
    b.extend_from_slice(&[0u8; 30]);
    let t2 = b.len();
    assert_eq!(t2 - t1, 164);
    let mut h2 = table_header(rec_bytes, slots, 1, 1);
    let crc1 = compute_crc_db11(&b[fds1..t2]) as u32;
    put_u32(&mut h2, 0, crc1);
    b.extend_from_slice(&h2);
    let fds2 = b.len();
    put_desc(&mut b, 3, 0, b"XXXX", depth);
    b.extend_from_slice(&500u16.to_le_bytes());
    b.extend_from_slice(&[0u8; 4]);
    let end2 = b.len();
    let crc2 = compute_crc_db11(&b[fds2..end2]) as u32;
    b.extend_from_slice(&crc2.to_le_bytes());
    let sig_pos = 40;
    let file_crc = compute_crc32(&b[sig_pos - 4..]);
    put_u32(&mut b, sig_pos - 36, file_crc);
    b
}

fn meta() -> MetaMap {
    parse_meta_xml(META).unwrap()
}

fn load() -> SquadFile {
    let m = meta();
    SquadFile::load_from_bytes(fixture_bytes(), Some(&m)).unwrap()
}

fn float_text(b: u32) -> String {
    f32::from_bits(b).to_string()
}

fn parse_float(s: &str) -> Option<u32> {
    s.parse::<f32>().ok().map(f32::to_bits)
}

#[test]
fn fixture_loads_with_schema_names() {
    let squad = load();
    assert_eq!(squad.tables.len(), 2);
    let t = squad.table("TEST").unwrap();
    assert_eq!(t.name.as_deref(), Some("teams"));
    assert_eq!(t.n_written_records, 2);
    assert_eq!(t.n_records_slot, 4);
    assert_eq!(t.record_crc_pos, Some(t.data_end));
    assert!(!t.has_index_block);
    let names: Vec<&str> = t.fields.iter().map(|f| f.name.as_str()).collect();
    assert_eq!(names, vec!["teamid", "overallrating", "teamname", "rating"]);
    assert_eq!(squad.table_by_name("links").unwrap().shortname, "SECO");
    assert_eq!(squad.written_record_indices("TEST"), vec![0, 1]);
    assert!(squad.written_record_indices("NONE").is_empty());
}

#[test]
fn a_pristine_fixture_passes_every_checksum() {
    let squad = load();
    assert!(squad.validate_crc_chain().is_empty());
    assert_eq!(squad.stored_file_crc(), squad.computed_file_crc());
}

#[test]
fn reads_every_kind_of_field() {
    let squad = load();
    assert_eq!(squad.get_field("TEST", 0, "teamid").unwrap(), FieldValue::Int(7));
    assert_eq!(squad.get_field("TEST", 0, "overallrating").unwrap(), FieldValue::Int(90));
    assert_eq!(squad.get_field("TEST", 1, "BBBB").unwrap(), FieldValue::Int(75));
    assert_eq!(squad.get_field("TEST", 0, "teamname").unwrap(), FieldValue::Str("Alpha".to_string()));
    assert_eq!(squad.get_field("TEST", 0, "rating").unwrap(), FieldValue::Float(1.5f32.to_bits()));
    assert_eq!(squad.get_field("SECO", 0, "playerid").unwrap(), FieldValue::Int(500));
}

#[test]
fn lookups_report_each_error() {
    let squad = load();
    assert!(matches!(squad.get_field("NOPE", 0, "teamid"), Err(SquadError::UnknownTable(t)) if t == "NOPE"));
    assert!(matches!(squad.get_field("TEST", 0, "nope"), Err(SquadError::UnknownField { .. })));
    assert!(matches!(
        squad.get_field("TEST", 4, "teamid"),
        Err(SquadError::RecordOutOfRange { index: 4, count: 4, .. })
    ));
}

#[test]
fn set_then_get_gives_the_value_back() {
    let mut squad = load();
    squad.set_field("TEST", 1, "teamid", FieldValue::Int(200)).unwrap();
    squad.set_field("TEST", 1, "overallrating", FieldValue::Int(-10)).unwrap();
    squad.set_field("TEST", 1, "teamname", FieldValue::Str("Gamma".to_string())).unwrap();
    squad.set_field("TEST", 1, "rating", FieldValue::Float(3.75f32.to_bits())).unwrap();
    assert_eq!(squad.get_field("TEST", 1, "teamid").unwrap(), FieldValue::Int(200));
    assert_eq!(squad.get_field("TEST", 1, "overallrating").unwrap(), FieldValue::Int(-10));
    assert_eq!(squad.get_field("TEST", 1, "teamname").unwrap(), FieldValue::Str("Gamma".to_string()));
    assert_eq!(squad.get_field("TEST", 1, "rating").unwrap(), FieldValue::Float(3.75f32.to_bits()));
    // neighbouring fields and records are untouched
    assert_eq!(squad.get_field("TEST", 0, "teamid").unwrap(), FieldValue::Int(7));
    squad.prepare_for_save().unwrap();
    assert!(squad.validate_crc_chain().is_empty());
}

#[test]
fn an_edit_invalidates_the_container_checksum_until_the_file_is_saved() {
    let mut squad = load();
    squad.set_field("TEST", 0, "teamid", FieldValue::Int(8)).unwrap();
    assert_ne!(squad.stored_file_crc(), squad.computed_file_crc());
    assert_eq!(squad.validate_crc_chain(), vec!["container checksum".to_string()]);
    squad.recompute_file_crc();
    assert_eq!(squad.stored_file_crc(), squad.computed_file_crc());
}

#[test]
fn recomputing_a_valid_container_checksum_changes_nothing() {
    let mut squad = load();
    let before = squad.buf.clone();
    squad.recompute_file_crc();
    assert_eq!(squad.buf, before);
}

#[test]
fn refused_writes_report_their_reason_and_change_nothing() {
    let mut squad = load();
    let before = squad.buf.clone();
    assert!(matches!(
        squad.set_field("TEST", 0, "teamid", FieldValue::Int(256)),
        Err(SquadError::ValueOutOfRange { value: 256, depth: 8, rangelow: 0, .. })
    ));
    assert!(matches!(
        squad.set_field("TEST", 0, "overallrating", FieldValue::Int(-11)),
        Err(SquadError::ValueOutOfRange { .. })
    ));
    assert!(matches!(
        squad.set_field("TEST", 0, "teamname", FieldValue::Str("Much too long".to_string())),
        Err(SquadError::StringTooLong { len: 13, max: 8, .. })
    ));
    assert!(matches!(
        squad.set_field("TEST", 0, "teamid", FieldValue::Str("x".to_string())),
        Err(SquadError::WrongFieldType { actual: FieldType::Integer, .. })
    ));
    assert!(matches!(squad.set_field("NOPE", 0, "teamid", FieldValue::Int(1)), Err(SquadError::UnknownTable(_))));
    assert_eq!(squad.buf, before);
}

#[test]
fn batch_counts_applied_and_failed_writes() {
    let mut squad = load();
    let updates = vec![
        (0usize, "teamid".to_string(), FieldValue::Int(11)),
        (0usize, "teamid".to_string(), FieldValue::Int(1000)),
        (1usize, "nope".to_string(), FieldValue::Int(1)),
    ];
    assert_eq!(squad.set_fields_batch("TEST", &updates), (1, 2));
    assert_eq!(squad.get_field("TEST", 0, "teamid").unwrap(), FieldValue::Int(11));
    squad.prepare_for_save().unwrap();
}

#[test]
fn remove_last_record_reverses_add_record() {
    let mut squad = load();
    let before = squad.buf.clone();
    let idx = squad
        .add_record("TEST", &[("teamid", FieldValue::Int(42)), ("teamname", FieldValue::Str("New".to_string()))])
        .unwrap();
    assert_eq!(idx, 2);
    assert_eq!(squad.table("TEST").unwrap().n_written_records, 3);
    assert_eq!(squad.get_field("TEST", 2, "teamid").unwrap(), FieldValue::Int(42));
    assert_eq!(squad.get_field("TEST", 2, "overallrating").unwrap(), FieldValue::Int(-10));
    squad.prepare_for_save().unwrap();
    squad.remove_last_record("TEST").unwrap();
    squad.recompute_file_crc();
    assert_eq!(squad.buf, before);
}

#[test]
fn add_record_rejects_full_table() {
    let mut squad = load();
    squad.add_record("SECO", &[]).unwrap();
    squad.add_record("SECO", &[]).unwrap();
    let before = squad.buf.clone();
    assert!(matches!(squad.add_record("SECO", &[]), Err(SquadError::TableFull { count: 3, .. })));
    assert_eq!(squad.buf, before);
}

#[test]
fn add_record_appends_at_first_free_slot_and_updates_header_and_crc() {
    let mut squad = load();
    let table = squad.table("TEST").unwrap();
    assert_eq!(table.name.as_deref(), Some("teams"));
    assert!(table.has_record_crc);
    let before_written = table.n_written_records;
    let before_slot = table.n_records_slot;
    assert!(before_written < before_slot);
    let new_index = squad
        .add_record("TEST", &[("teamid", FieldValue::Int(99)), ("overallrating", FieldValue::Int(5))])
        .unwrap();
    assert_eq!(new_index, before_written);
    let table = squad.table("TEST").unwrap();
    assert_eq!(table.n_written_records, before_written + 1);
    assert_eq!(table.n_records_slot, before_slot);
    assert_eq!(squad.get_field("TEST", new_index, "teamid").unwrap(), FieldValue::Int(99));
    assert_eq!(squad.get_field("TEST", new_index, "overallrating").unwrap(), FieldValue::Int(5));
    let region = &squad.buf[table.field_desc_start..table.data_end];
    let expected_crc = compute_crc_db11(region) as u32;
    let p = table.data_end;
    let stored_crc = u32::from_le_bytes([squad.buf[p], squad.buf[p + 1], squad.buf[p + 2], squad.buf[p + 3]]);
    assert_eq!(expected_crc, stored_crc);
}

#[test]
fn add_record_rejects_indexed_table() {
    // Without a checksum right after its records, a table is taken to carry an index block.
    let mut bytes = fixture_bytes();
    let n = bytes.len();
    bytes[n - 1] ^= 0xff;
    let m = meta();
    let mut squad = SquadFile::load_from_bytes(bytes, Some(&m)).unwrap();
    assert!(squad.table("SECO").unwrap().has_index_block);
    let before = squad.buf.clone();
    assert!(matches!(squad.add_record("SECO", &[]), Err(SquadError::TableIsIndexed(_))));
    assert!(matches!(squad.remove_last_record("SECO"), Err(SquadError::TableIsIndexed(_))));
    assert_eq!(squad.buf, before);
}

#[test]
fn import_reports_unknown_columns_without_failing_known_ones() {
    let mut squad = load();
    let content = "#\tteamid\tnonexistentcolumn\r\n1\t9\tsomevalue\r\n";
    let report = tsv::import_table(&mut squad, "TEST", content, &parse_float).unwrap();
    assert_eq!(report.unknown_columns, vec!["nonexistentcolumn".to_string()]);
    assert_eq!(report.cells_updated, 1);
}

#[test]
fn remove_last_record_rejects_empty_table() {
    let mut squad = load();
    squad.remove_last_record("SECO").unwrap();
    assert!(matches!(squad.remove_last_record("SECO"), Err(SquadError::TableEmpty(_))));
}

#[test]
fn save_name_can_be_read_and_rewritten() {
    let mut squad = load();
    assert_eq!(squad.save_name().as_deref(), Some("Squad"));
    assert_eq!(squad.save_name_max_len(), 21);
    squad.set_save_name("Test Rename").unwrap();
    assert_eq!(squad.save_name().as_deref(), Some("Test Rename"));
    assert!(squad.set_save_name("a name that is far too long for the slot").is_err());
}

#[test]
fn tsv_export_lists_header_and_live_records() {
    let squad = load();
    let text = tsv::export_table(&squad, "TEST", &float_text).unwrap();
    assert_eq!(
        text,
        "#\tteamid\toverallrating\tteamname\trating\r\n0\t7\t90\tAlpha\t1.5\r\n1\t9\t75\tBe\\ta,\"x\t-2.25\r\n"
    );
    assert!(matches!(tsv::export_table(&squad, "NOPE", &float_text), Err(SquadError::UnknownTable(_))));
}

#[test]
fn export_then_reimport_players_without_changes_is_byte_identical() {
    let mut squad = load();
    let before = squad.buf.clone();
    let text = tsv::export_table(&squad, "TEST", &float_text).unwrap();
    let report = tsv::import_table(&mut squad, "TEST", &text, &parse_float).unwrap();
    assert_eq!(report.cells_updated, 8);
    assert_eq!(report.cells_failed, 0);
    assert_eq!(report.rows_skipped, 0);
    assert_eq!(squad.buf, before);
}

#[test]
fn import_changes_only_targeted_cell() {
    let mut squad = load();
    let before = squad.buf.clone();
    let report = tsv::import_table(&mut squad, "TEST", "#\toverallrating\r\n1\t99\r\n", &parse_float).unwrap();
    assert_eq!(report.cells_updated, 1);
    assert_eq!(squad.get_field("TEST", 1, "overallrating").unwrap(), FieldValue::Int(99));
    let t = squad.table("TEST").unwrap();
    let crc_pos = t.record_crc_pos.unwrap();
    let diffs: Vec<usize> = (0..before.len()).filter(|&i| before[i] != squad.buf[i]).collect();
    assert!(diffs.iter().all(|&i| (i >= t.data_start && i < t.data_end) || (i >= crc_pos && i < crc_pos + 4)));
    assert!(!diffs.is_empty());
}

#[test]
fn import_rejects_file_without_index_column() {
    let mut squad = load();
    let r = tsv::import_table(&mut squad, "TEST", "teamid\toverallrating\r\n1\t2\r\n", &parse_float);
    assert!(matches!(r, Err(SquadError::MissingIndexColumn)));
    assert!(matches!(tsv::import_table(&mut squad, "TEST", "", &parse_float), Err(SquadError::EmptyImportFile)));
    assert!(matches!(tsv::import_table(&mut squad, "NOPE", "#\r\n", &parse_float), Err(SquadError::UnknownTable(_))));
}

#[test]
fn import_reports_unknown_columns_bad_cells_and_skipped_rows() {
    let mut squad = load();
    let content = "#\tteamid\tnonexistentcolumn\trating\r\n0\t12\tsomevalue\tnot-a-float\r\n9\t1\tx\t1\r\nabc\t1\r\n\r\n";
    let report = tsv::import_table(&mut squad, "TEST", content, &parse_float).unwrap();
    assert_eq!(report.unknown_columns, vec!["nonexistentcolumn".to_string()]);
    assert_eq!(report.cells_updated, 1);
    assert_eq!(report.cells_failed, 1);
    assert_eq!(report.rows_skipped, 2);
    assert_eq!(squad.get_field("TEST", 0, "teamid").unwrap(), FieldValue::Int(12));
}

#[test]
fn export_all_and_import_all_without_changes_is_byte_identical() {
    let mut squad = load();
    let before = squad.buf.clone();
    let dump = tsv::export_all(&squad, &float_text);
    assert_eq!(dump.len(), 2);
    assert_eq!(dump[0].0, "teams");
    assert_eq!(dump[1].0, "links");
    let refs: Vec<(&str, &str)> = dump.iter().map(|(n, c)| (n.as_str(), c.as_str())).collect();
    let report = tsv::import_all(&mut squad, refs, &parse_float);
    assert_eq!(report.cells_failed, 0);
    assert_eq!(report.cells_updated, 9);
    assert_eq!(squad.buf, before);
}

#[test]
fn import_all_passes_over_unknown_tables_and_counts_rows_of_refused_files() {
    let mut squad = load();
    let files = vec![("nothing", "#\r\n0\r\n"), ("links", "x\r\n0\t1\r\n1\t2\r\n")];
    let report = tsv::import_all(&mut squad, files, &parse_float);
    assert_eq!(report.rows_skipped, 2);
    assert_eq!(report.cells_updated, 0);
}

fn u32at(b: &[u8], p: usize) -> u32 {
    u32::from_le_bytes(b[p..p + 4].try_into().unwrap())
}

#[test]
fn a_table_checksum_lives_at_the_start_of_the_next_table() {
    let squad = load();
    let b = &squad.buf;
    for i in 0..squad.tables.len() - 1 {
        let t = &squad.tables[i];
        assert_eq!(t.end, squad.tables[i + 1].start);
        assert_eq!(compute_crc_db11(&b[t.field_desc_start..t.end]) as u32, u32at(b, t.end));
    }
}

#[test]
fn the_first_checksum_covers_the_table_directory() {
    let squad = load();
    let first = &squad.tables[0];
    assert_eq!(compute_crc_db11(&squad.buf[squad.dir_start..first.start]) as u32, u32at(&squad.buf, first.start));
}

#[test]
fn the_last_table_ends_the_file_and_has_no_checksum_slot() {
    let squad = load();
    assert_eq!(squad.tables.last().unwrap().end, squad.buf.len());
}

#[test]
fn a_pristine_save_passes_every_checksum() {
    let squad = load();
    assert!(squad.validate_crc_chain().is_empty());
    assert_eq!(squad.stored_file_crc(), squad.computed_file_crc());
}

#[test]
fn loading_and_saving_without_edits_is_byte_identical() {
    let original = fixture_bytes();
    let mut squad = load();
    assert_eq!(squad.buf, original);
    squad.prepare_for_save().unwrap();
    assert_eq!(squad.buf, original);
}

#[test]
fn the_container_checksum_is_a_crc32_over_the_payload() {
    let b = fixture_bytes();
    let sig_pos = 40;
    assert_eq!(u32at(&b, sig_pos - 36), compute_crc32(&b[sig_pos - 4..]));
}

#[test]
fn remove_last_record_rejects_indexed_table() {
    let mut bytes = fixture_bytes();
    let n = bytes.len();
    bytes[n - 1] ^= 0xff;
    let m = meta();
    let mut squad = SquadFile::load_from_bytes(bytes, Some(&m)).unwrap();
    let before = squad.buf.clone();
    assert!(matches!(squad.remove_last_record("SECO"), Err(SquadError::TableIsIndexed(_))));
    assert_eq!(squad.buf, before);
}

#[test]
fn add_record_diff_is_minimal() {
    let original_bytes = fixture_bytes();
    let mut squad = load();
    let t = squad.table("TEST").unwrap();
    let (data_start, written, rec_bytes, start, data_end) = (t.data_start, t.n_written_records, t.rec_bytes, t.start, t.data_end);
    squad.add_record("TEST", &[("teamid", FieldValue::Int(42))]).unwrap();
    let diffs: Vec<usize> = original_bytes
        .iter()
        .zip(squad.buf.iter())
        .enumerate()
        .filter(|(_, (a, b))| a != b)
        .map(|(i, _)| i)
        .collect();
    let new_record_start = data_start + written * rec_bytes;
    let new_record_end = new_record_start + rec_bytes;
    let header_count_start = start + 22;
    let crc_start = data_end;
    for &pos in &diffs {
        let in_new_record = (new_record_start..new_record_end).contains(&pos);
        let in_header_count = (header_count_start..header_count_start + 2).contains(&pos);
        let in_crc = (crc_start..crc_start + 4).contains(&pos);
        assert!(in_new_record || in_header_count || in_crc, "unexpected byte diff at offset {pos}");
    }
    assert!(!diffs.is_empty());
}

#[test]
fn written_records_follow_the_header_count() {
    let squad = load();
    for table in &squad.tables {
        let indices = squad.written_record_indices(&table.shortname);
        assert_eq!(indices.len(), table.n_written_records);
        assert!(indices.iter().enumerate().all(|(i, &v)| i == v));
    }
}

#[test]
fn stale_slots_past_the_written_count_are_not_exposed() {
    let mut bytes = fixture_bytes();
    let m = meta();
    let squad = SquadFile::load_from_bytes(bytes.clone(), Some(&m)).unwrap();
    let table = squad.table("TEST").unwrap();
    let stale = table.n_written_records;
    let start = table.record_offset(stale);
    bytes[start] = 0x55;
    let squad = SquadFile::load_from_bytes(bytes, Some(&m)).unwrap();
    let table = squad.table("TEST").unwrap();
    let has_leftovers = squad.buf[start..start + table.rec_bytes].iter().any(|&b| b != 0);
    assert!(has_leftovers);
    assert!(!squad.written_record_indices(&table.shortname).contains(&stale));
}

fn appendable_table(squad: &SquadFile) -> Option<String> {
    squad
        .tables
        .iter()
        .find(|t| {
            !t.has_index_block && t.n_written_records > 0 && t.n_written_records < t.n_records_slot && t.field("teamid").is_some()
        })
        .map(|t| t.shortname.clone())
}

#[test]
fn adding_a_record_keeps_every_checksum_valid() {
    let mut squad = load();
    let table = appendable_table(&squad).unwrap();
    let before = squad.table(&table).unwrap().n_written_records;
    let idx = squad.add_record(&table, &[("teamid", FieldValue::Int(1))]).expect("adding a record failed");
    assert_eq!(idx, before);
    assert_eq!(squad.table(&table).unwrap().n_written_records, before + 1);
    assert_eq!(squad.get_field(&table, idx, "teamid").unwrap().as_int(), Some(1));
    squad.recompute_file_crc();
    assert!(squad.validate_crc_chain().is_empty());
    assert!(squad.written_record_indices(&table).contains(&idx));
}

#[test]
fn adding_then_removing_restores_the_original_bytes() {
    let mut squad = load();
    let table = appendable_table(&squad).unwrap();
    let original = squad.buf.clone();
    let before = squad.table(&table).unwrap().n_written_records;
    squad.add_record(&table, &[("teamid", FieldValue::Int(1))]).unwrap();
    squad.remove_last_record(&table).expect("removing a record failed");
    assert_eq!(squad.table(&table).unwrap().n_written_records, before);
    squad.recompute_file_crc();
    assert!(squad.validate_crc_chain().is_empty());
    assert_eq!(squad.buf, original);
}

#[test]
fn tables_with_a_trailing_index_block_refuse_new_records() {
    let mut bytes = fixture_bytes();
    let n = bytes.len();
    bytes[n - 1] ^= 0xff;
    let m = meta();
    let mut squad = SquadFile::load_from_bytes(bytes, Some(&m)).unwrap();
    let indexed: Vec<String> = squad.tables.iter().filter(|t| t.has_index_block).map(|t| t.shortname.clone()).collect();
    assert!(!indexed.is_empty());
    let before = squad.buf.clone();
    for shortname in &indexed {
        assert!(squad.add_record(shortname, &[]).is_err());
    }
    assert_eq!(squad.buf, before);
}

#[test]
fn surgical_edit_of_crc_table_updates_checksum() {
    let original_bytes = fixture_bytes();
    let mut squad = load();
    let (shortname, crc_pos) = squad
        .tables
        .iter()
        .find(|t| t.record_crc_pos.is_some() && t.n_written_records > 0 && t.fields.iter().any(|f| f.field_type == FieldType::Integer))
        .map(|t| (t.shortname.clone(), t.record_crc_pos.unwrap()))
        .expect("no writable CRC-backed table found");
    let field_name = {
        let t = squad.table(&shortname).unwrap();
        t.fields
            .iter()
            .find(|f| f.field_type == FieldType::Integer && f.depth >= 2)
            .map(|f| f.name.clone())
            .expect("no integer field")
    };
    let old = squad.get_field(&shortname, 0, &field_name).unwrap().as_int().unwrap();
    let new = if old == 0 { 1 } else { 0 };
    squad.set_field(&shortname, 0, &field_name, FieldValue::Int(new)).unwrap();
    assert_ne!(&squad.buf[crc_pos..crc_pos + 4], &original_bytes[crc_pos..crc_pos + 4]);
    let fds = squad.table(&shortname).unwrap().field_desc_start;
    let recomputed = compute_crc_db11(&squad.buf[fds..crc_pos]) as u32;
    let stored = u32::from_le_bytes(squad.buf[crc_pos..crc_pos + 4].try_into().unwrap());
    assert_eq!(recomputed, stored);
}

#[test]
fn edits_string_field_round_trip() {
    let mut squad = load();
    let idx = (0..squad.table("TEST").unwrap().n_records_slot)
        .find(|&i| squad.get_field("TEST", i, "teamname").ok() == Some(FieldValue::Str("Alpha".to_string())))
        .expect("Alpha not found");
    squad.set_field("TEST", idx, "teamname", FieldValue::Str("Gunners".to_string())).unwrap();
    assert_eq!(squad.get_field("TEST", idx, "teamname").unwrap(), FieldValue::Str("Gunners".to_string()));
    assert_eq!(squad.get_field("TEST", idx, "overallrating").unwrap(), FieldValue::Int(90));
}

#[test]
fn edits_float_field_round_trip() {
    let mut squad = load();
    let float_field_name = squad
        .table("TEST")
        .unwrap()
        .fields
        .iter()
        .find(|f| f.field_type == FieldType::Float)
        .map(|f| f.name.clone())
        .expect("no float field");
    squad.set_field("TEST", 0, &float_field_name, FieldValue::Float(12.5f32.to_bits())).unwrap();
    assert_eq!(squad.get_field("TEST", 0, &float_field_name).unwrap(), FieldValue::Float(12.5f32.to_bits()));
}

#[test]
fn rejects_out_of_range_integer_value() {
    let mut squad = load();
    let result = squad.set_field("TEST", 0, "overallrating", FieldValue::Int(99999));
    assert!(result.is_err());
}

#[test]
fn every_detected_crc_stays_valid_after_an_edit() {
    let mut squad = load();
    squad.set_field("SECO", 0, "playerid", FieldValue::Int(501)).unwrap();
    squad.set_field("TEST", 0, "overallrating", FieldValue::Int(70)).unwrap();
    for table in &squad.tables {
        let Some(pos) = table.record_crc_pos else {
            continue;
        };
        let computed = compute_crc_db11(&squad.buf[table.field_desc_start..pos]) as u32;
        let stored = u32::from_le_bytes(squad.buf[pos..pos + 4].try_into().unwrap());
        assert_eq!(computed, stored, "invalid CRC after the edit for table {}", table.shortname);
    }
}

#[test]
fn export_referee_matches_known_field_count_and_header() {
    let squad = load();
    let exported = tsv::export_table(&squad, "TEST", &float_text).unwrap();
    let mut lines = exported.lines();
    let header = lines.next().unwrap();
    let columns: Vec<&str> = header.split('\t').collect();
    assert_eq!(columns[0], "#");
    let table = squad.table("TEST").unwrap();
    assert_eq!(columns.len() - 1, table.fields.len());
    assert_eq!(lines.count(), table.n_written_records);
}

#[test]
fn a_deep_integer_field_refuses_a_value_beyond_its_range() {
    let m = meta();
    let mut squad = SquadFile::load_from_bytes(fixture_with_links(6, 1, 40), Some(&m)).unwrap();
    assert_eq!(squad.table("SECO").unwrap().field("playerid").unwrap().depth, 40);
    let too_big = FieldValue::Int(0x1_0000_0000);
    assert!(squad_core::guards::value_can_be_written(&squad, "SECO", "playerid", &too_big));
    assert!(!squad_core::guards::value_can_be_written(&squad, "SECO", "playerid", &FieldValue::Int(5)));
    assert!(squad_core::guards::text_can_be_written(&squad, "SECO", "playerid", " 4294967296 "));
    assert!(!squad_core::guards::text_can_be_written(&squad, "SECO", "playerid", "5"));
    assert!(squad_core::guards::text_can_be_written(&squad, "SECO", "playerid", "not a number"));
    let before = squad.buf.clone();
    match squad.set_field("SECO", 0, "playerid", too_big) {
        Err(SquadError::ValueOutOfRange { field, value, depth, rangelow }) => {
            assert_eq!(field, "playerid");
            assert_eq!(value, 0x1_0000_0000);
            assert_eq!(depth, 40);
            assert_eq!(rangelow, 0);
        }
        other => panic!("unexpected result {other:?}"),
    }
    assert_eq!(squad.buf, before);
}

#[test]
fn add_record_reports_the_error_of_the_first_refused_value() {
    let mut squad = load();
    let before_count = squad.table("TEST").unwrap().n_written_records;
    match squad.add_record(
        "TEST",
        &[
            ("teamid", FieldValue::Int(5)),
            ("teamname", FieldValue::Str("Much too long".to_string())),
            ("teamid", FieldValue::Int(300)),
        ],
    ) {
        Err(SquadError::StringTooLong { field, len, max }) => {
            assert_eq!(field, "teamname");
            assert_eq!(len, 13);
            assert_eq!(max, 8);
        }
        other => panic!("unexpected result {other:?}"),
    }
    assert_eq!(squad.table("TEST").unwrap().n_written_records, before_count);
    match squad.add_record("TEST", &[("teamid", FieldValue::Int(300))]) {
        Err(SquadError::ValueOutOfRange { field, value, depth, rangelow }) => {
            assert_eq!((field.as_str(), value, depth, rangelow), ("teamid", 300, 8, 0));
        }
        other => panic!("unexpected result {other:?}"),
    }
    match squad.add_record("TEST", &[("nope", FieldValue::Int(1))]) {
        Err(SquadError::UnknownField { table, field }) => {
            assert_eq!((table.as_str(), field.as_str()), ("TEST", "nope"));
        }
        other => panic!("unexpected result {other:?}"),
    }
}
