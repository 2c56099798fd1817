use squad_core::backup::{backup_dir, backup_path_for, MAX_BACKUPS};
use squad_core::crc::{compute_crc32, compute_crc_db11};
use squad_core::editor::{filtered_row_indices, find_team_formation, find_teamsheet, int_field, normalize_search, teamsheet_slot_count, SlotChange};
use squad_core::fifa_history::HistoricalDatabase;
use squad_core::guards::{can_export, can_import, can_read_everything, cell_can_be_read, field_can_be_written};
use squad_core::listing::{
    field_display_value, format_value, formation_presets, global_search_players, global_search_teams, league_list,
    league_options, league_teams, page_bounds, player_team_id, resolve_player_name, slot_player, team_list, team_options, team_roster,
    GLOBAL_SEARCH_LIMIT,
};
use squad_core::meta::parse_meta_xml;
use squad_core::resources::{
    existing, facial_hair, formation_diagram, haircolor_swatch, hairstyle, not_found_placeholder, player_head,
};
use squad_core::session::{
    commit_cell, restore, save_name_input, snapshot, toggle_slot, CardImport, CloneOutcome, CommitOutcome, FieldChange,
    History, PresetOutcome, SlotAssign, MAX_LOG, MAX_RECENT, MAX_UNDO,
};
use squad_core::{FieldValue, SquadFile};

struct Table {
    short: &'static [u8; 4],
    rec_bytes: u32,
    slots: u16,
    written: u16,
    fields: Vec<(i32, i32, [u8; 4], i32)>,
    records: Vec<Vec<u8>>,
}

fn put_u32(b: &mut [u8], pos: usize, v: u32) {
    b[pos..pos + 4].copy_from_slice(&v.to_le_bytes());
}

/// A save with the given tables, each checksum in place.
fn build(tables: &[Table]) -> Vec<u8> {
    let mut b = vec![0u8; 40];
    b.extend_from_slice(b"DB\0\x08\x01\0\0\0");
    b.extend_from_slice(&[0u8; 16]);
    let dir_start = b.len();
    let mut sizes = Vec::new();
    for t in tables {
        let data = t.rec_bytes as usize * t.slots as usize;
        sizes.push(40 + 16 * t.fields.len() + data);
    }
    let mut off = 0u32;
    for (t, size) in tables.iter().zip(&sizes) {
        b.extend_from_slice(t.short);
        b.extend_from_slice(&off.to_le_bytes());
        off += *size as u32;
    }
    let mut prev_region = dir_start;
    for t in tables {
        let start = b.len();
        let mut h = vec![0u8; 40];
        put_u32(&mut h, 0, compute_crc_db11(&b[prev_region..start]) as u32);
        put_u32(&mut h, 8, t.rec_bytes);
        put_u32(&mut h, 12, t.rec_bytes * 8);
        h[20..22].copy_from_slice(&t.slots.to_le_bytes());
        h[22..24].copy_from_slice(&t.written.to_le_bytes());
        h[28] = t.fields.len() as u8;
        b.extend_from_slice(&h);
        prev_region = b.len();
        for (ty, bit, name, depth) in &t.fields {
            b.extend_from_slice(&ty.to_le_bytes());
            b.extend_from_slice(&bit.to_le_bytes());
            b.extend_from_slice(name);
            b.extend_from_slice(&depth.to_le_bytes());
        }
        for i in 0..t.slots as usize {
            let mut r = t.records.get(i).cloned().unwrap_or_default();
            r.resize(t.rec_bytes as usize, 0);
            b.extend_from_slice(&r);
        }
    }
    let end = b.len();
    let crc = compute_crc_db11(&b[prev_region..end]) as u32;
    b.extend_from_slice(&crc.to_le_bytes());
    let file_crc = compute_crc32(&b[36..]);
    put_u32(&mut b, 4, file_crc);
    b
}

const META: &str = r#"
<table name="teams" shortname="lyxL"><fields>
  <field name="teamid" shortname="T001" rangelow="0" />
  <field name="teamname" shortname="T002" rangelow="0" />
</fields></table>
<table name="players" shortname="CZUM"><fields>
  <field name="playerid" shortname="P001" rangelow="0" />
  <field name="commonnameid" shortname="P002" rangelow="0" />
  <field name="firstnameid" shortname="P003" rangelow="0" />
  <field name="lastnameid" shortname="P004" rangelow="0" />
  <field name="overallrating" shortname="P005" rangelow="0" />
</fields></table>
<table name="teamplayerlinks" shortname="RrqT"><fields>
  <field name="playerid" shortname="L001" rangelow="0" />
  <field name="teamid" shortname="L002" rangelow="0" />
</fields></table>
<table name="leagues" shortname="LEAG"><fields>
  <field name="leagueid" shortname="G001" rangelow="0" />
  <field name="leaguename" shortname="G002" rangelow="0" />
</fields></table>
<table name="default_teamsheets" shortname="SHEE"><fields>
  <field name="teamid" shortname="S001" rangelow="0" />
  <field name="playerid0" shortname="S002" rangelow="0" />
  <field name="playerid1" shortname="S003" rangelow="0" />
  <field name="playerid2" shortname="S004" rangelow="0" />
</fields></table>
<table name="formations" shortname="FORM"><fields>
  <field name="teamid" shortname="F001" rangelow="0" />
  <field name="position0" shortname="F002" rangelow="0" />
  <field name="position1" shortname="F003" rangelow="0" />
  <field name="offset1x" shortname="F004" rangelow="0" />
  <field name="formationname" shortname="F005" rangelow="0" />
  <field name="formationid" shortname="F006" rangelow="0" />
</fields></table>
<table name="playernames" shortname="BGwe"><fields>
  <field name="name" shortname="N001" rangelow="0" />
</fields></table>
"#;

fn text_rec(id: u8, name: &[u8]) -> Vec<u8> {
    let mut r = vec![id];
    r.extend_from_slice(name);
    r
}

fn player(id: u16, common: u8, first: u8, last: u8, ovr: u8) -> Vec<u8> {
    let mut r = id.to_le_bytes().to_vec();
    r.extend_from_slice(&[common, first, last, ovr]);
    r
}

fn link(pid: u16, team: u8) -> Vec<u8> {
    let mut r = pid.to_le_bytes().to_vec();
    r.push(team);
    r
}

fn sheet(team: u8, p: [u16; 3]) -> Vec<u8> {
    let mut r = vec![team];
    for x in p {
        r.extend_from_slice(&x.to_le_bytes());
    }
    r
}

fn form(team: u8, pos: [u8; 2], off: f32, name: &[u8], id: u8) -> Vec<u8> {
    let mut r = vec![team];
    r.extend_from_slice(&pos);
    r.extend_from_slice(&off.to_bits().to_le_bytes());
    let mut n = name.to_vec();
    n.resize(6, 0);
    r.extend_from_slice(&n);
    r.push(id);
    r
}

fn tables() -> Vec<Table> {
    vec![
        Table {
            short: b"lyxL",
            rec_bytes: 9,
            slots: 4,
            written: 3,
            fields: vec![(3, 0, *b"T001", 8), (0, 8, *b"T002", 64)],
            records: vec![text_rec(10, b"Arsenal"), text_rec(20, b"\xc3\xa9quipe"), text_rec(30, b"")],
        },
        Table {
            short: b"CZUM",
            rec_bytes: 6,
            slots: 4,
            written: 3,
            fields: vec![
                (3, 0, *b"P001", 16),
                (3, 16, *b"P002", 8),
                (3, 24, *b"P003", 8),
                (3, 32, *b"P004", 8),
                (3, 40, *b"P005", 8),
            ],
            records: vec![player(100, 0, 1, 2, 80), player(101, 3, 0, 0, 75), player(102, 0, 0, 0, 60)],
        },
        Table {
            short: b"RrqT",
            rec_bytes: 3,
            slots: 2,
            written: 2,
            fields: vec![(3, 0, *b"L001", 16), (3, 16, *b"L002", 8)],
            records: vec![link(100, 10), link(101, 20)],
        },
        Table {
            short: b"LEAG",
            rec_bytes: 9,
            slots: 3,
            written: 3,
            fields: vec![(3, 0, *b"G001", 8), (0, 8, *b"G002", 64)],
            records: vec![text_rec(1, b"serie A"), text_rec(2, b"Premier"), text_rec(3, b"bundesli")],
        },
        Table {
            short: b"SHEE",
            rec_bytes: 7,
            slots: 1,
            written: 1,
            fields: vec![(3, 0, *b"S001", 8), (3, 8, *b"S002", 16), (3, 24, *b"S003", 16), (3, 40, *b"S004", 16)],
            records: vec![sheet(10, [100, 101, 0])],
        },
        Table {
            short: b"FORM",
            rec_bytes: 14,
            slots: 3,
            written: 3,
            fields: vec![
                (3, 0, *b"F001", 8),
                (3, 8, *b"F002", 8),
                (3, 16, *b"F003", 8),
                (4, 24, *b"F004", 32),
                (0, 56, *b"F005", 48),
                (3, 104, *b"F006", 8),
            ],
            records: vec![
                form(10, [0, 3], 0.25, b"4-4-2", 7),
                form(0, [0, 5], 0.5, b"5-3-2", 8),
                form(0, [1, 1], 0.0, b"", 9),
            ],
        },
        Table {
            short: b"BGwe",
            rec_bytes: 8,
            slots: 4,
            written: 4,
            fields: vec![(0, 0, *b"N001", 64)],
            records: vec![b"".to_vec(), b"Marco".to_vec(), b"Rossi".to_vec(), b"Kak\xc3\xa1".to_vec()],
        },
    ]
}

fn squad() -> SquadFile {
    let meta = parse_meta_xml(META).unwrap();
    SquadFile::load_from_bytes(build(&tables()), Some(&meta)).unwrap()
}

fn float_text(b: u32) -> String {
    f32::from_bits(b).to_string()
}

fn parse_float(s: &str) -> Option<u32> {
    s.parse::<f32>().ok().map(f32::to_bits)
}

// ----- assets and backups -----

#[test]
fn asset_paths_are_found_through_the_probe() {
    let present = |p: &str| p == "formations/7.png" || p == "gheads/55.png" || p == "heads/notfound_0.png";
    assert_eq!(formation_diagram(7, &present), Some("formations/7.png".to_string()));
    assert_eq!(formation_diagram(-3, &present), None);
    assert_eq!(player_head(100, 55, &present), Some("gheads/55.png".to_string()));
    assert_eq!(player_head(100, 56, &present), Some("heads/notfound_0.png".to_string()));
    assert_eq!(not_found_placeholder(&present), Some("heads/notfound_0.png".to_string()));
    let all = |_: &str| true;
    assert_eq!(player_head(100, 55, &all), Some("heads/p100.png".to_string()));
    assert_eq!(hairstyle(4, &all), Some("hairstyle/item_4_0.png".to_string()));
    assert_eq!(haircolor_swatch(2, &all), Some("haircolor/haircolor_2.png".to_string()));
    assert_eq!(facial_hair(-1, &all), Some("facialhairstyle/item_-1_0.png".to_string()));
    let none = |_: &str| false;
    assert_eq!(player_head(1, 2, &none), None);
    assert_eq!(existing("x.png".to_string(), &all), Some("x.png".to_string()));
}

#[test]
fn backup_path_increments_and_never_overwrites() {
    let taken = ["_1_squad.db", "_2_squad.db"];
    let probe = |p: &str| taken.contains(&p);
    assert_eq!(backup_path_for("squad.db", &probe), Some("_3_squad.db".to_string()));
    assert_eq!(backup_path_for("other.db", &probe), Some("_1_other.db".to_string()));
    let full = |_: &str| true;
    assert_eq!(backup_path_for("squad.db", &full), None);
    assert_eq!(MAX_BACKUPS, 99);
    assert_eq!(backup_dir(), "SquadEditorBackups");
}

// ----- names, pickers and searches -----

#[test]
fn player_names_resolve_through_the_reference_file() {
    let s = squad();
    let reference = squad();
    assert_eq!(resolve_player_name(&s, Some(&reference), "CZUM", 0), "Marco Rossi");
    assert_eq!(resolve_player_name(&s, Some(&reference), "CZUM", 1), "Kak\u{e1}");
    assert_eq!(resolve_player_name(&s, Some(&reference), "CZUM", 2), "Player #102");
    assert_eq!(resolve_player_name(&s, None, "CZUM", 0), "Player #100");
    assert_eq!(resolve_player_name(&s, None, "CZUM", 9), "Player #-1");
}

#[test]
fn team_and_league_pickers_sort_by_lowercase_label() {
    let s = squad();
    let (labels, lookup) = team_options(&s);
    assert_eq!(labels, vec!["Arsenal (10)", "Team 30 (30)", "\u{e9}quipe (20)"]);
    assert_eq!(lookup.get("Team 30 (30)"), Some(&30));
    assert_eq!(lookup.len(), 3);
    let (labels, lookup) = league_options(&s);
    assert_eq!(labels, vec!["bundesli (3)", "Premier (2)", "serie A (1)"]);
    assert_eq!(lookup.get("Premier (2)"), Some(&2));
}

#[test]
fn formation_presets_are_available_and_named() {
    let s = squad();
    assert_eq!(formation_presets(&s), vec![(1, "5-3-2  (#8)".to_string())]);
}

#[test]
fn global_search_finds_teams_and_players() {
    let s = squad();
    let reference = squad();
    assert_eq!(global_search_teams(&s, &normalize_search("QUIP"), None), vec![(20, "\u{e9}quipe".to_string())]);
    assert_eq!(global_search_teams(&s, "zzz", Some(30)), vec![(30, "Team 30".to_string())]);
    assert_eq!(global_search_teams(&s, "", None).len(), 3);
    assert_eq!(
        global_search_players(&s, Some(&reference), "rossi", None),
        vec![(100, "Marco Rossi".to_string(), "OVR 80 \u{2014} Arsenal".to_string())]
    );
    assert_eq!(
        global_search_players(&s, None, "zzz", Some(102)),
        vec![(102, "Player #102".to_string(), "OVR 60 \u{2014} svincolato".to_string())]
    );
    assert!(GLOBAL_SEARCH_LIMIT == 8);
    assert_eq!(player_team_id(&s, 101), Some(20));
    assert_eq!(player_team_id(&s, 102), None);
}

#[test]
fn search_by_exact_playerid_finds_known_player() {
    let s = squad();
    let t = s.table("CZUM").unwrap();
    let all = s.written_record_indices("CZUM");
    assert_eq!(filtered_row_indices(&s, t, "CZUM", &all, "101"), vec![1]);
}

#[test]
fn empty_search_returns_all_indices_unchanged() {
    let s = squad();
    let t = s.table("CZUM").unwrap();
    let all = s.written_record_indices("CZUM");
    assert_eq!(filtered_row_indices(&s, t, "CZUM", &all, ""), all);
}

#[test]
fn cells_are_shown_as_text() {
    let s = squad();
    assert_eq!(field_display_value(&s, "FORM", 1, "offset1x", &float_text), "0.5");
    assert_eq!(field_display_value(&s, "FORM", 1, "formationname", &float_text), "5-3-2");
    assert_eq!(field_display_value(&s, "FORM", 1, "teamid", &float_text), "0");
    assert_eq!(field_display_value(&s, "FORM", 1, "nothing", &float_text), "");
    assert_eq!(format_value(&FieldValue::Str("a\nb".to_string()), &float_text), "ab");
    assert_eq!(format_value(&FieldValue::Int(-4), &float_text), "-4");
}

// ----- line-ups and formations -----

#[test]
fn formation_is_found_via_formations_teamid_not_the_empty_link_table() {
    let s = squad();
    assert_eq!(find_team_formation(&s, 10), Some(("FORM".to_string(), 0)));
    assert_eq!(find_team_formation(&s, 99), None);
}

#[test]
fn every_team_with_players_has_a_formation() {
    let s = squad();
    for idx in s.written_record_indices("RrqT") {
        let team = int_field(&s, "RrqT", idx, "teamid").unwrap();
        if team == 10 {
            assert!(find_team_formation(&s, team).is_some());
        }
    }
}

#[test]
fn formation_offsets_are_floats_and_spread_over_multiple_lines() {
    let s = squad();
    assert_eq!(s.get_field("FORM", 0, "offset1x").unwrap(), FieldValue::Float(0.25f32.to_bits()));
}

#[test]
fn teamsheet_slots_match_formation_slots() {
    let s = squad();
    let (sheets, idx) = find_teamsheet(&s, 10).unwrap();
    assert_eq!(teamsheet_slot_count(&s, &sheets), 3);
    assert_eq!(idx, 0);
}

#[test]
fn formation_name_comes_from_the_file() {
    let s = squad();
    match s.get_field("FORM", 0, "formationname").unwrap() {
        FieldValue::Str(name) => assert!(name.contains('-')),
        other => panic!("formationname is not text: {other:?}"),
    }
}

#[test]
fn slot_players_are_named_with_their_rating() {
    let s = squad();
    let reference = squad();
    assert_eq!(slot_player(&s, Some(&reference), 10, 1), Some(("Kak\u{e1}".to_string(), 75)));
    assert_eq!(slot_player(&s, None, 10, 2), Some(("Player #0".to_string(), 0)));
    assert_eq!(slot_player(&s, None, 99, 0), None);
}

// ----- the editing history -----

#[test]
fn history_lists_keep_their_bounds() {
    let mut h = History::new();
    h.push_undo(Vec::new());
    assert!(h.undo_stack.is_empty());
    for i in 0..(MAX_UNDO + 5) {
        h.push_undo(vec![FieldChange {
            table: "T".to_string(),
            record_index: i,
            field_name: "f".to_string(),
            old_value: FieldValue::Int(0),
        }]);
    }
    assert_eq!(h.undo_stack.len(), MAX_UNDO);
    assert_eq!(h.undo_stack[0][0].record_index, 5);
    for i in 0..(MAX_LOG + 3) {
        h.push_log(format!("line {i}"));
    }
    assert_eq!(h.change_log.len(), MAX_LOG);
    assert_eq!(h.change_log[0], format!("line {}", MAX_LOG + 2));
    for id in [1, 2, 3, 2, 4, 5, 6, 7, 8, 9] {
        h.push_recent(id);
    }
    assert_eq!(h.recent_players.len(), MAX_RECENT);
    assert_eq!(h.recent_players, vec![9, 8, 7, 6, 5, 4, 2, 3]);
    h.toggle_favorite(5);
    h.toggle_favorite(6);
    h.toggle_favorite(5);
    assert_eq!(h.favorites, vec![6]);
}

#[test]
fn a_commit_can_be_undone_and_redone() {
    let mut s = squad();
    let mut h = History::new();
    let out = commit_cell(&mut h, &mut s, "CZUM", 0, "overallrating", " 91 ", &parse_float, &float_text);
    assert!(matches!(out, CommitOutcome::Committed));
    assert_eq!(int_field(&s, "CZUM", 0, "overallrating"), Some(91));
    assert_eq!(h.change_log, vec!["CZUM #0 overallrating: 80 \u{2192} 91".to_string()]);
    assert_eq!(h.undo_stack.len(), 1);
    assert_eq!(h.undo(&mut s), Some(1));
    assert_eq!(int_field(&s, "CZUM", 0, "overallrating"), Some(80));
    assert_eq!(h.redo_stack.len(), 1);
    assert_eq!(h.redo(&mut s), Some(1));
    assert_eq!(int_field(&s, "CZUM", 0, "overallrating"), Some(91));
    assert_eq!(h.change_log[0], "Ripeti: 1 campi riapplicati");
    assert_eq!(h.change_log[1], "Undo: 1 fields restored");
    assert_eq!(h.undo(&mut s), Some(1));
    assert_eq!(int_field(&s, "CZUM", 0, "overallrating"), Some(80));
    assert!(s.validate_crc_chain().len() <= 1);
    assert_eq!(h.undo(&mut s), None);
}

#[test]
fn a_bad_commit_changes_nothing() {
    let mut s = squad();
    let before = s.buf.clone();
    let mut h = History::new();
    assert!(matches!(commit_cell(&mut h, &mut s, "CZUM", 0, "overallrating", "x1", &parse_float, &float_text), CommitOutcome::Invalid));
    assert!(matches!(commit_cell(&mut h, &mut s, "CZUM", 0, "nothing", "1", &parse_float, &float_text), CommitOutcome::NoSuchField));
    assert!(matches!(commit_cell(&mut h, &mut s, "CZUM", 0, "overallrating", "300", &parse_float, &float_text), CommitOutcome::Failed(_)));
    assert_eq!(s.buf, before);
    assert!(h.change_log.is_empty() && h.undo_stack.is_empty());
    assert!(matches!(commit_cell(&mut h, &mut s, "FORM", 1, "offset1x", "1.5", &parse_float, &float_text), CommitOutcome::Committed));
    assert_eq!(h.change_log[0], "FORM #1 offset1x: 0.5 \u{2192} 1.5");
}

#[test]
fn restoring_a_change_writes_its_value_back() {
    let mut s = squad();
    let snap = snapshot(&s, "lyxL", 0, "teamname").unwrap();
    assert_eq!(snap.old_value, FieldValue::Str("Arsenal".to_string()));
    s.set_field("lyxL", 0, "teamname", FieldValue::Str("Chelsea".to_string())).unwrap();
    let redo = restore(&mut s, vec![snap]);
    assert_eq!(s.get_field("lyxL", 0, "teamname").unwrap(), FieldValue::Str("Arsenal".to_string()));
    assert_eq!(redo.len(), 1);
    assert_eq!(redo[0].old_value, FieldValue::Str("Chelsea".to_string()));
}

#[test]
fn a_historical_card_is_applied_and_undoable() {
    let mut s = squad();
    let mut h = History::new();
    let db = HistoricalDatabase::from_csv("player_id,fifa_version,fifa_update,overall\n101,23,1,88\n");
    assert_eq!(h.apply_historical_card(&mut s, &db, 101, 22), CardImport::NoCard);
    assert_eq!(h.apply_historical_card(&mut s, &db, 555, 23), CardImport::NoCard);
    match h.apply_historical_card(&mut s, &db, 101, 23) {
        CardImport::Applied { player_index, applied, failed, skipped } => {
            assert_eq!((player_index, applied, failed), (1, 1, 0));
            assert!(skipped > 0);
        }
        other => panic!("unexpected {other:?}"),
    }
    assert_eq!(int_field(&s, "CZUM", 1, "overallrating"), Some(88));
    assert_eq!(h.change_log[0], "CZUM #1: imported FIFA 23 card (1 fields)");
    h.undo(&mut s);
    assert_eq!(int_field(&s, "CZUM", 1, "overallrating"), Some(75));
}

#[test]
fn clone_player_record_copies_fields_from_reference_file() {
    let mut s = squad();
    let reference = squad();
    let mut h = History::new();
    assert_eq!(h.clone_player_record(&mut s, &reference, "CZUM", "abc", 2), CloneOutcome::InvalidSourceId);
    assert_eq!(h.clone_player_record(&mut s, &reference, "CZUM", "999", 2), CloneOutcome::SourceNotFound(999));
    assert_eq!(h.clone_player_record(&mut s, &reference, "NONE", "100", 2), CloneOutcome::NoSourceTable);
    assert_eq!(
        h.clone_player_record(&mut s, &reference, "CZUM", " 100 ", 2),
        CloneOutcome::Cloned { source_playerid: 100, copied: 5, failed: 0 }
    );
    assert_eq!(int_field(&s, "CZUM", 2, "playerid"), Some(100));
    assert_eq!(int_field(&s, "CZUM", 2, "overallrating"), Some(80));
    assert_eq!(h.change_log[0], "CZUM #2: cloned from playerid 100 (5 fields)");
    h.undo(&mut s);
    assert_eq!(int_field(&s, "CZUM", 2, "playerid"), Some(102));
}

#[test]
fn applying_a_preset_changes_the_team_formation_and_is_undoable() {
    let mut s = squad();
    let mut h = History::new();
    let target = formation_presets(&s)
        .into_iter()
        .find(|(pi, _)| int_field(&s, "FORM", *pi, "position1") != int_field(&s, "FORM", 0, "position1"))
        .expect("no preset different from the current one");
    let expected_position1 = int_field(&s, "FORM", target.0, "position1").unwrap();
    match h.apply_formation_preset(&mut s, 10, target.0) {
        PresetOutcome::Applied { applied, failed, name } => {
            assert_eq!((applied, failed), (4, 0));
            assert_eq!(name, "5-3-2");
        }
        other => panic!("unexpected {other:?}"),
    }
    assert_eq!(int_field(&s, "FORM", 0, "position1"), Some(expected_position1));
    assert!(!h.undo_stack.is_empty(), "the operation is not undoable");
    assert_eq!(h.change_log[0], "FORM #0: modulo 5-3-2 applicato");
    h.undo(&mut s);
    assert_eq!(int_field(&s, "FORM", 0, "position1"), Some(3));
    assert!(matches!(h.apply_formation_preset(&mut s, 99, 1), PresetOutcome::NoFormation));
}

#[test]
fn slot_assignment_is_logged_and_undoable() {
    let mut s = squad();
    let reference = squad();
    let mut h = History::new();
    match h.assign_player_to_slot(&mut s, Some(&reference), 10, 2, 101) {
        SlotAssign::Assigned { change, new_name, old_name } => {
            assert_eq!(change, SlotChange::Swapped { other_slot: 1, applied: 2, failed: 0 });
            assert_eq!(new_name, "Kak\u{e1}");
            assert_eq!(old_name, "Player #0");
        }
        other => panic!("unexpected {other:?}"),
    }
    assert_eq!(int_field(&s, "SHEE", 0, "playerid2"), Some(101));
    assert_eq!(int_field(&s, "SHEE", 0, "playerid1"), Some(0));
    assert_eq!(h.change_log[0], "SHEE #0: slot 2 -> Kak\u{e1}");
    h.undo(&mut s);
    assert_eq!(int_field(&s, "SHEE", 0, "playerid2"), Some(0));
    assert_eq!(int_field(&s, "SHEE", 0, "playerid1"), Some(101));
    assert!(matches!(h.assign_player_to_slot(&mut s, None, 99, 0, 1), SlotAssign::NoLineup));
}

#[test]
fn small_editor_decisions() {
    assert_eq!(save_name_input("abcdef", 3), "abc");
    assert_eq!(save_name_input("ab", 3), "ab");
    assert_eq!(toggle_slot(Some(2), 2), None);
    assert_eq!(toggle_slot(Some(2), 3), Some(3));
    assert_eq!(toggle_slot(None, 0), Some(0));
}

#[test]
fn guards_report_what_can_be_read_and_written() {
    let s = squad();
    assert!(can_import(&s, "CZUM"));
    assert!(can_import(&s, "NONE"));
    assert!(can_export(&s, "CZUM"));
    assert!(can_read_everything(&s));
    assert!(cell_can_be_read(&s, "CZUM", 0, "playerid"));
    assert!(field_can_be_written(&s, "CZUM", "playerid"));
}

#[test]
fn live_string_fields_contain_no_control_characters() {
    let squad = squad();
    let teams = squad.table("lyxL").unwrap();
    let shortname = teams.shortname.clone();
    for idx in squad.written_record_indices(&shortname) {
        if let Ok(FieldValue::Str(name)) = squad.get_field(&shortname, idx, "teamname") {
            assert!(!name.chars().any(|c| c.is_control()), "record {idx}: {name:?}");
        }
    }
}

#[test]
fn toggling_a_new_favorite_twice_changes_nothing() {
    let mut h = History::new();
    h.toggle_favorite(1);
    h.toggle_favorite(2);
    h.toggle_favorite(7);
    assert_eq!(h.favorites, vec![1, 2, 7]);
    h.toggle_favorite(7);
    assert_eq!(h.favorites, vec![1, 2]);
}

// ----- team, league and roster lists -----

#[test]
fn team_list_filters_and_sorts_by_lowercase_name() {
    let s = squad();
    assert_eq!(
        team_list(&s, ""),
        vec![(10, "Arsenal".to_string()), (30, "Team 30".to_string()), (20, "\u{e9}quipe".to_string())]
    );
    assert_eq!(team_list(&s, &normalize_search("QUIP")), vec![(20, "\u{e9}quipe".to_string())]);
    assert_eq!(team_list(&s, "zzz"), vec![]);
}

#[test]
fn league_list_filters_and_sorts_by_lowercase_name() {
    let s = squad();
    assert_eq!(
        league_list(&s, ""),
        vec![(3, "bundesli".to_string()), (2, "Premier".to_string()), (1, "serie A".to_string())]
    );
    assert_eq!(league_list(&s, "prem"), vec![(2, "Premier".to_string())]);
}

#[test]
fn league_teams_come_from_the_link_table() {
    let s = squad();
    assert_eq!(league_teams(&s, 1), vec![]);
    let meta_text = format!(
        "{META}<table name=\"leagueteamlinks\" shortname=\"LTLK\"><fields>\
         <field name=\"leagueid\" shortname=\"K001\" rangelow=\"0\" />\
         <field name=\"teamid\" shortname=\"K002\" rangelow=\"0\" /></fields></table>"
    );
    let meta = parse_meta_xml(&meta_text).unwrap();
    let mut ts = tables();
    ts.push(Table {
        short: b"LTLK",
        rec_bytes: 2,
        slots: 5,
        written: 4,
        fields: vec![(3, 0, *b"K001", 8), (3, 8, *b"K002", 8)],
        records: vec![vec![1, 20], vec![1, 10], vec![2, 30], vec![1, 99], vec![1, 30]],
    });
    let s = SquadFile::load_from_bytes(build(&ts), Some(&meta)).unwrap();
    assert_eq!(
        league_teams(&s, 1),
        vec![(10, "Arsenal".to_string()), (99, "Team 99".to_string()), (20, "\u{e9}quipe".to_string())]
    );
    assert_eq!(league_teams(&s, 2), vec![(30, "".to_string())]);
    assert_eq!(league_teams(&s, 7), vec![]);
}

#[test]
fn team_roster_lists_linked_players_by_rating() {
    let s = squad();
    let reference = squad();
    assert_eq!(team_roster(&s, Some(&reference), 10), vec![(100, 0, 80, "Marco Rossi".to_string(), -1)]);
    assert_eq!(team_roster(&s, None, 20), vec![(101, 0, 75, "Player #101".to_string(), -1)]);
    assert_eq!(team_roster(&s, None, 30), vec![]);
}

#[test]
fn pages_hold_twenty_rows_and_stop_at_the_last() {
    assert_eq!(page_bounds(0, 5), (1, 0, 0, 0));
    assert_eq!(page_bounds(45, 1), (3, 1, 20, 40));
    assert_eq!(page_bounds(45, 9), (3, 2, 40, 45));
    assert_eq!(page_bounds(40, 2), (2, 1, 20, 40));
}
