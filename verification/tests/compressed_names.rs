use std::collections::HashMap;

use squad_core::crc::{compute_crc32, compute_crc_db11};
use squad_core::meta::parse_meta_xml;
use squad_core::{FieldValue, SquadFile};

struct Table {
    short: &'static [u8; 4],
    rec_bytes: u32,
    slots: u16,
    written: u16,
    fields: Vec<(i32, i32, [u8; 4], i32)>,
    records: Vec<Vec<u8>>,
    extra: Vec<u8>,
}

fn put_u32(b: &mut [u8], pos: usize, v: u32) {
    b[pos..pos + 4].copy_from_slice(&v.to_le_bytes());
}

/// A save with the given tables, each checksum in place.
fn build(tables: &[Table]) -> Vec<u8> {
    let mut b = vec![0u8; 40];
    b.extend_from_slice(b"DB\0\x08\x01\0\0\0");
    b.extend_from_slice(&[0u8; 16]);
    let dir_start = b.len();
    let mut sizes = Vec::new();
    for t in tables {
        let data = t.rec_bytes as usize * t.slots as usize + t.extra.len();
        sizes.push(40 + 16 * t.fields.len() + data);
    }
    let mut off = 0u32;
    for (t, size) in tables.iter().zip(&sizes) {
        b.extend_from_slice(t.short);
        b.extend_from_slice(&off.to_le_bytes());
        off += *size as u32;
    }
    let mut prev_region = dir_start;
    for t in tables {
        let start = b.len();
        let mut h = vec![0u8; 40];
        put_u32(&mut h, 0, compute_crc_db11(&b[prev_region..start]) as u32);
        put_u32(&mut h, 8, t.rec_bytes);
        put_u32(&mut h, 12, t.rec_bytes * 8);
        h[20..22].copy_from_slice(&t.slots.to_le_bytes());
        h[22..24].copy_from_slice(&t.written.to_le_bytes());
        h[28] = t.fields.len() as u8;
        b.extend_from_slice(&h);
        prev_region = b.len();
        for (ty, bit, name, depth) in &t.fields {
            b.extend_from_slice(&ty.to_le_bytes());
            b.extend_from_slice(&bit.to_le_bytes());
            b.extend_from_slice(name);
            b.extend_from_slice(&depth.to_le_bytes());
        }
        for i in 0..t.slots as usize {
            let mut r = t.records.get(i).cloned().unwrap_or_default();
            r.resize(t.rec_bytes as usize, 0);
            b.extend_from_slice(&r);
        }
        b.extend_from_slice(&t.extra);
    }
    let end = b.len();
    let crc = compute_crc_db11(&b[prev_region..end]) as u32;
    b.extend_from_slice(&crc.to_le_bytes());
    let file_crc = compute_crc32(&b[36..]);
    put_u32(&mut b, 4, file_crc);
    b
}

const META: &str = r#"
<table name="players" shortname="CZUM"><fields>
  <field name="playerid" shortname="P001" rangelow="0" />
  <field name="firstnameid" shortname="P002" rangelow="0" />
  <field name="lastnameid" shortname="P003" rangelow="0" />
</fields></table>
<table name="playernames" shortname="BGwe"><fields>
  <field name="name" shortname="N001" rangelow="0" />
</fields></table>
"#;

/// A code tree over `symbols`: nodes of four bytes (child and leaf for bit 0, then for bit 1),
/// node 0 the root, and each symbol's code.
fn code_tree(symbols: &[u8]) -> (Vec<[u8; 4]>, HashMap<u8, Vec<u8>>) {
    let mut nodes = Vec::new();
    let mut codes = HashMap::new();
    tree_node(symbols, Vec::new(), &mut nodes, &mut codes);
    (nodes, codes)
}

/// Adds the node for `symbols`, whose code starts with `prefix`, and gives its index.
fn tree_node(symbols: &[u8], prefix: Vec<u8>, nodes: &mut Vec<[u8; 4]>, codes: &mut HashMap<u8, Vec<u8>>) -> u8 {
        let index = nodes.len();
        nodes.push([0; 4]);
        let (left, right) = symbols.split_at(symbols.len() / 2);
        for (bit, side) in [(0u8, left), (1u8, right)] {
            let mut code = prefix.clone();
            code.push(bit);
            let (child, leaf) = if side.len() == 1 {
                codes.insert(side[0], code);
                (0, side[0])
            } else {
                (tree_node(side, code, nodes, codes), 0)
            };
            nodes[index][2 * bit as usize] = child;
            nodes[index][2 * bit as usize + 1] = leaf;
        }
        index as u8
}

fn encode(text: &str, codes: &HashMap<u8, Vec<u8>>) -> Vec<u8> {
    let bits: Vec<u8> = text.bytes().flat_map(|c| codes[&c].clone()).collect();
    let mut out = vec![text.len() as u8];
    for chunk in bits.chunks(8) {
        let mut byte = 0u8;
        for (i, bit) in chunk.iter().enumerate() {
            byte |= bit << (7 - i);
        }
        out.push(byte);
    }
    out
}

const NAMES: [&str; 7] = ["", "Lionel", "Messi", "Kylian", "Mbapp\u{e9}", "Erling", "Haaland"];

fn load_master_db() -> Option<SquadFile> {
    let mut symbols: Vec<u8> = NAMES.iter().flat_map(|n| n.bytes()).collect();
    symbols.sort();
    symbols.dedup();
    let (nodes, codes) = code_tree(&symbols);
    let mut extra: Vec<u8> = nodes.iter().flatten().copied().collect();
    let mut offsets = Vec::new();
    for name in NAMES {
        offsets.push(extra.len() as i32);
        extra.extend(encode(name, &codes));
    }
    let names = Table {
        short: b"BGwe",
        rec_bytes: 4,
        slots: NAMES.len() as u16,
        written: NAMES.len() as u16,
        fields: vec![(13, 0, *b"N001", 32)],
        records: offsets.iter().map(|o| o.to_le_bytes().to_vec()).collect(),
        extra,
    };
    let player = |id: u32, first: u16, last: u16| {
        let mut r = id.to_le_bytes().to_vec();
        r.extend_from_slice(&first.to_le_bytes());
        r.extend_from_slice(&last.to_le_bytes());
        r
    };
    let players = Table {
        short: b"CZUM",
        rec_bytes: 8,
        slots: 3,
        written: 3,
        fields: vec![(3, 0, *b"P001", 32), (3, 32, *b"P002", 16), (3, 48, *b"P003", 16)],
        records: vec![player(158023, 1, 2), player(231747, 3, 4), player(239085, 5, 6)],
        extra: Vec::new(),
    };
    let meta = parse_meta_xml(META).ok()?;
    SquadFile::load_from_bytes(build(&[players, names]), Some(&meta)).ok()
}

fn find_player_index(db: &SquadFile, player_id: i64) -> usize {
    let players = db.table("CZUM").unwrap();
    for i in 0..players.n_records_slot {
        if let Ok(FieldValue::Int(id)) = db.get_field("CZUM", i, "playerid") {
            if id == player_id {
                return i;
            }
        }
    }
    panic!("player {player_id} not found in master db");
}

#[test]
fn decodes_known_player_full_names_via_huffman_compressed_strings() {
    let db = load_master_db().unwrap();
    let cases: &[(i64, &str, &str)] = &[
        (158023, "Lionel", "Messi"),
        (231747, "Kylian", "Mbapp\u{e9}"),
        (239085, "Erling", "Haaland"),
    ];
    for &(player_id, expected_first, expected_last) in cases {
        let idx = find_player_index(&db, player_id);
        let firstnameid = db.get_field("CZUM", idx, "firstnameid").unwrap().as_int().unwrap();
        let lastnameid = db.get_field("CZUM", idx, "lastnameid").unwrap().as_int().unwrap();
        let firstname = db.get_field("BGwe", firstnameid as usize, "name").unwrap();
        let lastname = db.get_field("BGwe", lastnameid as usize, "name").unwrap();
        assert_eq!(firstname, FieldValue::Str(expected_first.to_string()));
        assert_eq!(lastname, FieldValue::Str(expected_last.to_string()));
    }
}

#[test]
fn compressed_string_is_empty_for_nameid_zero() {
    let db = load_master_db().unwrap();
    let name = db.get_field("BGwe", 0, "name").unwrap();
    assert_eq!(name, FieldValue::Str(String::new()));
}

#[test]
fn bulk_column_decode_matches_single_reads_and_is_fast() {
    let db = load_master_db().unwrap();
    let all = db.read_compressed_string_column("BGwe", "name").unwrap();
    let table = db.table("BGwe").unwrap();
    assert_eq!(all.len(), table.n_records_slot);
    for idx in [1usize, 2, 3, 4, 5, 6] {
        let single = db.get_field("BGwe", idx, "name").unwrap();
        assert_eq!(FieldValue::Str(all[idx].clone()), single, "mismatch at {idx}");
    }
    assert!(all.iter().any(|s| s == "Messi"));
}
