use squad_core::crc::{compute_crc32, compute_crc_db11};
use squad_core::meta::parse_meta_xml;
use squad_core::{MetaMap, SquadError, SquadFile};


fn is_malformed(e: &SquadError) -> bool {
    matches!(
        e,
        SquadError::MalformedFile(_) | SquadError::SignatureNotFound
    )
}

fn assert_malformed(result: Result<SquadFile, SquadError>, ctx: &str) {
    match result {
        Ok(_) => panic!("{ctx}: expected error but got Ok"),
        Err(e) => assert!(is_malformed(&e), "{ctx}: unexpected error kind: {e:?}"),
    }
}

#[test]
fn rejects_empty_file() {
    assert_malformed(SquadFile::load_from_bytes(vec![], None), "empty file");
}

#[test]
fn rejects_random_bytes() {
    let garbage: Vec<u8> = (0..1024).map(|i| (i * 37 + 13) as u8).collect();
    assert_malformed(SquadFile::load_from_bytes(garbage, None), "random bytes");
}

// A small save, with its database where a real one has it, stands in for a real one: the same
// cuts and crafted headers must be refused.
const META: &str = r#"
<table name="teams" shortname="TEST">
  <fields>
    <field name="teamid" shortname="AAAA" rangelow="0" />
    <field name="overallrating" shortname="BBBB" rangelow="-10" />
    <field name="teamname" shortname="CCCC" rangelow="0" />
    <field name="rating" shortname="DDDD" rangelow="0" />
  </fields>
</table>
<table name="links" shortname="SECO">
  <fields>
    <field name="playerid" shortname="XXXX" rangelow="0" />
  </fields>
</table>
"#;

fn put_u32(b: &mut [u8], pos: usize, v: u32) {
    b[pos..pos + 4].copy_from_slice(&v.to_le_bytes());
}

fn put_desc(b: &mut Vec<u8>, ty: i32, bit_offset: i32, name: &[u8; 4], depth: i32) {
    b.extend_from_slice(&ty.to_le_bytes());
    b.extend_from_slice(&bit_offset.to_le_bytes());
    b.extend_from_slice(name);
    b.extend_from_slice(&depth.to_le_bytes());
}

fn table_header(rec_bytes: u32, slots: u16, written: u16, n_fields: u8) -> Vec<u8> {
    let mut h = vec![0u8; 40];
    put_u32(&mut h, 8, rec_bytes);
    put_u32(&mut h, 12, rec_bytes * 8);
    h[20..22].copy_from_slice(&slots.to_le_bytes());
    h[22..24].copy_from_slice(&written.to_le_bytes());
    h[28] = n_fields;
    h
}

/// A small save: a name, the database signature, a directory of two tables and their records.
fn fixture_bytes() -> Vec<u8> {
    let mut b = vec![0u8; 214];
    b[192..197].copy_from_slice(b"Squad");
    b.extend_from_slice(b"DB\0\x08\x01\0\0\0");
    b.extend_from_slice(&[0u8; 16]);
    let dir_start = b.len();
    b.extend_from_slice(b"TEST");
    b.extend_from_slice(&0u32.to_le_bytes());
    b.extend_from_slice(b"SECO");
    b.extend_from_slice(&164u32.to_le_bytes());
    b.extend_from_slice(&[0u8; 8]);
    let base = b.len();
    assert_eq!(base, 262);
    // the directory ends at the first invalid entry
    let t1 = base - 8;
    b.truncate(t1);
    let t1 = b.len();
    let mut h1 = table_header(15, 4, 2, 4);
    let dir_crc = compute_crc_db11(&b[dir_start..t1]) as u32;
    put_u32(&mut h1, 0, dir_crc);
    b.extend_from_slice(&h1);
    let fds1 = b.len();
    put_desc(&mut b, 3, 0, b"AAAA", 8);
    put_desc(&mut b, 3, 8, b"BBBB", 16);
    put_desc(&mut b, 0, 24, b"CCCC", 64);
    put_desc(&mut b, 4, 88, b"DDDD", 32);
    let mut rec0 = vec![0u8; 15];
    rec0[0] = 7;
    rec0[1..3].copy_from_slice(&(90u16 + 10).to_le_bytes());
    rec0[3..8].copy_from_slice(b"Alpha");
    rec0[11..15].copy_from_slice(&1.5f32.to_bits().to_le_bytes());
    let mut rec1 = vec![0u8; 15];
    rec1[0] = 9;
    rec1[1..3].copy_from_slice(&(75u16 + 10).to_le_bytes());
    rec1[3..10].copy_from_slice(b"Be\ta,\"x");
    rec1[11..15].copy_from_slice(&(-2.25f32).to_bits().to_le_bytes());
    b.extend_from_slice(&rec0);
    b.extend_from_slice(&rec1);
    b.extend_from_slice(&[0u8; 30]);
    let t2 = b.len();
    assert_eq!(t2 - t1, 164);
    let mut h2 = table_header(2, 3, 1, 1);
    let crc1 = compute_crc_db11(&b[fds1..t2]) as u32;
    put_u32(&mut h2, 0, crc1);
    b.extend_from_slice(&h2);
    let fds2 = b.len();
    put_desc(&mut b, 3, 0, b"XXXX", 16);
    b.extend_from_slice(&500u16.to_le_bytes());
    b.extend_from_slice(&[0u8; 4]);
    let end2 = b.len();
    let crc2 = compute_crc_db11(&b[fds2..end2]) as u32;
    b.extend_from_slice(&crc2.to_le_bytes());
    let sig_pos = 214;
    let file_crc = compute_crc32(&b[sig_pos - 4..]);
    put_u32(&mut b, sig_pos - 36, file_crc);
    b
}

fn meta() -> MetaMap {
    parse_meta_xml(META).unwrap()
}

fn load_real_bytes() -> Option<Vec<u8>> {
    Some(fixture_bytes())
}

fn meta_map() -> Option<MetaMap> {
    Some(meta())
}

#[test]
fn rejects_file_truncated_at_each_power_of_two() {
    let Some(real) = load_real_bytes() else {
        return;
    };
    let Some(meta) = meta_map() else {
        return;
    };
    for cut in [1, 2, 4, 8, 16, 32, 64, 128, 256, 512, 1024, 4096, 16384, 65536] {
        if cut >= real.len() {
            break;
        }
        let truncated = real[..cut].to_vec();
        assert_malformed(SquadFile::load_from_bytes(truncated, Some(&meta)), &format!("truncated at {cut} bytes"));
    }
}

#[test]
fn rejects_crafted_large_n_records_slot() {
    let Some(mut real) = load_real_bytes() else {
        return;
    };
    let Some(meta) = meta_map() else {
        return;
    };
    let squad = SquadFile::load_from_bytes(real.clone(), Some(&meta)).unwrap();
    let table = squad.table("TEST").unwrap();
    let header_pos = table.start + 20;
    real[header_pos] = 0xFF;
    real[header_pos + 1] = 0xFF;
    assert_malformed(SquadFile::load_from_bytes(real, Some(&meta)), "crafted n_records_slot=65535");
}

#[test]
fn rejects_crafted_field_bit_offset_beyond_record() {
    let Some(mut real) = load_real_bytes() else {
        return;
    };
    let Some(meta) = meta_map() else {
        return;
    };
    let squad = SquadFile::load_from_bytes(real.clone(), Some(&meta)).unwrap();
    let table = squad.table("TEST").unwrap();
    let bit_offset_pos = table.field_desc_start + 4;
    real[bit_offset_pos] = 0x00;
    real[bit_offset_pos + 1] = 0x00;
    real[bit_offset_pos + 2] = 0x00;
    real[bit_offset_pos + 3] = 0x40;
    assert_malformed(
        SquadFile::load_from_bytes(real, Some(&meta)),
        "crafted field bit_offset=0x40000000 (far beyond rec_bytes)",
    );
}

#[test]
fn rejects_crafted_large_rec_bytes() {
    let Some(mut real) = load_real_bytes() else {
        return;
    };
    let Some(meta) = meta_map() else {
        return;
    };
    let squad = SquadFile::load_from_bytes(real.clone(), Some(&meta)).unwrap();
    let table = squad.table("TEST").unwrap();
    let rec_bytes_pos = table.start + 8;
    real[rec_bytes_pos] = 0xFF;
    real[rec_bytes_pos + 1] = 0xFF;
    real[rec_bytes_pos + 2] = 0xFF;
    real[rec_bytes_pos + 3] = 0x7F;
    assert_malformed(SquadFile::load_from_bytes(real, Some(&meta)), "crafted rec_bytes=0x7FFFFFFF");
}

#[test]
fn load_reports_the_error_of_the_first_bad_table() {
    let Some(mut real) = load_real_bytes() else {
        return;
    };
    let Some(meta) = meta_map() else {
        return;
    };
    let squad = SquadFile::load_from_bytes(real.clone(), Some(&meta)).unwrap();
    let table = squad.table("TEST").unwrap();
    let bit_offset_pos = table.field_desc_start + 4;
    real[bit_offset_pos + 3] = 0x40;
    let real_copy = real.clone();
    let parsed = match squad_core::parse::parse_all_tables(&real, Some(&meta)) {
        Err(e) => e,
        Ok(_) => panic!("the crafted file parsed"),
    };
    let loaded = match SquadFile::load_from_bytes(real, Some(&meta)) {
        Err(e) => e,
        Ok(_) => panic!("the crafted file loaded"),
    };
    match (&parsed, &loaded) {
        (SquadError::MalformedFile(a), SquadError::MalformedFile(b)) => {
            let p = bit_offset_pos - 4;
            let word = |at: usize| u32::from_le_bytes([real_copy[at], real_copy[at + 1], real_copy[at + 2], real_copy[at + 3]]);
            let raw_type = word(p) as i32;
            let bit_offset = word(p + 4);
            let depth = word(p + 12);
            let rec_bytes = word(table.start + 8) as usize;
            let fsn = String::from_utf8_lossy(&real_copy[p + 8..p + 12]).to_string();
            let needed: usize = if raw_type == 4 || raw_type == 13 || raw_type == 14 {
                (bit_offset / 8) as usize + 4
            } else {
                (bit_offset.saturating_add(depth).saturating_add(7) / 8) as usize
            };
            let expected = format!(
                "table 'TEST' field '{}' (bit_offset={}, depth={}) needs {} bytes but record is {}",
                fsn, bit_offset, depth, needed, rec_bytes
            );
            assert_eq!(a, &expected);
            assert_eq!(b, a);
        }
        _ => panic!("unexpected errors: {parsed:?} {loaded:?}"),
    }
}

fn parse_message(buf: &[u8], end: usize) -> String {
    match squad_core::parse::parse_table(buf, 0, end, "abcd", None) {
        Err(SquadError::MalformedFile(m)) => m,
        other => panic!("expected a malformed table, got {other:?}"),
    }
}

#[test]
fn table_errors_name_the_offsets_and_sizes_involved() {
    let short = vec![0u8; 30];
    assert_eq!(
        parse_message(&short, 30),
        "table 'abcd' header at offset 0 extends beyond file (30 bytes)"
    );

    let mut descriptors = vec![0u8; 40];
    descriptors[28] = 2;
    assert_eq!(
        parse_message(&descriptors, 40),
        "table 'abcd' field descriptors (32 bytes) extend beyond file"
    );

    let mut records = vec![0u8; 48];
    records[8] = 4;
    records[20] = 3;
    assert_eq!(
        parse_message(&records, 48),
        "table 'abcd' record data (3 records × 4 bytes = 12 bytes) extends beyond table boundary"
    );

    let mut field = vec![0u8; 56];
    field[8] = 1;
    field[28] = 1;
    field[40] = 3;
    field[44] = 8;
    field[48..52].copy_from_slice(b"ABCD");
    field[52] = 4;
    assert_eq!(
        parse_message(&field, 56),
        "table 'abcd' field 'ABCD' (bit_offset=8, depth=4) needs 2 bytes but record is 1"
    );
}
