use squad_core::codec::{read_field_bits, write_field_bits};
use squad_core::crc::{compute_crc32, compute_crc_db11};
use squad_core::huffman::HuffmanTree;
use squad_core::meta::parse_meta_xml;
use squad_core::tsv::{escape_cell, unescape_cell};

#[test]
fn bit_roundtrip() {
    let mut record = vec![0u8; 4];
    write_field_bits(&mut record, 3, 7, 87);
    let value = read_field_bits(&record, 3, 7);
    assert_eq!(value, 87);
}

#[test]
fn bit_write_does_not_disturb_neighbours() {
    let mut record = vec![0u8; 4];
    write_field_bits(&mut record, 0, 4, 0b1111);
    write_field_bits(&mut record, 4, 4, 0b0000);
    assert_eq!(read_field_bits(&record, 0, 4), 0b1111);
    assert_eq!(read_field_bits(&record, 4, 4), 0);
}

#[test]
fn empty_input_is_all_ones() {
    assert_eq!(compute_crc_db11(&[]), -1);
}

#[test]
fn crc32_matches_known_vectors() {
    assert_eq!(compute_crc32(b""), 0x0000_0000);
    assert_eq!(compute_crc32(b"123456789"), 0xCBF4_3926);
    assert_eq!(
        compute_crc32(b"The quick brown fox jumps over the lazy dog"),
        0x414F_A339
    );
}

#[test]
fn falls_back_to_raw_bytes_when_tree_is_empty() {
    let tree = HuffmanTree::load(&[], 0, 0);
    let buf = b"hello".to_vec();
    assert_eq!(tree.decode(&buf, 0, 5), b"hello".to_vec());
}

#[test]
fn load_caps_n_nodes_to_available_data() {
    let buf = vec![0u8; 8];
    let tree = HuffmanTree::load(&buf, 0, 1000);
    assert_eq!(tree.child.len(), 2);
}

#[test]
fn decode_stops_at_eof_not_panics() {
    let buf = vec![0u8; 0];
    let tree = HuffmanTree {
        child: vec![[0, 0]; 4],
        leaf: vec![[b'a', b'b']; 4],
    };
    let result = tree.decode(&buf, 0, 10);
    assert!(result.is_empty());
}

#[test]
fn decode_raw_fallback_clamps_to_buf_len() {
    let buf = vec![1u8, 2, 3];
    let tree = HuffmanTree::load(&[], 0, 0);
    let result = tree.decode(&buf, 1, 100);
    assert_eq!(result, vec![2, 3]);
}

#[test]
fn parses_simple_table() {
    let xml = r#"
        <table name="players" shortname="CZUM">
          <fields>
            <field name="playerid" shortname="ykFq" rangelow="0" rangehigh="500000" />
          </fields>
        </table>
    "#;
    let meta = parse_meta_xml(xml).unwrap();
    let table = meta.get("CZUM").unwrap();
    assert_eq!(table.name, "players");
    let field = table.fields.get("ykFq").unwrap();
    assert_eq!(field.name, "playerid");
    assert_eq!(field.rangelow, 0);
}

#[test]
fn parses_multiple_tables_and_fields() {
    let xml = r#"
        <table name="teams" shortname="lyxL">
          <fields>
            <field name="teamid" shortname="AAAA" rangelow="0" />
            <field name="teamname" shortname="BBBB" rangelow="0" />
          </fields>
        </table>
        <table name="players" shortname="CZUM">
          <fields>
            <field name="playerid" shortname="ykFq" rangelow="0" />
          </fields>
        </table>
    "#;
    let meta = parse_meta_xml(xml).unwrap();
    assert_eq!(meta.len(), 2);
    assert_eq!(meta.get("lyxL").unwrap().fields.len(), 2);
    assert_eq!(meta.get("CZUM").unwrap().fields.len(), 1);
}

#[test]
fn escape_roundtrip_handles_backslash_and_control_chars() {
    let original = "line1\nline2\ttab\\slash\rcr";
    let escaped = escape_cell(original);
    assert!(!escaped.contains('\n') && !escaped.contains('\t') && !escaped.contains('\r'));
    assert_eq!(unescape_cell(&escaped), original);
}
