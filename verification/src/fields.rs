//! Reading field values out of records, including Huffman-compressed strings.
use vstd::prelude::*;

use crate::codec::{bits_value, read_bits_at, read_null_padded_string, until_nul};
use crate::error::{Result, SquadError};
use crate::huffman::{spec_decode, spec_node_count, spec_tree_child, spec_tree_leaf, HuffmanTree};
use crate::model::{FieldDescriptor, FieldType, FieldValue, TableInfo};
use crate::parse::{buf_len_ok, i32le, needed_bytes, read_i32le, read_u32le, u32le};
use crate::squad::{table_wf, SquadFile};
use crate::text::{lossy_string, utf8_text, to_owned_string};

verus! {

/// Where record `idx` of `t` starts.
pub open spec fn record_start(t: TableInfo, idx: int) -> int {
    t.data_start + idx * t.rec_bytes
}

/// An integer field of record `idx` can be read: its width fits a `u32`, its bits lie in
/// the record, and adding `rangelow` to the raw value does not overflow.
pub open spec fn int_cell_ok(buf: Seq<u8>, t: TableInfo, f: FieldDescriptor, idx: int) -> bool {
    &&& f.depth <= 32
    &&& f.bit_offset + f.depth <= u32::MAX + 1
    &&& f.bit_offset + f.depth <= 8 * t.rec_bytes
    &&& bits_value(buf.skip(record_start(t, idx)), f.bit_offset as int, f.depth as nat) + f.rangelow
        <= i64::MAX
}

/// The offset of record `i`'s compressed string, relative to the end of the record data,
/// or -1 when its 4 bytes lie past the end of the file.
pub open spec fn cstr_offset(buf: Seq<u8>, t: TableInfo, bo8: int, i: int) -> int {
    let p = record_start(t, i) + bo8;
    if p + 4 > buf.len() {
        -1
    } else {
        i32le(buf, p) as int
    }
}

/// The smallest non-negative string offset of the first `upto` records, or `i32::MAX`.
pub open spec fn min_cstr_offset(buf: Seq<u8>, t: TableInfo, bo8: int, upto: int) -> int
    decreases upto,
{
    if upto <= 0 {
        i32::MAX as int
    } else {
        let m = min_cstr_offset(buf, t, bo8, upto - 1);
        let o = cstr_offset(buf, t, bo8, upto - 1);
        if 0 <= o < m {
            o
        } else {
            m
        }
    }
}

/// The smallest non-negative string offset of the first `upto` records, if there is one.
pub open spec fn col_min_offset(buf: Seq<u8>, t: TableInfo, bo8: int, upto: int) -> Option<int>
    decreases upto,
{
    if upto <= 0 {
        None
    } else {
        let m = col_min_offset(buf, t, bo8, upto - 1);
        let o = cstr_offset(buf, t, bo8, upto - 1);
        if o >= 0 {
            match m {
                Some(x) => if o < x {
                    Some(o)
                } else {
                    Some(x)
                },
                None => Some(o),
            }
        } else {
            m
        }
    }
}

/// The decoded bytes of the compressed string at relative offset `rel`, with a tree of
/// `m / 4` nodes at the end of the record data: a length header (one byte, or two
/// big-endian bytes for long strings), then the Huffman-coded bytes.
pub open spec fn decode_cstr(buf: Seq<u8>, t: TableInfo, f: FieldDescriptor, rel: int, m: int) -> Seq<u8> {
    let n = spec_node_count(buf.len() as int, t.data_end as int, m / 4);
    let long = f.field_type == FieldType::LongCompressedString;
    let hl = if long {
        2int
    } else {
        1int
    };
    let abs = t.data_end + rel;
    if abs + hl > buf.len() {
        Seq::empty()
    } else {
        spec_decode(
            spec_tree_child(buf, t.data_end as int, n),
            spec_tree_leaf(buf, t.data_end as int, n),
            buf,
            abs + hl,
            if long {
                (buf[abs] as nat) * 256 + buf[abs + 1] as nat
            } else {
                buf[abs] as nat
            },
        )
    }
}

/// The bytes of the compressed string of record `idx`: empty when its offset is negative
/// or when no live record has a non-negative offset below `i32::MAX`.
pub open spec fn compressed_text_bytes(buf: Seq<u8>, t: TableInfo, f: FieldDescriptor, idx: int) -> Seq<u8> {
    let bo8 = f.bit_offset as int / 8;
    let rel = cstr_offset(buf, t, bo8, idx);
    if rel < 0 {
        Seq::empty()
    } else {
        let m = min_cstr_offset(buf, t, bo8, t.n_written_records as int);
        if m == i32::MAX {
            Seq::empty()
        } else {
            decode_cstr(buf, t, f, rel, m)
        }
    }
}

/// The bytes that the column read gives for record `i`.
pub open spec fn column_text_bytes(buf: Seq<u8>, t: TableInfo, f: FieldDescriptor, i: int) -> Seq<u8> {
    let bo8 = f.bit_offset as int / 8;
    if bo8 + 4 > t.rec_bytes {
        Seq::empty()
    } else {
        match col_min_offset(buf, t, bo8, t.n_written_records as int) {
            None => Seq::empty(),
            Some(m) => if i < t.n_written_records && cstr_offset(buf, t, bo8, i) >= 0 {
                decode_cstr(buf, t, f, cstr_offset(buf, t, bo8, i), m)
            } else {
                Seq::empty()
            },
        }
    }
}

/// `v` is the value of field `f` in record `idx` of `t`.
pub open spec fn field_value_is(buf: Seq<u8>, t: TableInfo, f: FieldDescriptor, idx: int, v: FieldValue) -> bool {
    let rs = record_start(t, idx);
    let bo8 = f.bit_offset as int / 8;
    match f.field_type {
        FieldType::Integer => v == FieldValue::Int(
            (bits_value(buf.skip(rs), f.bit_offset as int, f.depth as nat) + f.rangelow) as i64,
        ),
        FieldType::Float => v == FieldValue::Float(u32le(buf, rs + bo8)),
        FieldType::String => v matches FieldValue::Str(s) && s@ == utf8_text(
            until_nul(buf.subrange(rs + bo8, rs + bo8 + f.depth as int / 8)),
        ),
        FieldType::ShortCompressedString | FieldType::LongCompressedString => v matches FieldValue::Str(
            s,
        ) && s@ == utf8_text(compressed_text_bytes(buf, t, f, idx)),
        FieldType::Unknown(_) => false,
    }
}

pub proof fn lemma_record_in_buffer(t: TableInfo, len: int, idx: int)
    requires
        table_wf(t, len),
        0 <= idx < t.n_records_slot,
    ensures
        t.data_start <= record_start(t, idx),
        record_start(t, idx) + t.rec_bytes <= t.data_end,
{
    assert(t.data_start <= t.data_start + idx * t.rec_bytes) by (nonlinear_arith)
        requires
            idx >= 0,
            t.rec_bytes >= 0,
    ;
    assert(t.data_start + idx * t.rec_bytes + t.rec_bytes <= t.data_start + t.rec_bytes
        * t.n_records_slot) by (nonlinear_arith)
        requires
            0 <= idx < t.n_records_slot,
            t.rec_bytes >= 0,
    ;
}

/// Field `name` of record `idx` of table `ts` can be read without overflow from bytes `buf`
/// laid out as `tables` describes.
pub open spec fn can_read_in(tables: Seq<TableInfo>, buf: Seq<u8>, ts: Seq<char>, idx: int, name: Seq<char>) -> bool {
    match crate::squad::last_table_index(tables, ts, tables.len() as int) {
        Some(ti) => {
            let t = tables[ti];
            match t.spec_field_index(name) {
                Some(fi) => {
                    let f = t.fields@[fi];
                    &&& (0 <= idx < t.n_records_slot && f.field_type == FieldType::Integer)
                        ==> int_cell_ok(buf, t, f, idx)
                    &&& (0 <= idx < t.n_records_slot && f.field_type == FieldType::String)
                        ==> f.bit_offset as int / 8 + f.depth as int / 8 <= t.rec_bytes
                },
                None => true,
            }
        },
        None => true,
    }
}

impl SquadFile {
    /// Field `name` of record `idx` of table `ts` can be read without overflow.
    pub open spec fn can_read(&self, ts: Seq<char>, idx: int, name: Seq<char>) -> bool {
        can_read_in(self.tables@, self.buf@, ts, idx, name)
    }

    /// Reads field `field_name` of record `record_index` of table `table_shortname`.
    pub fn get_field(&self, table_shortname: &str, record_index: usize, field_name: &str) -> (r:
        Result<FieldValue>)
        requires
            self.wf(),
            self.can_read(table_shortname@, record_index as int, field_name@),
        ensures
            match self.spec_table_index(table_shortname@) {
                None => r matches Err(SquadError::UnknownTable(s)) && s@ == table_shortname@,
                Some(ti) => {
                    let t = self.tables@[ti];
                    match t.spec_field_index(field_name@) {
                        None => r matches Err(SquadError::UnknownField { table, field }) && table@
                            == table_shortname@ && field@ == field_name@,
                        Some(fi) => if record_index >= t.n_records_slot {
                            r matches Err(SquadError::RecordOutOfRange { table, index, count })
                                && table@ == table_shortname@ && index == record_index && count
                                == t.n_records_slot
                        } else if t.fields@[fi].field_type is Unknown {
                            r matches Err(SquadError::WrongFieldType { field, actual, expected })
                                && field@ == field_name@ && actual == t.fields@[fi].field_type
                                && expected == FieldType::Integer
                        } else {
                            r matches Ok(v) && field_value_is(
                                self.buf@,
                                t,
                                t.fields@[fi],
                                record_index as int,
                                v,
                            )
                        },
                    }
                },
            },
    {
        let ti = match self.table_position(table_shortname) {
            Some(i) => i,
            None => return Err(SquadError::UnknownTable(to_owned_string(table_shortname))),
        };
        let table = &self.tables[ti];
        let field = match table.field(field_name) {
            Some(f) => f,
            None => {
                return Err(
                    SquadError::UnknownField {
                        table: to_owned_string(table_shortname),
                        field: to_owned_string(field_name),
                    },
                )
            },
        };
        if record_index >= table.n_records_slot {
            return Err(
                SquadError::RecordOutOfRange {
                    table: to_owned_string(table_shortname),
                    index: record_index,
                    count: table.n_records_slot,
                },
            );
        }
        proof {
            assert(table_wf(*table, self.buf@.len() as int));
            lemma_record_in_buffer(*table, self.buf@.len() as int, record_index as int);
            let fi = table.spec_field_index(field_name@).unwrap();
            crate::model::lemma_first_field_bounds(table.fields@, field_name@, 0);
            assert(needed_bytes(
                table.fields@[fi].field_type,
                table.fields@[fi].bit_offset,
                table.fields@[fi].depth,
            ) <= table.rec_bytes);
        }
        let record_start = table.record_offset(record_index);
        match field.field_type {
            FieldType::Integer => {
                let raw = read_bits_at(self.buf.as_slice(), record_start, field.bit_offset, field.depth);
                Ok(FieldValue::Int(raw as i64 + field.rangelow))
            },
            FieldType::Float => {
                let byte_off = (field.bit_offset / 8) as usize;
                Ok(FieldValue::Float(read_u32le(self.buf.as_slice(), record_start + byte_off)))
            },
            FieldType::String => {
                let byte_off = (field.bit_offset / 8) as usize;
                let len = (field.depth / 8) as usize;
                Ok(
                    FieldValue::Str(
                        read_null_padded_string(
                            &self.buf.as_slice()[record_start + byte_off..record_start + byte_off + len],
                        ),
                    ),
                )
            },
            FieldType::ShortCompressedString | FieldType::LongCompressedString => Ok(
                FieldValue::Str(self.read_compressed_string(ti, field, record_index)),
            ),
            FieldType::Unknown(other) => Err(
                SquadError::WrongFieldType {
                    field: to_owned_string(field_name),
                    actual: FieldType::Unknown(other),
                    expected: FieldType::Integer,
                },
            ),
        }
    }
}

/// The text of no bytes.
fn empty_text() -> (s: String)
    ensures
        s@ == utf8_text(Seq::empty()),
{
    let v: Vec<u8> = Vec::new();
    proof {
        assert(v@ =~= Seq::<u8>::empty());
    }
    lossy_string(v.as_slice())
}

/// The non-negative string offset of record `i`, read as the column read does.
fn cstr_offset_exec(buf: &[u8], t: &TableInfo, bo8: usize, i: usize) -> (r: i32)
    requires
        table_wf(*t, buf@.len() as int),
        buf_len_ok(buf@.len() as int),
        i < t.n_records_slot,
        bo8 <= u32::MAX,
    ensures
        r as int == cstr_offset(buf@, *t, bo8 as int, i as int),
{
    proof {
        lemma_record_in_buffer(*t, buf@.len() as int, i as int);
    }
    let p = t.record_offset(i) + bo8;
    if p > buf.len() || buf.len() - p < 4 {
        -1
    } else {
        read_i32le(buf, p)
    }
}

/// The decoded bytes of the compressed string at `rel`, with a tree of `m / 4` nodes.
fn decode_cstr_exec(buf: &[u8], t: &TableInfo, long: bool, rel: i32, m: i32) -> (r: Vec<u8>)
    requires
        table_wf(*t, buf@.len() as int),
        buf_len_ok(buf@.len() as int),
        rel >= 0,
        m >= 0,
    ensures
        forall|f: FieldDescriptor|
            (f.field_type == FieldType::LongCompressedString) == long ==> r@ == #[trigger] decode_cstr(
                buf@,
                *t,
                f,
                rel as int,
                m as int,
            ),
{
    let n_nodes = (m as usize) / 4;
    let tree = HuffmanTree::load(buf, t.data_end, n_nodes);
    let abs = t.data_end + rel as usize;
    let header_len: usize = if long {
        2
    } else {
        1
    };
    if abs + header_len > buf.len() {
        return Vec::new();
    }
    let len: usize = if long {
        (buf[abs] as usize) * 256 + buf[abs + 1] as usize
    } else {
        buf[abs] as usize
    };
    tree.decode(buf, abs + header_len, len)
}

impl SquadFile {
    /// The text of a compressed string field of one record: the length header and the
    /// Huffman-coded bytes at the record's offset past the record data, decoded with the
    /// tree that precedes the column's strings.
    fn read_compressed_string(&self, ti: usize, field: &FieldDescriptor, record_index: usize) -> (s: String)
        requires
            self.wf(),
            ti < self.tables@.len(),
            record_index < self.tables@[ti as int].n_records_slot,
        ensures
            s@ == utf8_text(compressed_text_bytes(self.buf@, self.tables@[ti as int], *field, record_index as int)),
    {
        let table = &self.tables[ti];
        let buf = self.buf.as_slice();
        assert(table_wf(*table, buf@.len() as int));
        let bo8 = (field.bit_offset / 8) as usize;
        let rel = cstr_offset_exec(buf, table, bo8, record_index);
        if rel < 0 {
            return empty_text();
        }
        let mut min_offset: i32 = i32::MAX;
        let mut i: usize = 0;
        while i < table.n_written_records
            invariant
                table_wf(*table, buf@.len() as int),
                buf_len_ok(buf@.len() as int),
                bo8 <= u32::MAX,
                i <= table.n_written_records,
                min_offset as int == min_cstr_offset(buf@, *table, bo8 as int, i as int),
                min_offset >= 0,
            decreases table.n_written_records - i,
        {
            let off = cstr_offset_exec(buf, table, bo8, i);
            if off >= 0 && off < min_offset {
                min_offset = off;
            }
            i = i + 1;
        }
        if min_offset == i32::MAX {
            return empty_text();
        }
        let long = match field.field_type {
            FieldType::LongCompressedString => true,
            _ => false,
        };
        let decoded = decode_cstr_exec(buf, table, long, rel, min_offset);
        lossy_string(decoded.as_slice())
    }

    /// The text of every slot of a compressed string column, decoding the shared tree once.
    /// Slots past the live records are empty.
    pub fn read_compressed_string_column(&self, table_shortname: &str, field_name: &str) -> (r:
        Result<Vec<String>>)
        requires
            self.wf(),
        ensures
            match self.spec_table_index(table_shortname@) {
                None => r matches Err(SquadError::UnknownTable(s)) && s@ == table_shortname@,
                Some(ti) => {
                    let t = self.tables@[ti];
                    match t.spec_field_index(field_name@) {
                        None => r matches Err(SquadError::UnknownField { table, field }) && table@
                            == table_shortname@ && field@ == field_name@,
                        Some(fi) => {
                            let f = t.fields@[fi];
                            if !(f.field_type == FieldType::ShortCompressedString || f.field_type
                                == FieldType::LongCompressedString) {
                                r matches Err(SquadError::WrongFieldType { field, actual, expected })
                                    && field@ == field_name@ && actual == f.field_type && expected
                                    == FieldType::ShortCompressedString
                            } else {
                                r matches Ok(v) && v@.len() == t.n_records_slot && forall|i: int|
                                    0 <= i < v@.len() ==> #[trigger] v@[i]@ == utf8_text(
                                        column_text_bytes(self.buf@, t, f, i),
                                    )
                            }
                        },
                    }
                },
            },
    {
        let ti = match self.table_position(table_shortname) {
            Some(i) => i,
            None => return Err(SquadError::UnknownTable(to_owned_string(table_shortname))),
        };
        let table = &self.tables[ti];
        let field = match table.field(field_name) {
            Some(f) => f,
            None => {
                return Err(
                    SquadError::UnknownField {
                        table: to_owned_string(table_shortname),
                        field: to_owned_string(field_name),
                    },
                )
            },
        };
        let long = match field.field_type {
            FieldType::ShortCompressedString => false,
            FieldType::LongCompressedString => true,
            _ => {
                return Err(
                    SquadError::WrongFieldType {
                        field: to_owned_string(field_name),
                        actual: field.field_type,
                        expected: FieldType::ShortCompressedString,
                    },
                )
            },
        };
        let buf = self.buf.as_slice();
        assert(table_wf(*table, buf@.len() as int));
        let bo8 = (field.bit_offset / 8) as usize;
        let n_slots = table.n_records_slot;
        let ghost fv = *field;
        let mut min_offset: Option<i32> = None;
        if bo8 + 4 <= table.rec_bytes {
            let mut i: usize = 0;
            while i < table.n_written_records
                invariant
                    table_wf(*table, buf@.len() as int),
                    buf_len_ok(buf@.len() as int),
                    bo8 <= u32::MAX,
                    i <= table.n_written_records,
                    match min_offset {
                        Some(m) => col_min_offset(buf@, *table, bo8 as int, i as int) == Some(m as int),
                        None => col_min_offset(buf@, *table, bo8 as int, i as int) is None,
                    },
                    min_offset matches Some(m) ==> m >= 0,
                decreases table.n_written_records - i,
            {
                let off = cstr_offset_exec(buf, table, bo8, i);
                if off >= 0 {
                    min_offset = match min_offset {
                        Some(m) => if off < m {
                            Some(off)
                        } else {
                            Some(m)
                        },
                        None => Some(off),
                    };
                }
                i = i + 1;
            }
        }
        let mut out: Vec<String> = Vec::new();
        let mut i: usize = 0;
        while i < n_slots
            invariant
                table_wf(*table, buf@.len() as int),
                buf_len_ok(buf@.len() as int),
                bo8 == fv.bit_offset as int / 8,
                n_slots == table.n_records_slot,
                (fv.field_type == FieldType::LongCompressedString) == long,
                bo8 + 4 <= table.rec_bytes ==> match min_offset {
                    Some(m) => col_min_offset(buf@, *table, bo8 as int, table.n_written_records as int) == Some(m as int),
                    None => col_min_offset(buf@, *table, bo8 as int, table.n_written_records as int) is None,
                },
                bo8 + 4 > table.rec_bytes ==> min_offset is None,
                min_offset matches Some(m) ==> m >= 0,
                i <= n_slots,
                out@.len() == i,
                forall|k: int|
                    0 <= k < i ==> #[trigger] out@[k]@ == utf8_text(
                        column_text_bytes(buf@, *table, fv, k),
                    ),
            decreases n_slots - i,
        {
            let text = match min_offset {
                None => empty_text(),
                Some(m) => {
                    let rel = if i < table.n_written_records {
                        cstr_offset_exec(buf, table, bo8, i)
                    } else {
                        -1
                    };
                    if rel < 0 {
                        empty_text()
                    } else {
                        let decoded = decode_cstr_exec(buf, table, long, rel, m);
                        lossy_string(decoded.as_slice())
                    }
                },
            };
            out.push(text);
            i = i + 1;
        }
        Ok(out)
    }
}

} // verus!
