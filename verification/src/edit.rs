//! Writing field values, adding and removing records, and keeping table checksums current.
use vstd::prelude::*;
use vstd::utf8::encode_utf8;

use crate::codec::{
    bits_written, lemma_bits_written_unique, max_value_for_depth, nul_padded, spec_max_value_for_depth,
    write_bits_at,
};
use crate::crc::{compute_crc_db11, spec_crc_db11};
use crate::error::{Result, SquadError};
use crate::fields::{lemma_record_in_buffer, record_start};
use crate::model::{FieldDescriptor, FieldType, FieldValue, TableInfo};
use crate::parse::{buf_len_ok, u32le};
use crate::squad::{last_table_index, table_wf, SquadFile};
use crate::text::to_owned_string;

verus! {

/// The four little-endian bytes of `v`.
pub open spec fn le4(v: u32) -> Seq<u8> {
    seq![(v % 256) as u8, ((v / 256) % 256) as u8, ((v / 65536) % 256) as u8, (v / 16777216) as u8]
}

/// `b` with the bytes from `p` on replaced by `s`.
pub open spec fn splice(b: Seq<u8>, p: int, s: Seq<u8>) -> Seq<u8> {
    b.subrange(0, p) + s + b.subrange(p + s.len(), b.len() as int)
}

/// Reading back the little-endian bytes of a value gives the value.
pub proof fn lemma_le4_roundtrip(b: Seq<u8>, p: int, v: u32)
    requires
        0 <= p,
        p + 4 <= b.len(),
    ensures
        u32le(splice(b, p, le4(v)), p) == v,
        splice(b, p, le4(v)).len() == b.len(),
{
    let s = splice(b, p, le4(v));
    assert(s[p] == le4(v)[0] && s[p + 1] == le4(v)[1] && s[p + 2] == le4(v)[2] && s[p + 3] == le4(v)[3]);
    assert((v % 256) as int + 256 * ((v / 256) % 256) as int + 65536 * ((v / 65536) % 256) as int
        + 16777216 * (v / 16777216) as int == v as int) by (nonlinear_arith);
}

/// `old` with the table checksum of `t` rewritten for the current bytes.
pub open spec fn crc_refreshed(old: Seq<u8>, t: TableInfo) -> Seq<u8> {
    match t.record_crc_pos {
        Some(p) => splice(old, p as int, le4(spec_crc_db11(old.subrange(t.field_desc_start as int, p as int)) as u32)),
        None => old,
    }
}

/// The checksum stored for `t` matches the bytes it covers.
pub open spec fn table_crc_valid(b: Seq<u8>, t: TableInfo) -> bool {
    match t.record_crc_pos {
        Some(p) => u32le(b, p as int) == spec_crc_db11(b.subrange(t.field_desc_start as int, p as int)) as u32,
        None => true,
    }
}

/// Field `f` of table `t` can be written without overflow or an out-of-record access.
pub open spec fn field_writable(t: TableInfo, f: FieldDescriptor) -> bool {
    &&& f.field_type == FieldType::Integer ==> f.depth <= 32 && f.bit_offset + f.depth <= u32::MAX + 1
        && f.bit_offset + f.depth <= 8 * t.rec_bytes
    &&& f.field_type == FieldType::String ==> f.bit_offset as int / 8 + f.depth as int / 8
        <= t.rec_bytes
}

/// Field `name` of table `ts` of `tables` can be written, where both exist.
pub open spec fn can_write_in(tables: Seq<TableInfo>, ts: Seq<char>, name: Seq<char>) -> bool {
    match table_index_in(tables, ts) {
        Some(ti) => {
            let t = tables[ti];
            match t.spec_field_index(name) {
                Some(fi) => field_writable(t, t.fields@[fi]),
                None => true,
            }
        },
        None => true,
    }
}

/// Writing `value` into field `name` of table `ts` of `tables` stays inside the record and
/// free of overflow: where the field would accept the value, the field can be written. A
/// value the field refuses is refused before any byte is touched, so it needs nothing.
pub open spec fn can_write_value_in(tables: Seq<TableInfo>, ts: Seq<char>, name: Seq<char>, value: FieldValue) -> bool {
    match table_index_in(tables, ts) {
        Some(ti) => {
            let t = tables[ti];
            match t.spec_field_index(name) {
                Some(fi) => write_accepted(t.fields@[fi], value) ==> field_writable(t, t.fields@[fi]),
                None => true,
            }
        },
        None => true,
    }
}

/// Every field of `t` can be written.
pub open spec fn table_writable(t: TableInfo) -> bool {
    forall|i: int| 0 <= i < t.fields@.len() ==> #[trigger] field_writable(t, t.fields@[i])
}

/// The buffer `new` is `old` with field `f` of record `idx` set to `value`, as
/// `set_field_raw` writes it.
pub open spec fn field_written(old: Seq<u8>, new: Seq<u8>, t: TableInfo, f: FieldDescriptor, idx: int, value: FieldValue) -> bool {
    let rs = record_start(t, idx);
    let bo8 = f.bit_offset as int / 8;
    match (f.field_type, value) {
        (FieldType::Integer, FieldValue::Int(v)) => {
            &&& new.len() == old.len()
            &&& new.subrange(0, rs) == old.subrange(0, rs)
            &&& bits_written(old.skip(rs), new.skip(rs), f.bit_offset as int, f.depth as int, (v - f.rangelow) as u32)
        },
        (FieldType::Float, FieldValue::Float(bits)) => new == splice(old, rs + bo8, le4(bits)),
        (FieldType::String, FieldValue::Str(s)) => new == splice(
            old,
            rs + bo8,
            nul_padded(encode_utf8(s@), f.depth as int / 8),
        ),
        _ => false,
    }
}

/// Why `set_field_raw` refuses `value` for field `f`, if it does: a value outside the
/// field's range, a string longer than the field, or a value of another type.
pub open spec fn write_refused(f: FieldDescriptor, value: FieldValue, e: SquadError, name: Seq<char>) -> bool {
    match (f.field_type, value) {
        (FieldType::Integer, FieldValue::Int(v)) => {
            &&& !(0 <= v - f.rangelow <= spec_max_value_for_depth(f.depth))
            &&& e matches SquadError::ValueOutOfRange { field, value, depth, rangelow } && field@
                == name && value == v && depth == f.depth && rangelow == f.rangelow
        },
        (FieldType::Float, FieldValue::Float(_)) => false,
        (FieldType::String, FieldValue::Str(s)) => {
            &&& encode_utf8(s@).len() > f.depth as int / 8
            &&& e matches SquadError::StringTooLong { field, len, max } && field@ == name && len
                == encode_utf8(s@).len() && max == f.depth as int / 8
        },
        _ => e matches SquadError::WrongFieldType { field, actual, expected } && field@ == name
            && actual == f.field_type && expected == f.field_type,
    }
}

/// `set_field_raw` accepts `value` for field `f`.
pub open spec fn write_accepted(f: FieldDescriptor, value: FieldValue) -> bool {
    match (f.field_type, value) {
        (FieldType::Integer, FieldValue::Int(v)) => 0 <= v - f.rangelow <= spec_max_value_for_depth(f.depth),
        (FieldType::Float, FieldValue::Float(_)) => true,
        (FieldType::String, FieldValue::Str(s)) => encode_utf8(s@).len() <= f.depth as int / 8,
        _ => false,
    }
}

/// The error that a refused write of `value` into field `name` of record `idx` of table `ts`
/// gives: an unknown table or field, a record past the table's slots, or the refusal of the
/// value itself.
pub open spec fn write_error(tables: Seq<TableInfo>, ts: Seq<char>, idx: int, name: Seq<char>, value: FieldValue, e: SquadError) -> bool {
    match table_index_in(tables, ts) {
        None => e matches SquadError::UnknownTable(s) && s@ == ts,
        Some(ti) => {
            let t = tables[ti];
            match t.spec_field_index(name) {
                None => e matches SquadError::UnknownField { table, field } && table@ == ts && field@ == name,
                Some(fi) => if idx >= t.n_records_slot {
                    e matches SquadError::RecordOutOfRange { table, index, count } && table@ == ts
                        && index == idx && count == t.n_records_slot
                } else {
                    write_refused(t.fields@[fi], value, e, name)
                },
            }
        },
    }
}

/// The table that `ts` names among `tables`.
pub open spec fn table_index_in(tables: Seq<TableInfo>, ts: Seq<char>) -> Option<int> {
    last_table_index(tables, ts, tables.len() as int)
}

/// Writing `value` into field `name` of record `idx` of table `ts`: whether the write is
/// accepted, and the bytes after it (unchanged when it is not).
pub open spec fn spec_write(tables: Seq<TableInfo>, buf: Seq<u8>, ts: Seq<char>, idx: int, name: Seq<char>, value: FieldValue) -> (bool, Seq<u8>) {
    match table_index_in(tables, ts) {
        Some(ti) => {
            let t = tables[ti];
            match t.spec_field_index(name) {
                Some(fi) => if 0 <= idx < t.n_records_slot && write_accepted(t.fields@[fi], value) {
                    (true, choose|n: Seq<u8>| field_written(buf, n, t, t.fields@[fi], idx, value))
                } else {
                    (false, buf)
                },
                None => (false, buf),
            }
        },
        None => (false, buf),
    }
}

/// A write has one result.
pub proof fn lemma_field_written_unique(old: Seq<u8>, n1: Seq<u8>, n2: Seq<u8>, t: TableInfo, f: FieldDescriptor, idx: int, value: FieldValue)
    requires
        field_written(old, n1, t, f, idx, value),
        field_written(old, n2, t, f, idx, value),
        0 <= record_start(t, idx) <= old.len(),
    ensures
        n1 == n2,
{
    if f.field_type == FieldType::Integer {
        let rs = record_start(t, idx);
        match value {
            FieldValue::Int(v) => {
                lemma_bits_written_unique(old.skip(rs), n1.skip(rs), n2.skip(rs), f.bit_offset as int, f.depth as int, (v - f.rangelow) as u32);
                assert(n1 =~= n1.subrange(0, rs) + n1.skip(rs));
                assert(n2 =~= n2.subrange(0, rs) + n2.skip(rs));
            },
            _ => {},
        }
    }
}

/// The bytes after the first `k` updates of a batch, and how many of them were accepted.
pub open spec fn batch_fold(tables: Seq<TableInfo>, buf: Seq<u8>, ts: Seq<char>, updates: Seq<(usize, String, FieldValue)>, k: int) -> (Seq<u8>, int)
    decreases k,
{
    if k <= 0 {
        (buf, 0)
    } else {
        let prev = batch_fold(tables, buf, ts, updates, k - 1);
        let u = updates[k - 1];
        let w = spec_write(tables, prev.0, ts, u.0 as int, u.1@, u.2);
        (w.1, if w.0 { prev.1 + 1 } else { prev.1 })
    }
}

/// An accepted write names an existing table.
pub proof fn lemma_accepted_has_table(tables: Seq<TableInfo>, buf: Seq<u8>, ts: Seq<char>, idx: int, name: Seq<char>, value: FieldValue)
    requires
        spec_write(tables, buf, ts, idx, name, value).0,
    ensures
        table_index_in(tables, ts) is Some,
{
}

proof fn lemma_batch_count(tables: Seq<TableInfo>, buf: Seq<u8>, ts: Seq<char>, updates: Seq<(usize, String, FieldValue)>, k: int)
    requires
        0 <= k,
    ensures
        0 <= batch_fold(tables, buf, ts, updates, k).1 <= k,
        batch_fold(tables, buf, ts, updates, k).1 > 0 ==> table_index_in(tables, ts) is Some,
    decreases k,
{
    if k > 0 {
        lemma_batch_count(tables, buf, ts, updates, k - 1);
        let prev = batch_fold(tables, buf, ts, updates, k - 1);
        let u = updates[k - 1];
        if spec_write(tables, prev.0, ts, u.0 as int, u.1@, u.2).0 {
            lemma_accepted_has_table(tables, prev.0, ts, u.0 as int, u.1@, u.2);
        }
    }
}

/// Overwrites 4 bytes at `p` with the little-endian bytes of `v`.
pub(crate) fn write_u32le(buf: &mut Vec<u8>, p: usize, v: u32)
    requires
        p + 4 <= old(buf)@.len(),
    ensures
        final(buf)@ == splice(old(buf)@, p as int, le4(v)),
{
    let _n = buf.len();
    buf.set(p, (v % 256) as u8);
    buf.set(p + 1, ((v / 256) % 256) as u8);
    buf.set(p + 2, ((v / 65536) % 256) as u8);
    buf.set(p + 3, (v / 16777216) as u8);
    assert(buf@ =~= splice(old(buf)@, p as int, le4(v)));
}

/// Writes `value` NUL-padded into `len` bytes at `p`.
pub(crate) fn write_padded_at(buf: &mut Vec<u8>, p: usize, len: usize, value: &[u8])
    requires
        p + len <= old(buf)@.len(),
    ensures
        final(buf)@ == splice(old(buf)@, p as int, nul_padded(value@, len as int)),
{
    let ghost target = splice(old(buf)@, p as int, nul_padded(value@, len as int));
    let _n = buf.len();
    let mut i: usize = 0;
    while i < len
        invariant
            p + len <= buf@.len(),
            buf@.len() <= usize::MAX,
            buf@.len() == old(buf)@.len(),
            target == splice(old(buf)@, p as int, nul_padded(value@, len as int)),
            i <= len,
            forall|k: int| 0 <= k < buf@.len() && !(p + i <= k < p + len) ==> #[trigger] buf@[k] == target[k],
        decreases len - i,
    {
        let b: u8 = if i < value.len() {
            value[i]
        } else {
            0
        };
        buf.set(p + i, b);
        i = i + 1;
    }
    assert(buf@ =~= target);
}

impl SquadFile {
    /// Field `name` of table `ts` can be written without overflow.
    pub open spec fn can_write(&self, ts: Seq<char>, name: Seq<char>) -> bool {
        can_write_in(self.tables@, ts, name)
    }

    /// Writing `value` into field `name` of table `ts` stays inside the record.
    pub open spec fn can_write_value(&self, ts: Seq<char>, name: Seq<char>, value: FieldValue) -> bool {
        can_write_value_in(self.tables@, ts, name, value)
    }

    /// Rewrites the checksum of table `table_shortname`, if it has a checksum slot, for the
    /// table's current bytes.
    pub fn recompute_table_records_crc(&mut self, table_shortname: &str)
        requires
            old(self).wf(),
        ensures
            final(self).wf(),
            final(self).tables == old(self).tables,
            final(self).sig_pos == old(self).sig_pos,
            final(self).dir_start == old(self).dir_start,
            final(self).base == old(self).base,
            final(self).buf@ == match old(self).spec_table_index(table_shortname@) {
                Some(ti) => crc_refreshed(old(self).buf@, old(self).tables@[ti]),
                None => old(self).buf@,
            },
    {
        let ti = match self.table_position(table_shortname) {
            Some(i) => i,
            None => return,
        };
        self.refresh_table_crc(ti);
    }

    /// Rewrites the checksum of the table at position `ti`.
    pub(crate) fn refresh_table_crc(&mut self, ti: usize)
        requires
            old(self).wf(),
            ti < old(self).tables@.len(),
        ensures
            final(self).wf(),
            final(self).tables == old(self).tables,
            final(self).sig_pos == old(self).sig_pos,
            final(self).dir_start == old(self).dir_start,
            final(self).base == old(self).base,
            final(self).buf@ == crc_refreshed(old(self).buf@, old(self).tables@[ti as int]),
    {
        assert(table_wf(self.tables@[ti as int], self.buf@.len() as int));
        let crc_pos = match self.tables[ti].record_crc_pos {
            Some(p) => p,
            None => return,
        };
        let fds = self.tables[ti].field_desc_start;
        let checksum = compute_crc_db11(&self.buf.as_slice()[fds..crc_pos]);
        write_u32le(&mut self.buf, crc_pos, checksum as u32);
    }

    /// Writes field `field_name` of record `record_index` without refreshing the table
    /// checksum.
    pub fn set_field_raw(&mut self, table_shortname: &str, record_index: usize, field_name: &str, value: FieldValue) -> (r: Result<()>)
        requires
            old(self).wf(),
            old(self).can_write_value(table_shortname@, field_name@, value),
        ensures
            final(self).wf(),
            final(self).tables == old(self).tables,
            final(self).sig_pos == old(self).sig_pos,
            final(self).dir_start == old(self).dir_start,
            final(self).base == old(self).base,
            r is Err ==> final(self).buf@ == old(self).buf@,
            r matches Err(e) ==> write_error(old(self).tables@, table_shortname@, record_index as int, field_name@, value, e),
            r is Ok == spec_write(old(self).tables@, old(self).buf@, table_shortname@, record_index as int, field_name@, value).0,
            final(self).buf@ == spec_write(old(self).tables@, old(self).buf@, table_shortname@, record_index as int, field_name@, value).1,
            match old(self).spec_table_index(table_shortname@) {
                None => r matches Err(SquadError::UnknownTable(s)) && s@ == table_shortname@,
                Some(ti) => {
                    let t = old(self).tables@[ti];
                    match t.spec_field_index(field_name@) {
                        None => r matches Err(SquadError::UnknownField { table, field }) && table@
                            == table_shortname@ && field@ == field_name@,
                        Some(fi) => if record_index >= t.n_records_slot {
                            r matches Err(SquadError::RecordOutOfRange { table, index, count })
                                && table@ == table_shortname@ && index == record_index && count
                                == t.n_records_slot
                        } else if write_accepted(t.fields@[fi], value) {
                            r is Ok && field_written(
                                old(self).buf@,
                                final(self).buf@,
                                t,
                                t.fields@[fi],
                                record_index as int,
                                value,
                            )
                        } else {
                            r matches Err(e) && write_refused(t.fields@[fi], value, e, field_name@)
                        },
                    }
                },
            },
    {
        let ti = match self.table_position(table_shortname) {
            Some(i) => i,
            None => return Err(SquadError::UnknownTable(to_owned_string(table_shortname))),
        };
        let (field_type, bit_offset, depth, rangelow, rec_bytes, n_slots) = {
            let table = &self.tables[ti];
            let field = match table.field(field_name) {
                Some(f) => f,
                None => {
                    return Err(
                        SquadError::UnknownField {
                            table: to_owned_string(table_shortname),
                            field: to_owned_string(field_name),
                        },
                    )
                },
            };
            proof {
                crate::model::lemma_first_field_bounds(table.fields@, field_name@, 0);
            }
            (field.field_type, field.bit_offset, field.depth, field.rangelow, table.rec_bytes, table.n_records_slot)
        };
        if record_index >= n_slots {
            return Err(
                SquadError::RecordOutOfRange {
                    table: to_owned_string(table_shortname),
                    index: record_index,
                    count: n_slots,
                },
            );
        }
        proof {
            assert(table_wf(self.tables@[ti as int], self.buf@.len() as int));
            lemma_record_in_buffer(self.tables@[ti as int], self.buf@.len() as int, record_index as int);
        }
        let record_start = self.tables[ti].record_offset(record_index);
        let ghost old_buf = self.buf@;
        let ghost t = self.tables@[ti as int];
        let ghost fi = t.spec_field_index(field_name@).unwrap();
        let ghost gv = value;
        match (field_type, value) {
            (FieldType::Integer, FieldValue::Int(v)) => {
                let max_val = max_value_for_depth(depth) as i64;
                let raw = match v.checked_sub(rangelow) {
                    Some(x) => x,
                    None => -1,
                };
                if raw < 0 || raw > max_val {
                    return Err(
                        SquadError::ValueOutOfRange {
                            field: to_owned_string(field_name),
                            value: v,
                            depth,
                            rangelow,
                        },
                    );
                }
                write_bits_at(self.buf.as_mut_slice(), record_start, bit_offset, depth, raw as u32);
            },
            (FieldType::Float, FieldValue::Float(bits)) => {
                let byte_off = (bit_offset / 8) as usize;
                write_u32le(&mut self.buf, record_start + byte_off, bits);
            },
            (FieldType::String, FieldValue::Str(s)) => {
                let byte_off = (bit_offset / 8) as usize;
                let len = (depth / 8) as usize;
                let bytes = s.as_str().as_bytes();
                if bytes.len() > len {
                    return Err(
                        SquadError::StringTooLong {
                            field: to_owned_string(field_name),
                            len: bytes.len(),
                            max: len,
                        },
                    );
                }
                write_padded_at(&mut self.buf, record_start + byte_off, len, bytes);
                proof {
                    assert(bytes@ == encode_utf8(s@));
                }
            },
            (expected, _) => {
                return Err(
                    SquadError::WrongFieldType {
                        field: to_owned_string(field_name),
                        actual: expected,
                        expected,
                    },
                );
            },
        }
        proof {
            assert(field_written(old_buf, self.buf@, t, t.fields@[fi], record_index as int, gv));
            assert(0 <= crate::fields::record_start(t, record_index as int) <= old_buf.len());
            let n0 = choose|n: Seq<u8>| field_written(old_buf, n, t, t.fields@[fi], record_index as int, gv);
            lemma_field_written_unique(old_buf, n0, self.buf@, t, t.fields@[fi], record_index as int, gv);
        }
        Ok(())
    }
}

impl SquadFile {
    /// Writes field `field_name` of record `record_index`, then refreshes the table's checksum.
    /// A refused write changes nothing.
    pub fn set_field(&mut self, table_shortname: &str, record_index: usize, field_name: &str, value: FieldValue) -> (r: Result<()>)
        requires
            old(self).wf(),
            old(self).can_write_value(table_shortname@, field_name@, value),
        ensures
            final(self).wf(),
            final(self).tables == old(self).tables,
            final(self).sig_pos == old(self).sig_pos,
            final(self).dir_start == old(self).dir_start,
            final(self).base == old(self).base,
            ({
                let w = spec_write(old(self).tables@, old(self).buf@, table_shortname@, record_index as int, field_name@, value);
                &&& r is Ok == w.0
                &&& r is Ok ==> final(self).buf@ == crc_refreshed(
                    w.1,
                    old(self).tables@[old(self).spec_table_index(table_shortname@).unwrap()],
                )
                &&& r is Err ==> final(self).buf@ == old(self).buf@
            }),
            r matches Err(e) ==> write_error(old(self).tables@, table_shortname@, record_index as int, field_name@, value, e),
            match old(self).spec_table_index(table_shortname@) {
                None => r matches Err(SquadError::UnknownTable(s)) && s@ == table_shortname@,
                Some(ti) => {
                    let t = old(self).tables@[ti];
                    match t.spec_field_index(field_name@) {
                        None => r matches Err(SquadError::UnknownField { table, field }) && table@
                            == table_shortname@ && field@ == field_name@,
                        Some(fi) => if record_index >= t.n_records_slot {
                            r matches Err(SquadError::RecordOutOfRange { table, index, count })
                                && table@ == table_shortname@ && index == record_index && count
                                == t.n_records_slot
                        } else if write_accepted(t.fields@[fi], value) {
                            r is Ok
                        } else {
                            r matches Err(e) && write_refused(t.fields@[fi], value, e, field_name@)
                        },
                    }
                },
            },
    {
        match self.set_field_raw(table_shortname, record_index, field_name, value) {
            Ok(()) => {},
            Err(e) => return Err(e),
        }
        proof {
            lemma_accepted_has_table(old(self).tables@, old(self).buf@, table_shortname@, record_index as int, field_name@, value);
        }
        self.recompute_table_records_crc(table_shortname);
        Ok(())
    }

    /// Applies a batch of writes to one table, counting the accepted and refused ones, and
    /// refreshes the table's checksum once if any was accepted.
    pub fn set_fields_batch(&mut self, table_shortname: &str, updates: &[(usize, String, FieldValue)]) -> (r: (usize, usize))
        requires
            old(self).wf(),
            forall|k: int| 0 <= k < updates@.len() ==> old(self).can_write_value(table_shortname@, updates@[k].1@, #[trigger] updates@[k].2),
        ensures
            final(self).wf(),
            final(self).tables == old(self).tables,
            final(self).sig_pos == old(self).sig_pos,
            final(self).dir_start == old(self).dir_start,
            final(self).base == old(self).base,
            ({
                let f = batch_fold(old(self).tables@, old(self).buf@, table_shortname@, updates@, updates@.len() as int);
                &&& r.0 == f.1
                &&& r.0 + r.1 == updates@.len()
                &&& final(self).buf@ == if f.1 > 0 {
                    crc_refreshed(f.0, old(self).tables@[old(self).spec_table_index(table_shortname@).unwrap()])
                } else {
                    f.0
                }
            }),
    {
        let ghost tables = self.tables@;
        let ghost buf0 = self.buf@;
        let mut applied: usize = 0;
        let mut failed: usize = 0;
        let mut i: usize = 0;
        while i < updates.len()
            invariant
                self.wf(),
                self.tables@ == tables,
                self.tables == old(self).tables,
                self.sig_pos == old(self).sig_pos,
                self.dir_start == old(self).dir_start,
                self.base == old(self).base,
                tables == old(self).tables@,
                buf0 == old(self).buf@,
                forall|k: int| 0 <= k < updates@.len() ==> self.can_write_value(table_shortname@, updates@[k].1@, #[trigger] updates@[k].2),
                i <= updates@.len(),
                applied + failed == i,
                applied == batch_fold(tables, buf0, table_shortname@, updates@, i as int).1,
                self.buf@ == batch_fold(tables, buf0, table_shortname@, updates@, i as int).0,
            decreases updates@.len() - i,
        {
            let u = &updates[i];
            assert(self.can_write_value(table_shortname@, updates@[i as int].1@, updates@[i as int].2));
            proof {
                lemma_batch_count(tables, buf0, table_shortname@, updates@, i as int);
            }
            match self.set_field_raw(table_shortname, u.0, u.1.as_str(), u.2.clone()) {
                Ok(()) => applied = applied + 1,
                Err(_) => failed = failed + 1,
            }
            i = i + 1;
        }
        proof {
            lemma_batch_count(tables, buf0, table_shortname@, updates@, i as int);
        }
        if applied > 0 {
            self.recompute_table_records_crc(table_shortname);
        }
        (applied, failed)
    }
}

/// The two little-endian bytes of `v`.
pub open spec fn le2(v: u16) -> Seq<u8> {
    seq![(v % 256) as u8, (v / 256) as u8]
}

/// `n` zero bytes.
pub open spec fn zeros(n: int) -> Seq<u8> {
    Seq::new(n as nat, |i: int| 0u8)
}

/// The bytes after writing the first `k` values of a new record, and whether all of them
/// were accepted; the bytes stop changing at the first refused value.
pub open spec fn fill_fold(tables: Seq<TableInfo>, buf: Seq<u8>, ts: Seq<char>, idx: int, values: Seq<(&str, FieldValue)>, k: int) -> (Seq<u8>, bool)
    decreases k,
{
    if k <= 0 {
        (buf, true)
    } else {
        let prev = fill_fold(tables, buf, ts, idx, values, k - 1);
        if !prev.1 {
            prev
        } else {
            let w = spec_write(tables, prev.0, ts, idx, values[k - 1].0@, values[k - 1].1);
            if w.0 {
                (w.1, true)
            } else {
                (prev.0, false)
            }
        }
    }
}

/// The position of the value among the first `k` that the filling of a new record stopped
/// at, or -1 when every one of them was accepted.
pub open spec fn refused_at(tables: Seq<TableInfo>, buf: Seq<u8>, ts: Seq<char>, idx: int, values: Seq<(&str, FieldValue)>, k: int) -> int
    decreases k,
{
    if k <= 0 {
        -1
    } else {
        let prev = fill_fold(tables, buf, ts, idx, values, k - 1);
        if !prev.1 {
            refused_at(tables, buf, ts, idx, values, k - 1)
        } else if spec_write(tables, prev.0, ts, idx, values[k - 1].0@, values[k - 1].1).0 {
            -1
        } else {
            k - 1
        }
    }
}

/// `t` with `n` live records.
pub open spec fn with_written(t: TableInfo, n: int) -> TableInfo {
    TableInfo { n_written_records: n as usize, ..t }
}

/// Writes zeros over `n` bytes at `p`.
fn zero_fill(buf: &mut Vec<u8>, p: usize, n: usize)
    requires
        p + n <= old(buf)@.len(),
    ensures
        final(buf)@ == splice(old(buf)@, p as int, zeros(n as int)),
{
    let ghost target = splice(old(buf)@, p as int, zeros(n as int));
    let _len = buf.len();
    let mut i: usize = 0;
    while i < n
        invariant
            p + n <= buf@.len(),
            buf@.len() <= usize::MAX,
            buf@.len() == old(buf)@.len(),
            target == splice(old(buf)@, p as int, zeros(n as int)),
            i <= n,
            forall|k: int| 0 <= k < buf@.len() && !(p + i <= k < p + n) ==> #[trigger] buf@[k] == target[k],
        decreases n - i,
    {
        buf.set(p + i, 0);
        i = i + 1;
    }
    assert(buf@ =~= target);
}

/// Overwrites 2 bytes at `p` with the little-endian bytes of `v`.
fn write_u16le(buf: &mut Vec<u8>, p: usize, v: u16)
    requires
        p + 2 <= old(buf)@.len(),
    ensures
        final(buf)@ == splice(old(buf)@, p as int, le2(v)),
{
    let _n = buf.len();
    buf.set(p, (v % 256) as u8);
    buf.set(p + 1, (v / 256) as u8);
    assert(buf@ =~= splice(old(buf)@, p as int, le2(v)));
}

impl SquadFile {
    /// Appends a record at the first free slot of a table: the slot is zeroed, the given
    /// fields are written, the table's record count is raised by one in the header and in
    /// `tables`, and the checksum is refreshed. Tables with a trailing index block and full
    /// tables are refused. When a value is refused, the record count and checksum are left
    /// as they were.
    pub fn add_record(&mut self, table_shortname: &str, values: &[(&str, FieldValue)]) -> (r: Result<usize>)
        requires
            old(self).wf(),
            forall|k: int| 0 <= k < values@.len() ==> old(self).can_write_value(table_shortname@, values@[k].0@, #[trigger] values@[k].1),
        ensures
            final(self).wf(),
            final(self).sig_pos == old(self).sig_pos,
            final(self).dir_start == old(self).dir_start,
            final(self).base == old(self).base,
            match old(self).spec_table_index(table_shortname@) {
                None => r matches Err(SquadError::UnknownTable(s)) && s@ == table_shortname@
                    && final(self).buf@ == old(self).buf@ && final(self).tables@ == old(self).tables@,
                Some(ti) => {
                    let t = old(self).tables@[ti];
                    let rs = crate::fields::record_start(t, t.n_written_records as int);
                    let filled = fill_fold(
                        old(self).tables@,
                        splice(old(self).buf@, rs, zeros(t.rec_bytes as int)),
                        table_shortname@,
                        t.n_written_records as int,
                        values@,
                        values@.len() as int,
                    );
                    if t.has_index_block {
                        r matches Err(SquadError::TableIsIndexed(s)) && s@ == table_shortname@
                            && final(self).buf@ == old(self).buf@ && final(self).tables@ == old(self).tables@
                    } else if t.n_written_records >= t.n_records_slot {
                        r matches Err(SquadError::TableFull { table, count }) && table@
                            == table_shortname@ && count == t.n_records_slot
                            && final(self).buf@ == old(self).buf@ && final(self).tables@ == old(self).tables@
                    } else if !filled.1 {
                        let j = refused_at(
                            old(self).tables@,
                            splice(old(self).buf@, rs, zeros(t.rec_bytes as int)),
                            table_shortname@,
                            t.n_written_records as int,
                            values@,
                            values@.len() as int,
                        );
                        &&& 0 <= j < values@.len()
                        &&& r matches Err(e) && write_error(
                            old(self).tables@,
                            table_shortname@,
                            t.n_written_records as int,
                            values@[j].0@,
                            values@[j].1,
                            e,
                        )
                        &&& final(self).buf@ == filled.0 && final(self).tables@ == old(self).tables@
                    } else {
                        let nt = with_written(t, t.n_written_records + 1);
                        &&& r == Ok::<usize, SquadError>(t.n_written_records)
                        &&& final(self).tables@ == old(self).tables@.update(ti, nt)
                        &&& final(self).buf@ == crc_refreshed(
                            splice(filled.0, t.start + 22, le2((t.n_written_records + 1) as u16)),
                            nt,
                        )
                    }
                },
            },
    {
        let ti = match self.table_position(table_shortname) {
            Some(i) => i,
            None => return Err(SquadError::UnknownTable(to_owned_string(table_shortname))),
        };
        assert(table_wf(self.tables@[ti as int], self.buf@.len() as int));
        if self.tables[ti].has_index_block {
            return Err(SquadError::TableIsIndexed(to_owned_string(table_shortname)));
        }
        if self.tables[ti].n_written_records >= self.tables[ti].n_records_slot {
            return Err(
                SquadError::TableFull {
                    table: to_owned_string(table_shortname),
                    count: self.tables[ti].n_records_slot,
                },
            );
        }
        let new_index = self.tables[ti].n_written_records;
        proof {
            lemma_record_in_buffer(self.tables@[ti as int], self.buf@.len() as int, new_index as int);
        }
        let record_start = self.tables[ti].record_offset(new_index);
        let rec_bytes = self.tables[ti].rec_bytes;
        zero_fill(&mut self.buf, record_start, rec_bytes);
        let ghost tables = self.tables@;
        let ghost buf0 = self.buf@;
        assert(buf0 == splice(
            old(self).buf@,
            crate::fields::record_start(tables[ti as int], new_index as int),
            zeros(rec_bytes as int),
        ));
        let mut i: usize = 0;
        while i < values.len()
            invariant
                self.wf(),
                self.tables@ == tables,
                tables == old(self).tables@,
                self.sig_pos == old(self).sig_pos,
                self.dir_start == old(self).dir_start,
                self.base == old(self).base,
                forall|k: int| 0 <= k < values@.len() ==> self.can_write_value(table_shortname@, values@[k].0@, #[trigger] values@[k].1),
                i <= values@.len(),
                fill_fold(tables, buf0, table_shortname@, new_index as int, values@, i as int) == (self.buf@, true),
                old(self).spec_table_index(table_shortname@) == Some(ti as int),
                ti < tables.len(),
                !tables[ti as int].has_index_block,
                tables[ti as int].n_written_records == new_index,
                new_index < tables[ti as int].n_records_slot,
                rec_bytes == tables[ti as int].rec_bytes,
                buf0 == splice(
                    old(self).buf@,
                    crate::fields::record_start(tables[ti as int], new_index as int),
                    zeros(rec_bytes as int),
                ),
            decreases values@.len() - i,
        {
            let v = &values[i];
            assert(self.can_write_value(table_shortname@, values@[i as int].0@, values@[i as int].1));
            match self.set_field_raw(table_shortname, new_index, v.0, v.1.clone()) {
                Ok(()) => {},
                Err(e) => {
                    proof {
                        assert(!spec_write(tables, self.buf@, table_shortname@, new_index as int, values@[i as int].0@, values@[i as int].1).0);
                        assert(fill_fold(tables, buf0, table_shortname@, new_index as int, values@, i + 1) == (self.buf@, false));
                        lemma_fill_fold_stays_failed(tables, buf0, table_shortname@, new_index as int, values@, i + 1, values@.len() as int);
                        assert(refused_at(tables, buf0, table_shortname@, new_index as int, values@, i + 1) == i);
                        lemma_refused_at_stays(tables, buf0, table_shortname@, new_index as int, values@, i + 1, values@.len() as int);
                        let t = old(self).tables@[ti as int];
                        assert(old(self).spec_table_index(table_shortname@) == Some(ti as int));
                        assert(!t.has_index_block);
                        assert(!(t.n_written_records >= t.n_records_slot));
                        assert(fill_fold(old(self).tables@, splice(old(self).buf@, crate::fields::record_start(t, t.n_written_records as int), zeros(t.rec_bytes as int)), table_shortname@, t.n_written_records as int, values@, values@.len() as int).0 == self.buf@);
                    }
                    return Err(e);
                },
            }
            i = i + 1;
        }
        let new_count = new_index + 1;
        assert(table_wf(self.tables@[ti as int], self.buf@.len() as int));
        let ghost old_t = self.tables@[ti as int];
        let header_pos = self.tables[ti].start + 22;
        self.tables[ti].n_written_records = new_count;
        write_u16le(&mut self.buf, header_pos, new_count as u16);
        proof {
            assert(self.tables@[ti as int] == with_written(old_t, new_count as int));
            assert(table_wf(self.tables@[ti as int], self.buf@.len() as int));
            assert(self.tables@ =~= tables.update(ti as int, with_written(tables[ti as int], new_count as int)));
        }
        self.refresh_table_crc(ti);
        Ok(new_index)
    }

    /// Removes the last live record of a table: the slot is zeroed, the record count is
    /// lowered by one in the header and in `tables`, and the checksum is refreshed. Tables
    /// with a trailing index block and empty tables are refused.
    pub fn remove_last_record(&mut self, table_shortname: &str) -> (r: Result<()>)
        requires
            old(self).wf(),
        ensures
            final(self).wf(),
            final(self).sig_pos == old(self).sig_pos,
            final(self).dir_start == old(self).dir_start,
            final(self).base == old(self).base,
            r is Err ==> final(self).buf@ == old(self).buf@ && final(self).tables@ == old(self).tables@,
            match old(self).spec_table_index(table_shortname@) {
                None => r matches Err(SquadError::UnknownTable(s)) && s@ == table_shortname@,
                Some(ti) => {
                    let t = old(self).tables@[ti];
                    if t.has_index_block {
                        r matches Err(SquadError::TableIsIndexed(s)) && s@ == table_shortname@
                    } else if t.n_written_records == 0 {
                        r matches Err(SquadError::TableEmpty(s)) && s@ == table_shortname@
                    } else {
                        let last = t.n_written_records - 1;
                        let nt = with_written(t, last);
                        &&& r is Ok
                        &&& final(self).tables@ == old(self).tables@.update(ti, nt)
                        &&& final(self).buf@ == crc_refreshed(
                            splice(
                                splice(
                                    old(self).buf@,
                                    crate::fields::record_start(t, last),
                                    zeros(t.rec_bytes as int),
                                ),
                                t.start + 22,
                                le2(last as u16),
                            ),
                            nt,
                        )
                    }
                },
            },
    {
        let ti = match self.table_position(table_shortname) {
            Some(i) => i,
            None => return Err(SquadError::UnknownTable(to_owned_string(table_shortname))),
        };
        assert(table_wf(self.tables@[ti as int], self.buf@.len() as int));
        if self.tables[ti].has_index_block {
            return Err(SquadError::TableIsIndexed(to_owned_string(table_shortname)));
        }
        if self.tables[ti].n_written_records == 0 {
            return Err(SquadError::TableEmpty(to_owned_string(table_shortname)));
        }
        let last_index = self.tables[ti].n_written_records - 1;
        proof {
            lemma_record_in_buffer(self.tables@[ti as int], self.buf@.len() as int, last_index as int);
        }
        let record_start = self.tables[ti].record_offset(last_index);
        let rec_bytes = self.tables[ti].rec_bytes;
        zero_fill(&mut self.buf, record_start, rec_bytes);
        let ghost tables = self.tables@;
        let ghost old_t = self.tables@[ti as int];
        let header_pos = self.tables[ti].start + 22;
        self.tables[ti].n_written_records = last_index;
        write_u16le(&mut self.buf, header_pos, last_index as u16);
        proof {
            assert(self.tables@[ti as int] == with_written(old_t, last_index as int));
            assert(table_wf(self.tables@[ti as int], self.buf@.len() as int));
            assert(self.tables@ =~= tables.update(ti as int, with_written(tables[ti as int], last_index as int)));
        }
        self.refresh_table_crc(ti);
        Ok(())
    }
}

proof fn lemma_fill_fold_stays_failed(tables: Seq<TableInfo>, buf: Seq<u8>, ts: Seq<char>, idx: int, values: Seq<(&str, FieldValue)>, k: int, n: int)
    requires
        0 <= k <= n,
        !fill_fold(tables, buf, ts, idx, values, k).1,
    ensures
        fill_fold(tables, buf, ts, idx, values, n) == fill_fold(tables, buf, ts, idx, values, k),
    decreases n - k,
{
    if k < n {
        lemma_fill_fold_stays_failed(tables, buf, ts, idx, values, k, n - 1);
    }
}

/// Once a value is refused, later values change neither the bytes nor the position found.
proof fn lemma_refused_at_stays(tables: Seq<TableInfo>, buf: Seq<u8>, ts: Seq<char>, idx: int, values: Seq<(&str, FieldValue)>, k: int, n: int)
    requires
        0 <= k <= n,
        !fill_fold(tables, buf, ts, idx, values, k).1,
    ensures
        refused_at(tables, buf, ts, idx, values, n) == refused_at(tables, buf, ts, idx, values, k),
    decreases n - k,
{
    if k < n {
        lemma_refused_at_stays(tables, buf, ts, idx, values, k, n - 1);
        lemma_fill_fold_stays_failed(tables, buf, ts, idx, values, k, n - 1);
    }
}

} // verus!
