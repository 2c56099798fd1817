//! Checks that a caller runs before the operations whose preconditions depend on the file's
//! contents: that every cell of a table can be read without overflow, and that every field of a
//! table can be written.
use vstd::prelude::*;

use crate::codec::read_bits_at;
use crate::codec::max_value_for_depth;
use crate::edit::{field_writable, table_writable, write_accepted};
use crate::editor::readable;
use crate::fields::{int_cell_ok, lemma_record_in_buffer, record_start};
use crate::model::{FieldDescriptor, FieldType, FieldValue, TableInfo};
use crate::squad::{table_wf, SquadFile};
use crate::session::text_writable;
use crate::text::{parse_i64_bytes, to_owned_string, trim};
use crate::tsv::{str_text, str_value, table_importable, table_readable};

verus! {

/// Whether field `f` can be written without overflow or an access outside its record.
fn field_writable_exec(t: &TableInfo, f: &FieldDescriptor) -> (r: bool)
    ensures
        r == field_writable(*t, *f),
{
    let int_ok = match f.field_type {
        FieldType::Integer => f.depth <= 32 && (f.bit_offset as u64) + (f.depth as u64) <= u32::MAX as u64 + 1
            && (f.bit_offset as u128) + (f.depth as u128) <= 8 * (t.rec_bytes as u128),
        _ => true,
    };
    let str_ok = match f.field_type {
        FieldType::String => ((f.bit_offset / 8) as u128) + ((f.depth / 8) as u128) <= t.rec_bytes as u128,
        _ => true,
    };
    int_ok && str_ok
}

/// Whether every field of table `table_shortname` can be written.
pub fn can_import(squad: &SquadFile, table_shortname: &str) -> (r: bool)
    ensures
        r == table_importable(*squad, table_shortname@),
{
    let ti = match squad.table_position(table_shortname) {
        Some(i) => i,
        None => return true,
    };
    let t = &squad.tables[ti];
    let mut j: usize = 0;
    while j < t.fields.len()
        invariant
            squad.spec_table_index(table_shortname@) == Some(ti as int),
            ti < squad.tables@.len(),
            *t == squad.tables@[ti as int],
            j <= t.fields@.len(),
            forall|k: int| 0 <= k < j ==> #[trigger] field_writable(*t, t.fields@[k]),
        decreases t.fields@.len() - j,
    {
        if !field_writable_exec(t, &t.fields[j]) {
            assert(!field_writable(*t, t.fields@[j as int]));
            assert(!table_writable(*t));
            return false;
        }
        j = j + 1;
    }
    true
}

/// Whether the integer or string cell of field `f` of record `idx` of `t` can be read.
fn cell_readable(buf: &[u8], t: &TableInfo, f: &FieldDescriptor, idx: usize) -> (r: bool)
    requires
        table_wf(*t, buf@.len() as int),
        idx < t.n_records_slot,
    ensures
        r == ((f.field_type == FieldType::Integer ==> int_cell_ok(buf@, *t, *f, idx as int))
            && (f.field_type == FieldType::String ==> f.bit_offset as int / 8 + f.depth as int / 8 <= t.rec_bytes)),
{
    proof {
        lemma_record_in_buffer(*t, buf@.len() as int, idx as int);
    }
    match f.field_type {
        FieldType::Integer => {
            if !(f.depth <= 32 && (f.bit_offset as u64) + (f.depth as u64) <= u32::MAX as u64 + 1
                && (f.bit_offset as u128) + (f.depth as u128) <= 8 * (t.rec_bytes as u128)) {
                return false;
            }
            let rs = t.record_offset(idx);
            let raw = read_bits_at(buf, rs, f.bit_offset, f.depth);
            (raw as i128) + (f.rangelow as i128) <= i64::MAX as i128
        },
        FieldType::String => ((f.bit_offset / 8) as u128) + ((f.depth / 8) as u128) <= t.rec_bytes as u128,
        _ => true,
    }
}

/// Whether every field of every live record of table `table_shortname` can be read by name,
/// as the export of a table needs.
pub fn can_export(squad: &SquadFile, table_shortname: &str) -> (r: bool)
    requires
        squad.wf(),
    ensures
        r == table_readable(*squad, table_shortname@),
{
    let ti = match squad.table_position(table_shortname) {
        Some(i) => i,
        None => return true,
    };
    let t = &squad.tables[ti];
    assert(table_wf(*t, squad.buf@.len() as int));
    let mut k: usize = 0;
    while k < t.n_written_records
        invariant
            squad.wf(),
            squad.spec_table_index(table_shortname@) == Some(ti as int),
            ti < squad.tables@.len(),
            *t == squad.tables@[ti as int],
            table_wf(*t, squad.buf@.len() as int),
            k <= t.n_written_records,
            forall|a: int, b: int| 0 <= a < k && 0 <= b < t.fields@.len() ==> #[trigger] squad.can_read(table_shortname@, a, t.fields@[b].name@),
        decreases t.n_written_records - k,
    {
        let mut j: usize = 0;
        while j < t.fields.len()
            invariant
                squad.wf(),
                squad.spec_table_index(table_shortname@) == Some(ti as int),
                ti < squad.tables@.len(),
                *t == squad.tables@[ti as int],
                table_wf(*t, squad.buf@.len() as int),
                k < t.n_written_records,
                j <= t.fields@.len(),
                forall|a: int, b: int| 0 <= a < k && 0 <= b < t.fields@.len() ==> #[trigger] squad.can_read(table_shortname@, a, t.fields@[b].name@),
                forall|b: int| 0 <= b < j ==> #[trigger] squad.can_read(table_shortname@, k as int, t.fields@[b].name@),
            decreases t.fields@.len() - j,
        {
            let f = match t.field(t.fields[j].name.as_str()) {
                Some(f) => f,
                None => {
                    j = j + 1;
                    continue;
                },
            };
            proof {
                crate::model::lemma_first_field_bounds(t.fields@, t.fields@[j as int].name@, 0);
            }
            if !cell_readable(squad.buf.as_slice(), t, f, k) {
                assert(!squad.can_read(table_shortname@, k as int, t.fields@[j as int].name@));
                return false;
            }
            j = j + 1;
        }
        k = k + 1;
    }
    true
}

/// Every field of every record slot of every table can be read.
pub open spec fn every_cell_ok(squad: SquadFile) -> bool {
    forall|x: int, k: int, j: int|
        0 <= x < squad.tables@.len() && 0 <= k < squad.tables@[x].n_records_slot && 0 <= j
            < squad.tables@[x].fields@.len() ==> #[trigger] cell_ok_at(squad, x, k, j)
}

/// Whether every field of every record slot of every table can be read; when so, every field
/// can be read by name, as the editing helpers need.
pub fn can_read_everything(squad: &SquadFile) -> (r: bool)
    requires
        squad.wf(),
    ensures
        r == every_cell_ok(*squad),
        r ==> readable(*squad),
{
    let mut ti: usize = 0;
    while ti < squad.tables.len()
        invariant
            squad.wf(),
            ti <= squad.tables@.len(),
            forall|x: int, k: int, j: int|
                0 <= x < ti && 0 <= k < squad.tables@[x].n_records_slot && 0 <= j < squad.tables@[x].fields@.len() ==> #[trigger] cell_ok_at(
                    *squad,
                    x,
                    k,
                    j,
                ),
        decreases squad.tables@.len() - ti,
    {
        let t = &squad.tables[ti];
        assert(table_wf(*t, squad.buf@.len() as int));
        let mut k: usize = 0;
        while k < t.n_records_slot
            invariant
                squad.wf(),
                ti < squad.tables@.len(),
                *t == squad.tables@[ti as int],
                table_wf(*t, squad.buf@.len() as int),
                k <= t.n_records_slot,
                forall|x: int, k2: int, j: int|
                    0 <= x < ti && 0 <= k2 < squad.tables@[x].n_records_slot && 0 <= j < squad.tables@[x].fields@.len() ==> #[trigger] cell_ok_at(
                        *squad,
                        x,
                        k2,
                        j,
                    ),
                forall|k2: int, j: int| 0 <= k2 < k && 0 <= j < t.fields@.len() ==> #[trigger] cell_ok_at(*squad, ti as int, k2, j),
            decreases t.n_records_slot - k,
        {
            let mut j: usize = 0;
            while j < t.fields.len()
                invariant
                    squad.wf(),
                    ti < squad.tables@.len(),
                    *t == squad.tables@[ti as int],
                    table_wf(*t, squad.buf@.len() as int),
                    k < t.n_records_slot,
                    j <= t.fields@.len(),
                    forall|x: int, k2: int, j2: int|
                        0 <= x < ti && 0 <= k2 < squad.tables@[x].n_records_slot && 0 <= j2 < squad.tables@[x].fields@.len() ==> #[trigger] cell_ok_at(
                            *squad,
                            x,
                            k2,
                            j2,
                        ),
                    forall|k2: int, j2: int| 0 <= k2 < k && 0 <= j2 < t.fields@.len() ==> #[trigger] cell_ok_at(*squad, ti as int, k2, j2),
                    forall|j2: int| 0 <= j2 < j ==> #[trigger] cell_ok_at(*squad, ti as int, k as int, j2),
                decreases t.fields@.len() - j,
            {
                if !cell_readable(squad.buf.as_slice(), t, &t.fields[j], k) {
                    assert(!cell_ok_at(*squad, ti as int, k as int, j as int));
                    return false;
                }
                j = j + 1;
            }
            k = k + 1;
        }
        ti = ti + 1;
    }
    proof {
        assert forall|ts: Seq<char>, idx: int, name: Seq<char>| #[trigger] squad.can_read(ts, idx, name) by {
            match squad.spec_table_index(ts) {
                Some(x) => {
                    crate::squad::lemma_last_table_bounds(squad.tables@, ts, squad.tables@.len() as int);
                    let t = squad.tables@[x];
                    match t.spec_field_index(name) {
                        Some(j) => {
                            crate::model::lemma_first_field_bounds(t.fields@, name, 0);
                            if 0 <= idx < t.n_records_slot {
                                assert(cell_ok_at(*squad, x, idx, j));
                            }
                        },
                        None => {},
                    }
                },
                None => {},
            }
        }
    }
    true
}

/// Field `j` of record `k` of table `x` can be read.
pub open spec fn cell_ok_at(squad: SquadFile, x: int, k: int, j: int) -> bool {
    let t = squad.tables@[x];
    let f = t.fields@[j];
    &&& f.field_type == FieldType::Integer ==> int_cell_ok(squad.buf@, t, f, k)
    &&& f.field_type == FieldType::String ==> f.bit_offset as int / 8 + f.depth as int / 8 <= t.rec_bytes
}

/// Whether field `name` of record `idx` of table `ts` can be read without overflow.
pub fn cell_can_be_read(squad: &SquadFile, ts: &str, idx: usize, name: &str) -> (r: bool)
    requires
        squad.wf(),
    ensures
        r == squad.can_read(ts@, idx as int, name@),
{
    let ti = match squad.table_position(ts) {
        Some(i) => i,
        None => return true,
    };
    let t = &squad.tables[ti];
    let f = match t.field(name) {
        Some(f) => f,
        None => return true,
    };
    if idx >= t.n_records_slot {
        return true;
    }
    assert(table_wf(*t, squad.buf@.len() as int));
    cell_readable(squad.buf.as_slice(), t, f, idx)
}

/// Whether field `name` of table `ts` can be written.
pub fn field_can_be_written(squad: &SquadFile, ts: &str, name: &str) -> (r: bool)
    ensures
        r == squad.can_write(ts@, name@),
{
    let ti = match squad.table_position(ts) {
        Some(i) => i,
        None => return true,
    };
    let t = &squad.tables[ti];
    match t.field(name) {
        Some(f) => field_writable_exec(t, f),
        None => true,
    }
}

/// Whether field `f` accepts `value`: an integer inside the field's range, any float, or a
/// string whose bytes fit the field.
fn write_accepted_exec(f: &FieldDescriptor, value: &FieldValue) -> (r: bool)
    ensures
        r == write_accepted(*f, *value),
{
    match (f.field_type, value) {
        (FieldType::Integer, FieldValue::Int(v)) => {
            let max = max_value_for_depth(f.depth);
            let r = match v.checked_sub(f.rangelow) {
                Some(raw) => 0 <= raw && raw <= max as i64,
                None => false,
            };
            assert(r == (0 <= *v - f.rangelow <= max));
            r
        },
        (FieldType::Float, FieldValue::Float(_)) => true,
        (FieldType::String, FieldValue::Str(s)) => {
            let bytes = s.as_str().as_bytes();
            proof {
                assert(bytes@ == vstd::utf8::encode_utf8(s@));
            }
            bytes.len() <= (f.depth / 8) as usize
        },
        _ => false,
    }
}

/// Whether writing `value` into field `name` of table `ts` stays inside the record: the field
/// can be written, or it refuses the value anyway.
pub fn value_can_be_written(squad: &SquadFile, ts: &str, name: &str, value: &FieldValue) -> (r: bool)
    ensures
        r == squad.can_write_value(ts@, name@, *value),
{
    let ti = match squad.table_position(ts) {
        Some(i) => i,
        None => return true,
    };
    let t = &squad.tables[ti];
    match t.field(name) {
        Some(f) => !write_accepted_exec(f, value) || field_writable_exec(t, f),
        None => true,
    }
}

/// Whether the text typed into field `name` of table `ts` can be committed with no write
/// outside the record.
pub fn text_can_be_written(squad: &SquadFile, ts: &str, name: &str, text: &str) -> (r: bool)
    ensures
        r == text_writable(*squad, ts@, name@, text@),
{
    let ft = match squad.table(ts) {
        Some(t) => match t.field(name) {
            Some(f) => f.field_type,
            None => return true,
        },
        None => return true,
    };
    match ft {
        FieldType::Integer => {
            let trimmed_text = trim(text);
            match parse_i64_bytes(trimmed_text.as_bytes()) {
                Some(v) => value_can_be_written(squad, ts, name, &FieldValue::Int(v)),
                None => true,
            }
        },
        FieldType::String => {
            let value = FieldValue::Str(to_owned_string(text));
            proof {
                assert(str_text(value) == Some(text@));
                assert(str_text(str_value(text@)) == Some(text@));
            }
            value_can_be_written(squad, ts, name, &value)
        },
        _ => true,
    }
}

} // verus!
