//! Properties that hold across the library's operations.
use vstd::arithmetic::power2::{lemma2_to64, lemma_pow2_strictly_increases};
use vstd::prelude::*;
use vstd::utf8::{decode_utf8, encode_utf8, encode_utf8_decode_utf8, encode_utf8_valid_utf8, valid_utf8};

use crate::checks::{spec_computed_file_crc, spec_file_crc_layout, spec_save_name_slot, spec_stored_file_crc, run_end};
use crate::codec::{bit_at, bits_value, lemma_with_bits, lemma_write_then_read, with_bits, nul_padded, nul_pos, until_nul, spec_max_value_for_depth};
use crate::crc::{spec_crc32, spec_crc_db11};
use crate::edit::{can_write_in, can_write_value_in, crc_refreshed, field_writable, field_written, fill_fold, le2, spec_write, table_index_in, le4, lemma_le4_roundtrip, splice, table_crc_valid, with_written, write_accepted, zeros};
use crate::fields::{field_value_is, lemma_record_in_buffer, record_start};
use crate::model::{FieldDescriptor, FieldType, FieldValue, TableInfo};
use crate::parse::{needed_bytes, u16le, u32le};
use crate::squad::table_wf;
use crate::text::utf8_text;
use crate::editor::{value_as, value_in};
use crate::session::{favorites_after, log_after, position_of, recent_after, restore_fold, undo_after_push, without, ChangeView, MAX_LOG, MAX_RECENT, MAX_UNDO};
use crate::squad::SquadFile;

verus! {

broadcast use {encode_utf8_decode_utf8, encode_utf8_valid_utf8};

/// After a table's checksum is refreshed, it matches the bytes it covers.
pub proof fn law_refreshed_checksum_is_valid(b: Seq<u8>, t: TableInfo)
    requires
        t.record_crc_pos matches Some(p) ==> t.field_desc_start <= p && p + 4 <= b.len(),
    ensures
        table_crc_valid(crc_refreshed(b, t), t),
{
    match t.record_crc_pos {
        Some(p) => {
            let fds = t.field_desc_start as int;
            let v = spec_crc_db11(b.subrange(fds, p as int)) as u32;
            lemma_le4_roundtrip(b, p as int, v);
            let nb = splice(b, p as int, le4(v));
            assert(nb.subrange(fds, p as int) =~= b.subrange(fds, p as int));
        },
        None => {},
    }
}

/// Bits read from two byte sequences agree where the sequences' bits agree.
pub proof fn lemma_bits_value_local(a: Seq<u8>, b: Seq<u8>, off: int, n: nat)
    requires
        forall|k: int| off <= k < off + n ==> #[trigger] bit_at(a, k) == bit_at(b, k),
    ensures
        bits_value(a, off, n) == bits_value(b, off, n),
    decreases n,
{
    if n > 0 {
        lemma_bits_value_local(a, b, off, (n - 1) as nat);
        assert(bit_at(a, off + n - 1) == bit_at(b, off + n - 1));
    }
}

proof fn lemma_byte_of_bit(k: int, len: int)
    requires
        0 <= k < 8 * len,
    ensures
        0 <= k / 8 < len,
{
    assert(k / 8 < len) by (nonlinear_arith)
        requires
            0 <= k < 8 * len,
    ;
}

/// Writing a value into a field and refreshing the table checksum, then reading the field,
/// gives the value back. For a string this holds when it contains no NUL character.
pub proof fn law_set_then_get(b: Seq<u8>, mid: Seq<u8>, t: TableInfo, f: FieldDescriptor, idx: int, value: FieldValue)
    requires
        table_wf(t, b.len() as int),
        0 <= idx < t.n_records_slot,
        needed_bytes(f.field_type, f.bit_offset, f.depth) <= t.rec_bytes,
        field_writable(t, f),
        write_accepted(f, value),
        field_written(b, mid, t, f, idx, value),
        value matches FieldValue::Str(s) ==> forall|i: int|
            0 <= i < encode_utf8(s@).len() ==> #[trigger] encode_utf8(s@)[i] != 0,
    ensures
        field_value_is(crc_refreshed(mid, t), t, f, idx, value),
{
    lemma_record_in_buffer(t, b.len() as int, idx);
    let rs = record_start(t, idx);
    let bo8 = f.bit_offset as int / 8;
    let nb = crc_refreshed(mid, t);
    assert(mid.len() == b.len()) by {
        match (f.field_type, value) {
            (FieldType::Integer, FieldValue::Int(_)) => {},
            _ => {},
        }
    }
    // The checksum slot lies past the record data, so the record's bytes are those of `mid`.
    assert(forall|k: int| 0 <= k < rs + t.rec_bytes ==> #[trigger] nb[k] == mid[k]) by {
        match t.record_crc_pos {
            Some(p) => {
                assert forall|k: int| 0 <= k < rs + t.rec_bytes implies #[trigger] nb[k] == mid[k] by {
                    assert(k < p);
                }
            },
            None => {},
        }
    }
    assert(nb.len() == mid.len());
    match (f.field_type, value) {
        (FieldType::Integer, FieldValue::Int(v)) => {
            let raw = (v - f.rangelow) as u32;
            lemma_max_value_fits(f.depth);
            lemma_write_then_read(b.skip(rs), mid.skip(rs), f.bit_offset as int, f.depth as nat, raw);
            assert forall|k: int| f.bit_offset <= k < f.bit_offset + f.depth implies #[trigger] bit_at(
                nb.skip(rs),
                k,
            ) == bit_at(mid.skip(rs), k) by {
                lemma_byte_of_bit(k, t.rec_bytes as int);
                assert(nb.skip(rs)[k / 8] == nb[rs + k / 8]);
                assert(mid.skip(rs)[k / 8] == mid[rs + k / 8]);
            }
            lemma_bits_value_local(nb.skip(rs), mid.skip(rs), f.bit_offset as int, f.depth as nat);
            assert(raw as int == v - f.rangelow);
            assert(bits_value(mid.skip(rs), f.bit_offset as int, f.depth as nat) == raw as nat);
            assert(bits_value(nb.skip(rs), f.bit_offset as int, f.depth as nat) == raw as nat);
            assert(field_value_is(nb, t, f, idx, value));
        },
        (FieldType::Float, FieldValue::Float(bits)) => {
            lemma_le4_roundtrip(b, rs + bo8, bits);
            assert(nb[rs + bo8] == mid[rs + bo8]);
            assert(nb[rs + bo8 + 1] == mid[rs + bo8 + 1]);
            assert(nb[rs + bo8 + 2] == mid[rs + bo8 + 2]);
            assert(nb[rs + bo8 + 3] == mid[rs + bo8 + 3]);
            assert(u32le(nb, rs + bo8) == bits);
            assert(field_value_is(nb, t, f, idx, value));
        },
        (FieldType::String, FieldValue::Str(s)) => {
            let len = f.depth as int / 8;
            let e = encode_utf8(s@);
            let padded = nul_padded(e, len);
            assert(nb.subrange(rs + bo8, rs + bo8 + len) =~= padded) by {
                assert forall|k: int| 0 <= k < len implies nb.subrange(rs + bo8, rs + bo8 + len)[k] == padded[k] by {
                    assert(nb[rs + bo8 + k] == mid[rs + bo8 + k]);
                }
            }
            lemma_nul_pos_of_padded(e, len, 0);
            assert(until_nul(padded) =~= e);
            assert(valid_utf8(e));
            assert(decode_utf8(e) == s@);
            assert(utf8_text(until_nul(padded)) == s@);
        },
        _ => {},
    }
}

/// A write that the field takes has a result: some bytes are what it makes of `old`.
pub proof fn lemma_field_write_exists(old: Seq<u8>, t: TableInfo, f: FieldDescriptor, idx: int, value: FieldValue)
    requires
        table_wf(t, old.len() as int),
        0 <= idx < t.n_records_slot,
        field_writable(t, f),
        write_accepted(f, value),
    ensures
        exists|n: Seq<u8>| field_written(old, n, t, f, idx, value),
{
    lemma_record_in_buffer(t, old.len() as int, idx);
    let rs = record_start(t, idx);
    let bo8 = f.bit_offset as int / 8;
    match (f.field_type, value) {
        (FieldType::Integer, FieldValue::Int(v)) => {
            let tail = old.skip(rs);
            let raw = (v - f.rangelow) as u32;
            lemma_with_bits(tail, f.bit_offset as int, f.depth as int, raw, f.depth as int);
            let w = with_bits(tail, f.bit_offset as int, raw, f.depth as int);
            let n = old.subrange(0, rs) + w;
            assert(n.subrange(0, rs) =~= old.subrange(0, rs));
            assert(n.skip(rs) =~= w);
            assert(field_written(old, n, t, f, idx, value));
        },
        (FieldType::Float, FieldValue::Float(bits)) => {
            assert(field_written(old, splice(old, rs + bo8, le4(bits)), t, f, idx, value));
        },
        (FieldType::String, FieldValue::Str(s)) => {
            let n = splice(old, rs + bo8, nul_padded(encode_utf8(s@), f.depth as int / 8));
            assert(field_written(old, n, t, f, idx, value));
        },
        _ => {},
    }
}

/// Restoring a change writes its value back: afterwards the field reads the change's value, a
/// string by its text. This holds where the field can be written and takes the value, a string
/// holding no NUL character; undoing an edit restores the value the field had before it this
/// way.
pub proof fn law_restore_writes_value_back(squad: SquadFile, c: ChangeView)
    requires
        squad.wf(),
        squad.can_write(c.0, c.2),
        squad.spec_table_index(c.0) matches Some(ti) && {
            let t = squad.tables@[ti];
            &&& t.spec_field_index(c.2) matches Some(fi) && write_accepted(t.fields@[fi], c.3)
            &&& 0 <= c.1 < t.n_records_slot
        },
        c.3 matches FieldValue::Str(s) ==> forall|i: int|
            0 <= i < encode_utf8(s@).len() ==> #[trigger] encode_utf8(s@)[i] != 0,
    ensures
        value_in(squad.tables@, restore_fold(squad.tables@, squad.buf@, seq![c], 1).0, c.0, c.1, c.2) matches Some(v)
            && value_as(c.3, v),
{
    let ti = squad.spec_table_index(c.0).unwrap();
    crate::squad::lemma_last_table_bounds(squad.tables@, c.0, squad.tables@.len() as int);
    assert(table_wf(squad.tables@[ti], squad.buf@.len() as int));
    lemma_restore_in(squad.tables@, squad.buf@, ti, c);
}

/// Restoring one change to bytes laid out as `tables` describes writes its value back, keeps
/// the length of the bytes, and takes the value the field had before.
proof fn lemma_restore_in(tables: Seq<TableInfo>, buf: Seq<u8>, ti: int, c: ChangeView)
    requires
        0 <= ti < tables.len(),
        table_index_in(tables, c.0) == Some(ti),
        table_wf(tables[ti], buf.len() as int),
        can_write_in(tables, c.0, c.2),
        tables[ti].spec_field_index(c.2) matches Some(fi) && write_accepted(tables[ti].fields@[fi], c.3),
        0 <= c.1 < tables[ti].n_records_slot,
        c.3 matches FieldValue::Str(s) ==> forall|i: int|
            0 <= i < encode_utf8(s@).len() ==> #[trigger] encode_utf8(s@)[i] != 0,
    ensures
        value_in(tables, restore_fold(tables, buf, seq![c], 1).0, c.0, c.1, c.2) matches Some(v) && value_as(c.3, v),
        restore_fold(tables, buf, seq![c], 1).0.len() == buf.len(),
        crate::fields::can_read_in(tables, buf, c.0, c.1, c.2) ==> restore_fold(tables, buf, seq![c], 1).1 == (
            match value_in(tables, buf, c.0, c.1, c.2) {
                Some(v) => seq![(c.0, c.1, c.2, v)],
                None => Seq::<ChangeView>::empty(),
            }),
{
    let t = tables[ti];
    let fi = t.spec_field_index(c.2).unwrap();
    crate::model::lemma_first_field_bounds(t.fields@, c.2, 0);
    let f = t.fields@[fi];
    assert(needed_bytes(t.fields@[fi].field_type, t.fields@[fi].bit_offset, t.fields@[fi].depth) <= t.rec_bytes);
    lemma_field_write_exists(buf, t, f, c.1, c.3);
    let w = spec_write(tables, buf, c.0, c.1, c.2, c.3);
    assert(w.0);
    let mid = w.1;
    assert(field_written(buf, mid, t, f, c.1, c.3));
    law_set_then_get(buf, mid, t, f, c.1, c.3);
    lemma_record_in_buffer(t, buf.len() as int, c.1);
    assert(mid.len() == buf.len());
    let nb = crc_refreshed(mid, t);
    assert(restore_fold(tables, buf, seq![c], 0) == (buf, Seq::<ChangeView>::empty()));
    assert(seq![c][0] == c);
    assert(restore_fold(tables, buf, seq![c], 1).0 == nb);
    assert(field_value_is(nb, t, f, c.1, c.3));
    match c.3 {
        FieldValue::Str(s) => {
            assert(crate::tsv::str_text(c.3) == Some(s@));
        },
        _ => {},
    }
    if crate::fields::can_read_in(tables, buf, c.0, c.1, c.2) {
        match value_in(tables, buf, c.0, c.1, c.2) {
            Some(v) => {
                assert(restore_fold(tables, buf, seq![c], 1).1 =~= seq![(c.0, c.1, c.2, v)]);
            },
            None => {
                assert(restore_fold(tables, buf, seq![c], 1).1 =~= Seq::<ChangeView>::empty());
            },
        }
    }
}

/// An edit undone and then redone is there again: undoing a one-change entry `c` writes its
/// old value back and hands the redo stack the value the field held; redoing with any change
/// that stands for that value (as the redo entry does) makes the field read it again. This
/// holds where the field can be read and written, the record slot exists, the field takes
/// both values, and neither value is a string with a NUL character.
pub proof fn law_undo_then_redo(squad: SquadFile, c: ChangeView, x: FieldValue)
    requires
        squad.wf(),
        squad.can_write(c.0, c.2),
        squad.can_read(c.0, c.1, c.2),
        squad.spec_table_index(c.0) matches Some(ti) && {
            let t = squad.tables@[ti];
            &&& t.spec_field_index(c.2) matches Some(fi) && write_accepted(t.fields@[fi], c.3) && write_accepted(t.fields@[fi], x)
            &&& 0 <= c.1 < t.n_records_slot
        },
        value_in(squad.tables@, squad.buf@, c.0, c.1, c.2) matches Some(held) && value_as(x, held),
        c.3 matches FieldValue::Str(s) ==> forall|i: int|
            0 <= i < encode_utf8(s@).len() ==> #[trigger] encode_utf8(s@)[i] != 0,
        x matches FieldValue::Str(s) ==> forall|i: int|
            0 <= i < encode_utf8(s@).len() ==> #[trigger] encode_utf8(s@)[i] != 0,
    ensures
        ({
            let tables = squad.tables@;
            let held = value_in(tables, squad.buf@, c.0, c.1, c.2).unwrap();
            let undone = restore_fold(tables, squad.buf@, seq![c], 1);
            let redone = restore_fold(tables, undone.0, seq![(c.0, c.1, c.2, x)], 1);
            &&& value_in(tables, undone.0, c.0, c.1, c.2) matches Some(v) && value_as(c.3, v)
            &&& undone.1 == seq![(c.0, c.1, c.2, held)]
            &&& value_in(tables, redone.0, c.0, c.1, c.2) matches Some(v) && value_as(x, v)
        }),
{
    let tables = squad.tables@;
    let ti = squad.spec_table_index(c.0).unwrap();
    crate::squad::lemma_last_table_bounds(tables, c.0, tables.len() as int);
    assert(table_wf(tables[ti], squad.buf@.len() as int));
    assert(can_write_in(tables, c.0, c.2));
    lemma_restore_in(tables, squad.buf@, ti, c);
    let undone = restore_fold(tables, squad.buf@, seq![c], 1);
    assert(table_wf(tables[ti], undone.0.len() as int));
    lemma_restore_in(tables, undone.0, ti, (c.0, c.1, c.2, x));
}

proof fn lemma_max_value_fits(depth: u32)
    requires
        depth <= 32,
    ensures
        spec_max_value_for_depth(depth) <= u32::MAX,
{
    if depth < 32 {
        lemma_pow2_strictly_increases(depth as nat, 32);
        lemma2_to64();
    }
}

proof fn lemma_nul_pos_of_padded(e: Seq<u8>, len: int, from: int)
    requires
        e.len() <= len,
        0 <= from <= e.len(),
        forall|i: int| 0 <= i < e.len() ==> #[trigger] e[i] != 0,
    ensures
        nul_pos(nul_padded(e, len), from) == e.len(),
    decreases e.len() - from,
{
    if from < e.len() {
        lemma_nul_pos_of_padded(e, len, from + 1);
    }
}

/// After the container checksum is rewritten, the stored checksum equals the computed one.
pub proof fn law_container_checksum_after_recompute(b: Seq<u8>, sig_pos: int)
    requires
        spec_file_crc_layout(b, sig_pos) is Some,
    ensures
        ({
            let (f, p) = spec_file_crc_layout(b, sig_pos).unwrap();
            let nb = splice(b, f, le4(spec_crc32(b.skip(p))));
            spec_stored_file_crc(nb, sig_pos) == spec_computed_file_crc(nb, sig_pos)
        }),
{
    let (f, p) = spec_file_crc_layout(b, sig_pos).unwrap();
    let v = spec_crc32(b.skip(p));
    lemma_le4_roundtrip(b, f, v);
    let nb = splice(b, f, le4(v));
    assert(nb.skip(p) =~= b.skip(p));
}

/// Rewriting a container checksum that already matches changes no byte.
pub proof fn law_recompute_on_valid_container_keeps_bytes(b: Seq<u8>, sig_pos: int)
    requires
        spec_file_crc_layout(b, sig_pos) is Some,
        spec_stored_file_crc(b, sig_pos) == spec_computed_file_crc(b, sig_pos),
    ensures
        ({
            let (f, p) = spec_file_crc_layout(b, sig_pos).unwrap();
            splice(b, f, le4(spec_crc32(b.skip(p)))) == b
        }),
{
    let (f, p) = spec_file_crc_layout(b, sig_pos).unwrap();
    let v = spec_crc32(b.skip(p));
    assert(u32le(b, f) == v);
    crate::reimport::lemma_le4_of_read(b, f);
    assert(splice(b, f, le4(v)) =~= b);
}

/// After a new save name is written into the slot, the slot is unchanged and reading the
/// name gives the new name back, when it contains no NUL character and fits.
pub proof fn law_save_name_roundtrip(b: Seq<u8>, name: Seq<char>)
    requires
        spec_save_name_slot(b) is Some,
        encode_utf8(name).len() <= spec_save_name_slot(b).unwrap().1 - 1,
        forall|i: int| 0 <= i < encode_utf8(name).len() ==> #[trigger] encode_utf8(name)[i] != 0,
    ensures
        ({
            let (o, c) = spec_save_name_slot(b).unwrap();
            let nb = splice(b, o, nul_padded(encode_utf8(name), c));
            &&& spec_save_name_slot(nb) == Some((o, c))
            &&& utf8_text(until_nul(nb.subrange(o, o + c))) == name
        }),
{
    let (o, c) = spec_save_name_slot(b).unwrap();
    let e = encode_utf8(name);
    let padded = nul_padded(e, c);
    let nb = splice(b, o, padded);
    lemma_run_end_facts(b, o, false);
    let used_end = run_end(b, o, false);
    lemma_run_end_facts(b, used_end, true);
    let pad_end = run_end(b, used_end, true);
    assert(pad_end == o + c);
    assert(nb.len() == b.len());
    // The new name's bytes, then zeros up to the old end of the slot.
    lemma_run_end_prefix(nb, o, o + e.len(), false);
    lemma_run_end_prefix(nb, o + e.len(), o + c, true);
    assert(nb.subrange(o, o + c) =~= padded);
    lemma_nul_pos_of_padded(e, c, 0);
    assert(until_nul(padded) =~= e);
}

proof fn lemma_run_end_facts(b: Seq<u8>, i: int, zero: bool)
    requires
        0 <= i <= b.len(),
    ensures
        i <= run_end(b, i, zero) <= b.len(),
        forall|k: int| i <= k < run_end(b, i, zero) ==> ((#[trigger] b[k] == 0) == zero),
        run_end(b, i, zero) < b.len() ==> ((b[run_end(b, i, zero)] == 0) != zero),
    decreases b.len() - i,
{
    if i < b.len() && ((b[i] == 0) == zero) {
        lemma_run_end_facts(b, i + 1, zero);
    }
}

/// A run that covers `i..j` and then stops ends at `j`.
proof fn lemma_run_end_prefix(b: Seq<u8>, i: int, j: int, zero: bool)
    requires
        0 <= i <= j <= b.len(),
        forall|k: int| i <= k < j ==> ((#[trigger] b[k] == 0) == zero),
        j < b.len() ==> ((b[j] == 0) != zero),
    ensures
        run_end(b, i, zero) == j,
    decreases j - i,
{
    if i < j {
        lemma_run_end_prefix(b, i + 1, j, zero);
    }
}

// ---------------------------------------------------------------------------------------
// The editing history
// ---------------------------------------------------------------------------------------

/// The undo stack never holds more than [`MAX_UNDO`] entries, and the entry just recorded is
/// the one an undo takes first.
pub proof fn law_undo_stack_stays_bounded<T>(stack: Seq<T>, entry: T)
    requires
        stack.len() <= MAX_UNDO,
    ensures
        undo_after_push(stack, entry).len() <= MAX_UNDO,
        undo_after_push(stack, entry).last() == entry,
{
}

/// The change log never holds more than [`MAX_LOG`] lines, the newest first.
pub proof fn law_change_log_stays_bounded(log: Seq<Seq<char>>, line: Seq<char>)
    requires
        log.len() <= MAX_LOG,
    ensures
        log_after(log, line).len() <= MAX_LOG,
        log_after(log, line)[0] == line,
{
}

proof fn lemma_without(s: Seq<i64>, id: i64)
    ensures
        !without(s, id).contains(id),
        without(s, id).len() <= s.len(),
        forall|x: i64| x != id ==> (without(s, id).contains(x) <==> s.contains(x)),
        (forall|a: int, b: int| 0 <= a < b < s.len() ==> s[a] != s[b]) ==> forall|a: int, b: int|
            0 <= a < b < without(s, id).len() ==> without(s, id)[a] != without(s, id)[b],
    decreases s.len(),
{
    if s.len() > 0 {
        let t = s.drop_last();
        lemma_without(t, id);
        assert forall|x: i64| x != id implies (without(s, id).contains(x) <==> s.contains(x)) by {
            let w = without(t, id);
            let ws = without(s, id);
            if ws.contains(x) {
                let k = choose|k: int| 0 <= k < ws.len() && ws[k] == x;
                if s.last() == id || k < w.len() {
                    assert(w[k] == x);
                    assert(w.contains(x));
                    assert(t.contains(x));
                    let j = choose|j: int| 0 <= j < t.len() && t[j] == x;
                    assert(s[j] == x);
                } else {
                    assert(s[s.len() - 1] == x);
                }
            }
            if s.contains(x) {
                let k = choose|k: int| 0 <= k < s.len() && s[k] == x;
                if k < t.len() {
                    assert(t[k] == x);
                    assert(t.contains(x));
                    assert(w.contains(x));
                    let j = choose|j: int| 0 <= j < w.len() && w[j] == x;
                    assert(ws[j] == x);
                } else {
                    assert(ws[w.len() as int] == x);
                }
            }
        }
        if forall|a: int, b: int| 0 <= a < b < s.len() ==> s[a] != s[b] {
            assert forall|a: int, b: int| 0 <= a < b < t.len() implies t[a] != t[b] by {
                assert(t[a] == s[a] && t[b] == s[b]);
            }
            if s.last() != id {
                let w = without(t, id);
                assert(!w.contains(s.last())) by {
                    if w.contains(s.last()) {
                        assert(t.contains(s.last()));
                        let k = choose|k: int| 0 <= k < t.len() && t[k] == s.last();
                        assert(s[k] == s[s.len() - 1]);
                    }
                }
                assert forall|a: int, b: int| 0 <= a < b < without(s, id).len() implies without(s, id)[a] != without(s, id)[b] by {
                    if b == w.len() {
                        assert(w[a] == without(s, id)[a]);
                        assert(w.contains(w[a]));
                    }
                }
            }
        }
    }
}

/// Viewing a player puts it first among the recently viewed, once: a list holding each player
/// at most once keeps doing so, and never holds more than [`MAX_RECENT`] players.
pub proof fn law_recent_players_stay_unique(recent: Seq<i64>, id: i64)
    requires
        forall|a: int, b: int| 0 <= a < b < recent.len() ==> recent[a] != recent[b],
    ensures
        recent_after(recent, id).len() <= MAX_RECENT,
        recent_after(recent, id)[0] == id,
        forall|a: int, b: int| 0 <= a < b < recent_after(recent, id).len() ==> recent_after(recent, id)[a] != recent_after(recent, id)[b],
{
    lemma_without(recent, id);
    let full = seq![id] + without(recent, id);
    assert forall|a: int, b: int| 0 <= a < b < full.len() implies full[a] != full[b] by {
        if a == 0 {
            assert(without(recent, id)[b - 1] == full[b]);
            assert(without(recent, id).contains(full[b]));
        } else {
            assert(full[a] == without(recent, id)[a - 1] && full[b] == without(recent, id)[b - 1]);
        }
    }
    let r = recent_after(recent, id);
    assert forall|a: int, b: int| 0 <= a < b < r.len() implies r[a] != r[b] by {
        assert(r[a] == full[a] && r[b] == full[b]);
    }
}

proof fn lemma_position_of_absent(s: Seq<i64>, id: i64, from: int)
    requires
        0 <= from,
        forall|k: int| from <= k < s.len() ==> s[k] != id,
    ensures
        position_of(s, id, from) is None,
    decreases s.len() - from,
{
    if from < s.len() {
        lemma_position_of_absent(s, id, from + 1);
    }
}

/// Adding a player that is not among the favourites and then toggling it again leaves the
/// favourites as they were.
pub proof fn law_toggle_favorite_twice(favorites: Seq<i64>, id: i64)
    requires
        !favorites.contains(id),
    ensures
        favorites_after(favorites_after(favorites, id), id) == favorites,
{
    lemma_position_of_absent(favorites, id, 0);
    let once = favorites.push(id);
    assert(favorites_after(favorites, id) == once);
    lemma_position_of_absent(favorites, id, 0);
    assert forall|k: int| 0 <= k < favorites.len() implies once[k] != id by {
        assert(once[k] == favorites[k]);
    }
    lemma_position_found(once, id, 0, favorites.len() as int);
    assert(once.remove(favorites.len() as int) =~= favorites);
}

proof fn lemma_position_found(s: Seq<i64>, id: i64, from: int, k: int)
    requires
        0 <= from <= k < s.len(),
        s[k] == id,
        forall|j: int| from <= j < k ==> s[j] != id,
    ensures
        position_of(s, id, from) == Some(k),
    decreases k - from,
{
    if from < k {
        lemma_position_found(s, id, from + 1, k);
    }
}

/// `a` and `b` have the same length and the same bytes outside `lo..hi`.
pub open spec fn same_outside(a: Seq<u8>, b: Seq<u8>, lo: int, hi: int) -> bool {
    &&& a.len() == b.len()
    &&& forall|i: int| 0 <= i < a.len() && !(lo <= i < hi) ==> #[trigger] a[i] == b[i]
}

/// A write into a field of record `idx` changes no byte outside that record.
proof fn lemma_write_stays_in_record(tables: Seq<TableInfo>, buf: Seq<u8>, ts: Seq<char>, ti: int, idx: int, name: Seq<char>, v: FieldValue)
    requires
        0 <= ti < tables.len(),
        table_index_in(tables, ts) == Some(ti),
        table_wf(tables[ti], buf.len() as int),
        can_write_value_in(tables, ts, name, v),
    ensures
        same_outside(
            buf,
            spec_write(tables, buf, ts, idx, name, v).1,
            record_start(tables[ti], idx),
            record_start(tables[ti], idx) + tables[ti].rec_bytes,
        ),
{
    let t = tables[ti];
    match t.spec_field_index(name) {
        Some(fi) => {
            crate::model::lemma_first_field_bounds(t.fields@, name, 0);
            let f = t.fields@[fi];
            if 0 <= idx < t.n_records_slot && write_accepted(f, v) {
                lemma_field_write_exists(buf, t, f, idx, v);
                let n = spec_write(tables, buf, ts, idx, name, v).1;
                assert(field_written(buf, n, t, f, idx, v));
                lemma_record_in_buffer(t, buf.len() as int, idx);
                let rs = record_start(t, idx);
                assert(needed_bytes(t.fields@[fi].field_type, t.fields@[fi].bit_offset, t.fields@[fi].depth) <= t.rec_bytes);
                if f.field_type == FieldType::Integer {
                    let x = buf.skip(rs);
                    let y = n.skip(rs);
                    assert forall|i: int| 0 <= i < buf.len() && !(rs <= i < rs + t.rec_bytes) implies #[trigger] buf[i] == n[i] by {
                        if i < rs {
                            assert(buf.subrange(0, rs)[i] == n.subrange(0, rs)[i]);
                        } else {
                            let j = i - rs;
                            assert forall|k: int| 8 * j <= k < 8 * j + 8 implies #[trigger] bit_at(x, k) == bit_at(y, k) by {
                                assert(k < 8 * y.len());
                            }
                            crate::codec::lemma_byte_of_bits(x, y, j);
                        }
                    }
                }
            }
        },
        None => {},
    }
}

/// Filling a new record changes no byte outside it.
proof fn lemma_fill_stays_in_record(tables: Seq<TableInfo>, buf: Seq<u8>, ts: Seq<char>, ti: int, idx: int, values: Seq<(&str, FieldValue)>, k: int)
    requires
        0 <= ti < tables.len(),
        table_index_in(tables, ts) == Some(ti),
        table_wf(tables[ti], buf.len() as int),
        0 <= k <= values.len(),
        forall|m: int| 0 <= m < values.len() ==> can_write_value_in(tables, ts, values[m].0@, #[trigger] values[m].1),
    ensures
        same_outside(
            buf,
            fill_fold(tables, buf, ts, idx, values, k).0,
            record_start(tables[ti], idx),
            record_start(tables[ti], idx) + tables[ti].rec_bytes,
        ),
    decreases k,
{
    if k > 0 {
        lemma_fill_stays_in_record(tables, buf, ts, ti, idx, values, k - 1);
        let prev = fill_fold(tables, buf, ts, idx, values, k - 1);
        if prev.1 {
            assert(can_write_value_in(tables, ts, values[k - 1].0@, values[k - 1].1));
            lemma_write_stays_in_record(tables, prev.0, ts, ti, idx, values[k - 1].0@, values[k - 1].1);
        }
    }
}

/// The little-endian bytes of the `u16` read at `p` are the bytes there.
proof fn lemma_le2_of_read(b: Seq<u8>, p: int)
    requires
        0 <= p,
        p + 2 <= b.len(),
    ensures
        le2(u16le(b, p)) == b.subrange(p, p + 2),
{
    let v = u16le(b, p) as int;
    let x0 = b[p] as int;
    let x1 = b[p + 1] as int;
    assert(v == x0 + 256 * x1);
    vstd::arithmetic::div_mod::lemma_fundamental_div_mod_converse(v, 256, x1, x0);
    assert(le2(u16le(b, p)) =~= b.subrange(p, p + 2));
}

/// Removing the last record undoes adding one: the bytes after `add_record` then
/// `remove_last_record` on a table are the bytes before. This holds where the table takes the
/// new record and every value of it, the free slot the record goes into holds only zeros, the
/// record count stored in the table's header is its count of live records, and the table's
/// stored checksum is valid.
#[verifier::spinoff_prover]
#[verifier::rlimit(50)]
pub proof fn law_remove_last_record_undoes_add_record(squad: SquadFile, ts: Seq<char>, ti: int, values: Seq<(&str, FieldValue)>)
    requires
        squad.wf(),
        squad.spec_table_index(ts) == Some(ti),
        forall|m: int| 0 <= m < values.len() ==> squad.can_write_value(ts, values[m].0@, #[trigger] values[m].1),
        ({
            let t = squad.tables@[ti];
            let rs = record_start(t, t.n_written_records as int);
            &&& !t.has_index_block
            &&& t.n_written_records < t.n_records_slot
            &&& fill_fold(squad.tables@, splice(squad.buf@, rs, zeros(t.rec_bytes as int)), ts, t.n_written_records as int, values, values.len() as int).1
            &&& squad.buf@.subrange(rs, rs + t.rec_bytes) == zeros(t.rec_bytes as int)
            &&& u16le(squad.buf@, t.start + 22) == t.n_written_records
            &&& table_crc_valid(squad.buf@, t)
        }),
    ensures
        ({
            let t = squad.tables@[ti];
            let n = t.n_written_records as int;
            let rs = record_start(t, n);
            let filled = fill_fold(squad.tables@, splice(squad.buf@, rs, zeros(t.rec_bytes as int)), ts, n, values, values.len() as int);
            let nt = with_written(t, n + 1);
            let added = crc_refreshed(splice(filled.0, t.start + 22, le2((n + 1) as u16)), nt);
            let removed = crc_refreshed(
                splice(splice(added, record_start(nt, n), zeros(nt.rec_bytes as int)), nt.start + 22, le2(n as u16)),
                with_written(nt, n),
            );
            removed == squad.buf@
        }),
{
    let tables = squad.tables@;
    let buf = squad.buf@;
    crate::squad::lemma_last_table_bounds(tables, ts, tables.len() as int);
    let t = tables[ti];
    assert(table_wf(t, buf.len() as int));
    let n = t.n_written_records as int;
    let rec = t.rec_bytes as int;
    lemma_record_in_buffer(t, buf.len() as int, n);
    let rs = record_start(t, n);
    let z = splice(buf, rs, zeros(rec));
    assert(z =~= buf);
    assert forall|m: int| 0 <= m < values.len() implies can_write_value_in(tables, ts, values[m].0@, #[trigger] values[m].1) by {
        assert(squad.can_write_value(ts, values[m].0@, values[m].1));
    }
    lemma_fill_stays_in_record(tables, buf, ts, ti, n, values, values.len() as int);
    let filled = fill_fold(tables, z, ts, n, values, values.len() as int);
    let hp = t.start + 22;
    let nt = with_written(t, n + 1);
    let a1 = splice(filled.0, hp, le2((n + 1) as u16));
    let added = crc_refreshed(a1, nt);
    let r1 = splice(added, record_start(nt, n), zeros(rec));
    let r2 = splice(r1, hp, le2(n as u16));
    assert(with_written(nt, n) == t);
    lemma_le2_of_read(buf, hp);
    assert(n as u16 == u16le(buf, hp));
    // Away from the table checksum, the bytes after both calls are the original ones.
    match t.record_crc_pos {
        Some(p) => {
            let p = p as int;
            assert forall|i: int| 0 <= i < buf.len() && !(p <= i < p + 4) implies #[trigger] r2[i] == buf[i] by {
                if hp <= i < hp + 2 {
                    assert(r2[i] == buf.subrange(hp, hp + 2)[i - hp]);
                } else if rs <= i < rs + rec {
                    assert(r1[i] == 0);
                    assert(buf.subrange(rs, rs + rec)[i - rs] == 0);
                } else {
                    assert(r2[i] == added[i]);
                    assert(added[i] == a1[i]);
                    assert(a1[i] == filled.0[i]);
                }
            }
            let region = r2.subrange(t.field_desc_start as int, p);
            assert(region =~= buf.subrange(t.field_desc_start as int, p));
            crate::reimport::lemma_le4_of_read(buf, p);
            assert(crc_refreshed(r2, t) =~= buf);
        },
        None => {
            assert forall|i: int| 0 <= i < buf.len() implies #[trigger] r2[i] == buf[i] by {
                if hp <= i < hp + 2 {
                    assert(r2[i] == buf.subrange(hp, hp + 2)[i - hp]);
                } else if rs <= i < rs + rec {
                    assert(r1[i] == 0);
                    assert(buf.subrange(rs, rs + rec)[i - rs] == 0);
                } else {
                    assert(r2[i] == added[i]);
                    assert(added[i] == a1[i]);
                    assert(a1[i] == filled.0[i]);
                }
            }
            assert(r2 =~= buf);
        },
    }
}

/// Adding a record changes no byte but those of the new record, the record count in the
/// table's header and the table's checksum; when a value is refused, none but those of the
/// new record.
pub proof fn law_add_record_changes_only_its_record(squad: SquadFile, ts: Seq<char>, ti: int, values: Seq<(&str, FieldValue)>)
    requires
        squad.wf(),
        squad.spec_table_index(ts) == Some(ti),
        forall|m: int| 0 <= m < values.len() ==> squad.can_write_value(ts, values[m].0@, #[trigger] values[m].1),
        !squad.tables@[ti].has_index_block,
        squad.tables@[ti].n_written_records < squad.tables@[ti].n_records_slot,
    ensures
        ({
            let t = squad.tables@[ti];
            let n = t.n_written_records as int;
            let rs = record_start(t, n);
            let filled = fill_fold(squad.tables@, splice(squad.buf@, rs, zeros(t.rec_bytes as int)), ts, n, values, values.len() as int);
            let added = crc_refreshed(splice(filled.0, t.start + 22, le2((n + 1) as u16)), with_written(t, n + 1));
            &&& same_outside(squad.buf@, filled.0, rs, rs + t.rec_bytes)
            &&& added.len() == squad.buf@.len()
            &&& forall|i: int|
                0 <= i < squad.buf@.len() && !(rs <= i < rs + t.rec_bytes) && !(t.start + 22 <= i < t.start + 24)
                    && !(t.record_crc_pos matches Some(p) && p <= i < p + 4) ==> #[trigger] added[i] == squad.buf@[i]
        }),
{
    let tables = squad.tables@;
    let buf = squad.buf@;
    crate::squad::lemma_last_table_bounds(tables, ts, tables.len() as int);
    let t = tables[ti];
    assert(table_wf(t, buf.len() as int));
    let n = t.n_written_records as int;
    let rec = t.rec_bytes as int;
    lemma_record_in_buffer(t, buf.len() as int, n);
    let rs = record_start(t, n);
    let z = splice(buf, rs, zeros(rec));
    assert forall|m: int| 0 <= m < values.len() implies can_write_value_in(tables, ts, values[m].0@, #[trigger] values[m].1) by {
        assert(squad.can_write_value(ts, values[m].0@, values[m].1));
    }
    lemma_fill_stays_in_record(tables, z, ts, ti, n, values, values.len() as int);
    let filled = fill_fold(tables, z, ts, n, values, values.len() as int);
    assert forall|i: int| 0 <= i < buf.len() && !(rs <= i < rs + rec) implies #[trigger] buf[i] == filled.0[i] by {
        assert(z[i] == buf[i]);
    }
}

/// Setting a field changes no byte but those of its record and the table's checksum: an index
/// block after the records, and every other record and table, keep their bytes.
pub proof fn law_set_field_changes_only_its_record(squad: SquadFile, ts: Seq<char>, ti: int, idx: int, name: Seq<char>, v: FieldValue)
    requires
        squad.wf(),
        squad.spec_table_index(ts) == Some(ti),
        squad.can_write_value(ts, name, v),
    ensures
        ({
            let t = squad.tables@[ti];
            let rs = record_start(t, idx);
            let w = spec_write(squad.tables@, squad.buf@, ts, idx, name, v);
            let edited = crc_refreshed(w.1, t);
            &&& edited.len() == squad.buf@.len()
            &&& forall|i: int|
                0 <= i < squad.buf@.len() && !(rs <= i < rs + t.rec_bytes) && !(t.record_crc_pos matches Some(p) && p
                    <= i < p + 4) ==> #[trigger] edited[i] == squad.buf@[i]
        }),
{
    let tables = squad.tables@;
    let buf = squad.buf@;
    crate::squad::lemma_last_table_bounds(tables, ts, tables.len() as int);
    let t = tables[ti];
    assert(table_wf(t, buf.len() as int));
    lemma_write_stays_in_record(tables, buf, ts, ti, idx, name, v);
}

/// Setting a field and then reading it gives the value back: `set_field` accepts the value,
/// and in the bytes it leaves (the write, then the refreshed checksum) the field holds the
/// value, a string by its text. This holds where the field can be written, the record slot
/// exists, the field takes the value, and a string holds no NUL character.
pub proof fn law_set_field_then_get(squad: SquadFile, ts: Seq<char>, ti: int, idx: int, name: Seq<char>, value: FieldValue)
    requires
        squad.wf(),
        squad.spec_table_index(ts) == Some(ti),
        squad.can_write(ts, name),
        squad.tables@[ti].spec_field_index(name) matches Some(fi) && write_accepted(squad.tables@[ti].fields@[fi], value),
        0 <= idx < squad.tables@[ti].n_records_slot,
        value matches FieldValue::Str(s) ==> forall|i: int|
            0 <= i < encode_utf8(s@).len() ==> #[trigger] encode_utf8(s@)[i] != 0,
    ensures
        ({
            let t = squad.tables@[ti];
            let w = spec_write(squad.tables@, squad.buf@, ts, idx, name, value);
            &&& w.0
            &&& field_value_is(crc_refreshed(w.1, t), t, t.fields@[t.spec_field_index(name).unwrap()], idx, value)
        }),
{
    let tables = squad.tables@;
    let buf = squad.buf@;
    crate::squad::lemma_last_table_bounds(tables, ts, tables.len() as int);
    let t = tables[ti];
    assert(table_wf(t, buf.len() as int));
    let fi = t.spec_field_index(name).unwrap();
    crate::model::lemma_first_field_bounds(t.fields@, name, 0);
    let f = t.fields@[fi];
    assert(needed_bytes(t.fields@[fi].field_type, t.fields@[fi].bit_offset, t.fields@[fi].depth) <= t.rec_bytes);
    lemma_field_write_exists(buf, t, f, idx, value);
    let n = spec_write(tables, buf, ts, idx, name, value).1;
    assert(field_written(buf, n, t, f, idx, value));
    law_set_then_get(buf, n, t, f, idx, value);
}

/// The fields are in order of bit offset.
pub open spec fn sorted_by_offset(s: Seq<FieldDescriptor>) -> bool {
    forall|i: int, j: int| 0 <= i <= j < s.len() ==> #[trigger] s[i].bit_offset <= #[trigger] s[j].bit_offset
}

/// In sorted fields, the insertion position of `x` has the fields no later than `x` before it
/// and the later ones after it.
proof fn lemma_insert_pos(t: Seq<FieldDescriptor>, x: FieldDescriptor)
    requires
        sorted_by_offset(t),
    ensures
        0 <= crate::parse::insert_pos(t, x) <= t.len(),
        forall|k: int| 0 <= k < crate::parse::insert_pos(t, x) ==> #[trigger] t[k].bit_offset <= x.bit_offset,
        forall|k: int| crate::parse::insert_pos(t, x) <= k < t.len() ==> #[trigger] t[k].bit_offset > x.bit_offset,
    decreases t.len(),
{
    if t.len() > 0 {
        if t.last().bit_offset <= x.bit_offset {
            assert forall|k: int| 0 <= k < t.len() implies #[trigger] t[k].bit_offset <= x.bit_offset by {
                assert(t[k].bit_offset <= t[t.len() - 1].bit_offset);
            }
        } else {
            let d = t.drop_last();
            assert forall|i: int, j: int| 0 <= i <= j < d.len() implies #[trigger] d[i].bit_offset <= #[trigger] d[j].bit_offset by {
                assert(t[i].bit_offset <= t[j].bit_offset);
            }
            lemma_insert_pos(d, x);
            assert forall|k: int| 0 <= k < crate::parse::insert_pos(t, x) implies #[trigger] t[k].bit_offset <= x.bit_offset by {
                assert(t[k] == d[k]);
            }
            assert forall|k: int| crate::parse::insert_pos(t, x) <= k < t.len() implies #[trigger] t[k].bit_offset > x.bit_offset by {
                if k < d.len() {
                    assert(t[k] == d[k]);
                }
            }
        }
    }
}

/// A table's fields come out of parsing sorted by bit offset: the sort that `parse_table`
/// applies to the descriptors puts them in order of bit offset, and keeps their number.
pub proof fn law_fields_sorted_by_offset(s: Seq<FieldDescriptor>)
    ensures
        sorted_by_offset(crate::parse::sort_by_offset(s)),
        crate::parse::sort_by_offset(s).len() == s.len(),
    decreases s.len(),
{
    if s.len() > 0 {
        law_fields_sorted_by_offset(s.drop_last());
        let t = crate::parse::sort_by_offset(s.drop_last());
        let x = s.last();
        lemma_insert_pos(t, x);
        let p = crate::parse::insert_pos(t, x);
        let r = t.insert(p, x);
        assert(r == crate::parse::sort_by_offset(s));
        assert forall|i: int, j: int| 0 <= i <= j < r.len() implies #[trigger] r[i].bit_offset <= #[trigger] r[j].bit_offset by {
            if i < p {
                assert(r[i] == t[i]);
                if j < p {
                    assert(r[j] == t[j]);
                } else if j > p {
                    assert(r[j] == t[j - 1]);
                }
            } else if i == p {
                if j > p {
                    assert(r[j] == t[j - 1]);
                }
            } else {
                assert(r[i] == t[i - 1]);
                assert(r[j] == t[j - 1]);
            }
        }
    }
}

/// The tables of a file lie back to back: each ends where the next begins (so each table's
/// checksum slot, when it is at the table's end, is the next table's first word), and the
/// last one ends the file.
pub proof fn law_tables_back_to_back(b: Seq<u8>, meta: Option<&crate::meta::MetaMap>, tables: Seq<TableInfo>)
    requires
        crate::parse::tables_parsed(b, meta, tables),
    ensures
        forall|i: int| 0 <= i && i + 1 < tables.len() ==> #[trigger] tables[i].end == tables[i + 1].start,
        tables.len() > 0 ==> tables[tables.len() - 1].end == b.len(),
{
    reveal(crate::parse::table_parsed);
    assert forall|i: int| 0 <= i && i + 1 < tables.len() implies #[trigger] tables[i].end == tables[i + 1].start by {
        assert(crate::parse::table_parsed(
            b,
            crate::parse::spec_table_start(b, i),
            crate::parse::spec_table_end(b, i),
            crate::parse::spec_entries(b)[i].0,
            meta,
            tables[i],
        ));
        assert(crate::parse::table_parsed(
            b,
            crate::parse::spec_table_start(b, i + 1),
            crate::parse::spec_table_end(b, i + 1),
            crate::parse::spec_entries(b)[i + 1].0,
            meta,
            tables[i + 1],
        ));
    }
    if tables.len() > 0 {
        let n = tables.len() - 1;
        assert(crate::parse::table_parsed(
            b,
            crate::parse::spec_table_start(b, n),
            crate::parse::spec_table_end(b, n),
            crate::parse::spec_entries(b)[n].0,
            meta,
            tables[n],
        ));
    }
}

/// Every table read from a file has its fields in order of bit offset.
pub proof fn law_parsed_fields_sorted_by_offset(b: Seq<u8>, meta: Option<&crate::meta::MetaMap>, tables: Seq<TableInfo>)
    requires
        crate::parse::tables_parsed(b, meta, tables),
    ensures
        forall|i: int| 0 <= i < tables.len() ==> sorted_by_offset(#[trigger] tables[i].fields@),
{
    reveal(crate::parse::table_parsed);
    assert forall|i: int| 0 <= i < tables.len() implies sorted_by_offset(#[trigger] tables[i].fields@) by {
        assert(crate::parse::table_parsed(
            b,
            crate::parse::spec_table_start(b, i),
            crate::parse::spec_table_end(b, i),
            crate::parse::spec_entries(b)[i].0,
            meta,
            tables[i],
        ));
        let raw = choose|raw: Seq<FieldDescriptor>|
            {
                &&& raw.len() == crate::parse::th_n_fields(b, crate::parse::spec_table_start(b, i))
                &&& forall|f: int|
                    0 <= f < crate::parse::th_n_fields(b, crate::parse::spec_table_start(b, i)) ==> #[trigger] crate::parse::desc_matches(
                        raw[f],
                        b,
                        crate::parse::field_desc_pos(crate::parse::spec_table_start(b, i), f),
                        crate::parse::meta_table(meta, crate::parse::spec_entries(b)[i].0),
                    )
                &&& tables[i].fields@ == crate::parse::sort_by_offset(raw)
            };
        law_fields_sorted_by_offset(raw);
    }
}

/// The column read's smallest string offset and the single read's agree, but where the
/// smallest is `i32::MAX`, which the single read takes for "none".
proof fn lemma_column_min_offset(buf: Seq<u8>, t: TableInfo, bo8: int, upto: int)
    ensures
        match crate::fields::col_min_offset(buf, t, bo8, upto) {
            None => crate::fields::min_cstr_offset(buf, t, bo8, upto) == i32::MAX,
            Some(x) => x <= i32::MAX && (x < i32::MAX ==> crate::fields::min_cstr_offset(buf, t, bo8, upto) == x) && (x
                == i32::MAX ==> crate::fields::min_cstr_offset(buf, t, bo8, upto) == i32::MAX),
        },
    decreases upto,
{
    if upto > 0 {
        lemma_column_min_offset(buf, t, bo8, upto - 1);
    }
}

/// The column read of a compressed string field gives, for each live record, the text that
/// reading that one field gives. This holds where no live record's string starts at offset
/// `i32::MAX`, which the single read takes for "no string".
pub proof fn law_column_read_matches_single_reads(buf: Seq<u8>, t: TableInfo, f: FieldDescriptor, i: int)
    requires
        0 <= i < t.n_written_records,
        f.bit_offset as int / 8 + 4 <= t.rec_bytes,
        crate::fields::col_min_offset(buf, t, f.bit_offset as int / 8, t.n_written_records as int) != Some(i32::MAX as int),
    ensures
        crate::fields::column_text_bytes(buf, t, f, i) == crate::fields::compressed_text_bytes(buf, t, f, i),
{
    lemma_column_min_offset(buf, t, f.bit_offset as int / 8, t.n_written_records as int);
}

/// In a table read from a file that has a free record slot, the record count stored in the
/// header is its count of live records, as the law that removing a record undoes adding one
/// asks.
pub proof fn lemma_loaded_header_count(b: Seq<u8>, meta: Option<&crate::meta::MetaMap>, tables: Seq<TableInfo>, i: int)
    requires
        crate::parse::tables_parsed(b, meta, tables),
        0 <= i < tables.len(),
        tables[i].n_written_records < tables[i].n_records_slot,
    ensures
        u16le(b, tables[i].start + 22) == tables[i].n_written_records,
{
    reveal(crate::parse::table_parsed);
    assert(crate::parse::table_parsed(
        b,
        crate::parse::spec_table_start(b, i),
        crate::parse::spec_table_end(b, i),
        crate::parse::spec_entries(b)[i].0,
        meta,
        tables[i],
    ));
}

} // verus!
