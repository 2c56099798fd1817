//! Tab-separated export and import of whole tables.
//!
//! An exported table is a header line (`#`, then the field names) and one line per live
//! record (its index, then one cell per field), each line ending in `\r\n`. Backslash,
//! newline, carriage return and tab inside a cell are written as `\\`, `\n`, `\r`, `\t`.
//! Float cells are formatted and parsed by functions the caller supplies, so that the
//! library itself handles no floating-point value.
use vstd::prelude::*;
use vstd::string::StringSliceAdditionalSpecFns;
use vstd::utf8::encode_utf8;

use crate::error::{Result, SquadError};
use crate::fields::{compressed_text_bytes, field_value_is, record_start};
use crate::codec::{bits_value, until_nul};
use crate::model::{first_field_from, field_answers_to, FieldDescriptor, FieldType, FieldValue, TableInfo};
use crate::parse::u32le;
use crate::squad::SquadFile;
use crate::edit::spec_write;
use crate::text::{lossy_string, parse_i64_bytes, spec_parse_int, trim, trimmed, i64_to_string, int_decimal, nat_decimal, push_char, push_str, push_u64, to_owned_string, utf8_text};

verus! {

/// The name of the first column, which holds the record index.
pub const INDEX_COLUMN: &'static str = "#";

// ---------------------------------------------------------------------------------------
// Escaping of cells
// ---------------------------------------------------------------------------------------

/// How one character is written inside a cell.
pub open spec fn escaped_char(c: char) -> Seq<char> {
    if c == '\\' {
        seq!['\\', '\\']
    } else if c == '\n' {
        seq!['\\', 'n']
    } else if c == '\r' {
        seq!['\\', 'r']
    } else if c == '\t' {
        seq!['\\', 't']
    } else {
        seq![c]
    }
}

/// How a text is written inside a cell.
pub open spec fn escaped(s: Seq<char>) -> Seq<char>
    decreases s.len(),
{
    if s.len() == 0 {
        Seq::empty()
    } else {
        escaped(s.drop_last()) + escaped_char(s.last())
    }
}

/// What the character after a backslash stands for.
pub open spec fn escape_meaning(c: char) -> Seq<char> {
    if c == 'n' {
        seq!['\n']
    } else if c == 'r' {
        seq!['\r']
    } else if c == 't' {
        seq!['\t']
    } else if c == '\\' {
        seq!['\\']
    } else {
        seq!['\\', c]
    }
}

/// The text that a cell stands for, read from `s` on, when a backslash is `pending` before
/// it. A backslash before an unknown character, or at the end, stands for itself.
pub open spec fn unescaped_from(s: Seq<char>, pending: bool) -> Seq<char>
    decreases s.len(),
{
    if s.len() == 0 {
        if pending {
            seq!['\\']
        } else {
            Seq::empty()
        }
    } else if pending {
        escape_meaning(s[0]) + unescaped_from(s.drop_first(), false)
    } else if s[0] == '\\' {
        unescaped_from(s.drop_first(), true)
    } else {
        seq![s[0]] + unescaped_from(s.drop_first(), false)
    }
}

/// The text that a cell stands for.
pub open spec fn unescaped(s: Seq<char>) -> Seq<char> {
    unescaped_from(s, false)
}

/// Escaping a text is escaping its first character, then the rest.
proof fn lemma_escaped_cons(c: char, rest: Seq<char>)
    ensures
        escaped(seq![c] + rest) == escaped_char(c) + escaped(rest),
    decreases rest.len(),
{
    let s = seq![c] + rest;
    if rest.len() == 0 {
        assert(s.drop_last() =~= Seq::<char>::empty());
        assert(s.last() == c);
        assert(escaped(s.drop_last()) =~= Seq::<char>::empty());
        assert(escaped(s) =~= escaped_char(c));
        assert(escaped_char(c) + escaped(rest) =~= escaped_char(c));
    } else {
        assert(s.drop_last() =~= seq![c] + rest.drop_last());
        lemma_escaped_cons(c, rest.drop_last());
        assert(escaped(s) =~= escaped_char(c) + escaped(rest.drop_last()) + escaped_char(rest.last()));
    }
}

/// An escaped text holds no tab, newline or carriage return.
pub proof fn lemma_escaped_has_no_separators(s: Seq<char>)
    ensures
        forall|i: int|
            0 <= i < escaped(s).len() ==> #[trigger] escaped(s)[i] != '\t' && escaped(s)[i] != '\n'
                && escaped(s)[i] != '\r',
    decreases s.len(),
{
    if s.len() > 0 {
        lemma_escaped_has_no_separators(s.drop_last());
        let a = escaped(s.drop_last());
        let b = escaped_char(s.last());
        assert forall|i: int| 0 <= i < escaped(s).len() implies #[trigger] escaped(s)[i] != '\t'
            && escaped(s)[i] != '\n' && escaped(s)[i] != '\r' by {
            if i >= a.len() {
                assert(escaped(s)[i] == b[i - a.len()]);
            } else {
                assert(escaped(s)[i] == a[i]);
            }
        }
    }
}

/// Unescaping an escaped text gives the text back.
pub proof fn law_unescape_inverts_escape(s: Seq<char>)
    ensures
        unescaped(escaped(s)) == s,
    decreases s.len(),
{
    if s.len() == 0 {
        assert(escaped(s) =~= Seq::<char>::empty());
    } else {
        let c = s[0];
        let rest = s.drop_first();
        assert(s =~= seq![c] + rest);
        lemma_escaped_cons(c, rest);
        law_unescape_inverts_escape(rest);
        let er = escaped(rest);
        let e = escaped_char(c) + er;
        if c == '\\' || c == '\n' || c == '\r' || c == '\t' {
            let x = escaped_char(c)[1];
            assert(e.drop_first() =~= seq![x] + er);
            assert((seq![x] + er).drop_first() =~= er);
            assert(unescaped_from(seq![x] + er, true) == escape_meaning(x) + unescaped_from(er, false));
            assert(escape_meaning(x) =~= seq![c]);
        } else {
            assert(e.drop_first() =~= er);
        }
        assert(unescaped(e) =~= seq![c] + rest);
    }
}

/// Escapes backslash, newline, carriage return and tab in a cell.
pub fn escape_cell(s: &str) -> (out: String)
    ensures
        out@ == escaped(s@),
{
    let n = s.unicode_len();
    let mut out = String::new();
    let mut i: usize = 0;
    while i < n
        invariant
            n == s@.len(),
            i <= n,
            out@ == escaped(s@.subrange(0, i as int)),
        decreases n - i,
    {
        let c = s.get_char(i);
        assert(s@.subrange(0, i + 1).drop_last() =~= s@.subrange(0, i as int));
        if c == '\\' {
            push_str(&mut out, "\\\\");
            proof {
                reveal_strlit("\\\\");
            }
        } else if c == '\n' {
            push_str(&mut out, "\\n");
            proof {
                reveal_strlit("\\n");
            }
        } else if c == '\r' {
            push_str(&mut out, "\\r");
            proof {
                reveal_strlit("\\r");
            }
        } else if c == '\t' {
            push_str(&mut out, "\\t");
            proof {
                reveal_strlit("\\t");
            }
        } else {
            push_char(&mut out, c);
        }
        assert(out@ =~= escaped(s@.subrange(0, i + 1)));
        i = i + 1;
    }
    assert(s@.subrange(0, n as int) =~= s@);
    out
}

/// Reads back a cell written by [`escape_cell`]; a backslash before any other character, or at
/// the end, is kept as it is.
pub fn unescape_cell(s: &str) -> (out: String)
    ensures
        out@ == unescaped(s@),
{
    let n = s.unicode_len();
    let mut out = String::new();
    let mut pending = false;
    let mut i: usize = 0;
    assert(s@.skip(0) =~= s@);
    assert(out@ + unescaped_from(s@.skip(0), false) =~= unescaped(s@));
    while i < n
        invariant
            n == s@.len(),
            i <= n,
            out@ + unescaped_from(s@.skip(i as int), pending) == unescaped(s@),
        decreases n - i,
    {
        let c = s.get_char(i);
        let ghost before = out@;
        assert(s@.skip(i as int).drop_first() =~= s@.skip(i + 1));
        assert(s@.skip(i as int)[0] == c);
        if pending {
            if c == 'n' {
                push_char(&mut out, '\n');
            } else if c == 'r' {
                push_char(&mut out, '\r');
            } else if c == 't' {
                push_char(&mut out, '\t');
            } else if c == '\\' {
                push_char(&mut out, '\\');
            } else {
                push_char(&mut out, '\\');
                push_char(&mut out, c);
            }
            pending = false;
            assert(out@ =~= before + escape_meaning(c));
        } else if c == '\\' {
            pending = true;
        } else {
            push_char(&mut out, c);
        }
        assert(out@ + unescaped_from(s@.skip(i + 1), pending) =~= unescaped(s@));
        i = i + 1;
    }
    if pending {
        push_char(&mut out, '\\');
    }
    assert(out@ =~= unescaped(s@));
    out
}

// ---------------------------------------------------------------------------------------
// Export
// ---------------------------------------------------------------------------------------

/// `g` gives what `f` returns for every float: the formatter is a function of the bits.
pub open spec fn formats<F: Fn(u32) -> String>(f: &F, g: spec_fn(u32) -> Seq<char>) -> bool {
    forall|b: u32, s: String| call_ensures(*f, (b,), s) ==> s@ == g(b)
}

/// The field that column `j` of `t` reads: the first field that answers to the name of field `j`.
pub open spec fn column_field(t: TableInfo, j: int) -> FieldDescriptor {
    t.fields@[first_field_from(t.fields@, t.fields@[j].name@, 0).unwrap()]
}

/// The text of the cell of field `f` in record `idx`, with floats formatted by `g`.
pub open spec fn cell_text(buf: Seq<u8>, t: TableInfo, f: FieldDescriptor, idx: int, g: spec_fn(u32) -> Seq<char>) -> Seq<char> {
    let rs = record_start(t, idx);
    let bo8 = f.bit_offset as int / 8;
    match f.field_type {
        FieldType::Integer => int_decimal(
            ((bits_value(buf.skip(rs), f.bit_offset as int, f.depth as nat) + f.rangelow) as i64) as int,
        ),
        FieldType::Float => g(u32le(buf, rs + bo8)),
        FieldType::String => utf8_text(until_nul(buf.subrange(rs + bo8, rs + bo8 + f.depth as int / 8))),
        FieldType::ShortCompressedString | FieldType::LongCompressedString => utf8_text(
            compressed_text_bytes(buf, t, f, idx),
        ),
        FieldType::Unknown(_) => Seq::empty(),
    }
}

/// The header line without its line end: `#`, then a tab and the name of each of the first
/// `k` fields.
pub open spec fn header_text(fields: Seq<FieldDescriptor>, k: int) -> Seq<char>
    decreases k,
{
    if k <= 0 {
        seq!['#']
    } else {
        header_text(fields, k - 1) + seq!['\t'] + fields[k - 1].name@
    }
}

/// Record `idx`'s line up to its first `j` cells, without the line end.
pub open spec fn row_text(buf: Seq<u8>, t: TableInfo, idx: int, j: int, g: spec_fn(u32) -> Seq<char>) -> Seq<char>
    decreases j,
{
    if j <= 0 {
        nat_decimal(idx as nat)
    } else {
        row_text(buf, t, idx, j - 1, g) + seq!['\t'] + escaped(cell_text(buf, t, column_field(t, j - 1), idx, g))
    }
}

/// The line end of every exported line.
pub open spec fn crlf() -> Seq<char> {
    seq!['\r', '\n']
}

/// The lines of the first `k` records.
pub open spec fn rows_text(buf: Seq<u8>, t: TableInfo, k: int, g: spec_fn(u32) -> Seq<char>) -> Seq<char>
    decreases k,
{
    if k <= 0 {
        Seq::empty()
    } else {
        rows_text(buf, t, k - 1, g) + row_text(buf, t, k - 1, t.fields@.len() as int, g) + crlf()
    }
}

/// The exported text of table `t`.
pub open spec fn export_text(buf: Seq<u8>, t: TableInfo, g: spec_fn(u32) -> Seq<char>) -> Seq<char> {
    header_text(t.fields@, t.fields@.len() as int) + crlf() + rows_text(buf, t, t.n_written_records as int, g)
}

/// The first column from `from` on whose field has a type that cannot be read.
pub open spec fn first_unreadable_column(t: TableInfo, from: int) -> Option<int>
    decreases t.fields@.len() - from,
{
    if from < 0 || from >= t.fields@.len() {
        None
    } else if column_field(t, from).field_type is Unknown {
        Some(from)
    } else {
        first_unreadable_column(t, from + 1)
    }
}

/// Every field of every live record of table `ts` can be read by its name.
pub open spec fn table_readable(squad: SquadFile, ts: Seq<char>) -> bool {
    match squad.spec_table_index(ts) {
        Some(ti) => {
            let t = squad.tables@[ti];
            forall|k: int, j: int|
                0 <= k < t.n_written_records && 0 <= j < t.fields@.len() ==> #[trigger] squad.can_read(
                    ts,
                    k,
                    t.fields@[j].name@,
                )
        },
        None => true,
    }
}

/// A field's own name finds a field no later than it.
pub proof fn lemma_own_name_found(fields: Seq<FieldDescriptor>, j: int, from: int)
    requires
        0 <= from <= j < fields.len(),
    ensures
        first_field_from(fields, fields[j].name@, from) matches Some(i) && from <= i <= j
            && i < fields.len(),
    decreases j - from,
{
    if !field_answers_to(fields[from], fields[j].name@) {
        lemma_own_name_found(fields, j, from + 1);
    }
}

proof fn lemma_first_unreadable_bounds(t: TableInfo, from: int)
    requires
        0 <= from,
    ensures
        first_unreadable_column(t, from) matches Some(j) ==> from <= j < t.fields@.len()
            && column_field(t, j).field_type is Unknown && forall|x: int|
            from <= x < j ==> !(#[trigger] column_field(t, x).field_type is Unknown),
        first_unreadable_column(t, from) is None ==> forall|j: int|
            from <= j < t.fields@.len() ==> !(#[trigger] column_field(t, j).field_type is Unknown),
    decreases t.fields@.len() - from,
{
    if from < t.fields@.len() {
        lemma_first_unreadable_bounds(t, from + 1);
    }
}

/// A value read from a field is written as that field's cell text.
pub proof fn lemma_cell_text_of_value(buf: Seq<u8>, t: TableInfo, f: FieldDescriptor, idx: int, v: FieldValue, s: Seq<char>, g: spec_fn(u32) -> Seq<char>)
    requires
        field_value_is(buf, t, f, idx, v),
        match v {
            FieldValue::Int(i) => s == int_decimal(i as int),
            FieldValue::Float(b) => s == g(b),
            FieldValue::Str(x) => s == x@,
        },
    ensures
        s == cell_text(buf, t, f, idx, g),
{
}

/// A value read from a field is written as that field's cell text.
proof fn lemma_value_text(buf: Seq<u8>, t: TableInfo, f: FieldDescriptor, idx: int, v: FieldValue, s: Seq<char>, g: spec_fn(u32) -> Seq<char>)
    requires
        field_value_is(buf, t, f, idx, v),
        match v {
            FieldValue::Int(i) => s == int_decimal(i as int),
            FieldValue::Float(b) => s == g(b),
            FieldValue::Str(x) => s == x@,
        },
    ensures
        s == cell_text(buf, t, f, idx, g),
{
}

/// The text of a value: decimal for an integer, the formatter's text for a float, the
/// string itself.
fn field_value_to_cell<F: Fn(u32) -> String>(value: &FieldValue, float_text: &F) -> (r: String)
    requires
        forall|b: u32| call_requires(*float_text, (b,)),
    ensures
        match value {
            FieldValue::Int(v) => r@ == int_decimal(*v as int),
            FieldValue::Float(b) => call_ensures(*float_text, (*b,), r),
            FieldValue::Str(s) => r@ == s@,
        },
{
    match value {
        FieldValue::Int(v) => i64_to_string(*v),
        FieldValue::Float(b) => float_text(*b),
        FieldValue::Str(s) => s.clone(),
    }
}

/// Exports the live records of table `table_shortname` as tab-separated text, formatting
/// float cells with `float_text`.
pub fn export_table<F: Fn(u32) -> String>(squad: &SquadFile, table_shortname: &str, float_text: &F) -> (r: Result<String>)
    requires
        squad.wf(),
        table_readable(*squad, table_shortname@),
        forall|b: u32| call_requires(*float_text, (b,)),
    ensures
        match squad.spec_table_index(table_shortname@) {
            None => r matches Err(SquadError::UnknownTable(s)) && s@ == table_shortname@,
            Some(ti) => {
                let t = squad.tables@[ti];
                match first_unreadable_column(t, 0) {
                    Some(j) if t.n_written_records > 0 => r matches Err(
                        SquadError::WrongFieldType { field, actual, expected },
                    ) && field@ == t.fields@[j].name@ && actual == column_field(t, j).field_type
                        && expected == FieldType::Integer,
                    _ => r matches Ok(s) && forall|g: spec_fn(u32) -> Seq<char>|
                        #[trigger] formats(float_text, g) ==> s@ == export_text(squad.buf@, t, g),
                }
            },
        },
{
    let tpos = match squad.table_position(table_shortname) {
        Some(i) => i,
        None => return Err(SquadError::UnknownTable(to_owned_string(table_shortname))),
    };
    let table = &squad.tables[tpos];
    let ghost ti = tpos as int;
    assert(crate::squad::table_wf(*table, squad.buf@.len() as int));
    let ghost t = *table;
    let ghost buf = squad.buf@;
    let nf = table.fields.len();
    let mut out = String::new();
    push_str(&mut out, INDEX_COLUMN);
    proof {
        reveal_strlit("#");
    }
    let mut j: usize = 0;
    while j < nf
        invariant
            nf == t.fields@.len(),
            *table == t,
            j <= nf,
            out@ == header_text(t.fields@, j as int),
        decreases nf - j,
    {
        push_char(&mut out, '\t');
        push_str(&mut out, table.fields[j].name.as_str());
        j = j + 1;
    }
    push_str(&mut out, "\r\n");
    proof {
        reveal_strlit("\r\n");
        lemma_first_unreadable_bounds(t, 0);
    }
    let indices = squad.written_record_indices(table_shortname);
    let mut k: usize = 0;
    while k < indices.len()
        invariant
            squad.wf(),
            table_readable(*squad, table_shortname@),
            forall|b: u32| call_requires(*float_text, (b,)),
            squad.spec_table_index(table_shortname@) == Some(ti),
            t == squad.tables@[ti],
            0 <= ti < squad.tables@.len(),
            *table == t,
            buf == squad.buf@,
            nf == t.fields@.len(),
            t.n_written_records <= t.n_records_slot,
            indices@.len() == t.n_written_records,
            forall|x: int| 0 <= x < indices@.len() ==> #[trigger] indices@[x] == x,
            k <= indices@.len(),
            k > 0 ==> first_unreadable_column(t, 0) is None,
            first_unreadable_column(t, 0) is None ==> forall|j: int|
                0 <= j < t.fields@.len() ==> !(#[trigger] column_field(t, j).field_type is Unknown),
            forall|g: spec_fn(u32) -> Seq<char>|
                #[trigger] formats(float_text, g) ==> out@ == header_text(t.fields@, nf as int)
                    + crlf() + rows_text(buf, t, k as int, g),
        decreases indices@.len() - k,
    {
        let idx = indices[k];
        let ghost line_start = out@;
        push_u64(&mut out, idx as u64);
        let mut j: usize = 0;
        while j < nf
            invariant
                squad.wf(),
                table_readable(*squad, table_shortname@),
                forall|b: u32| call_requires(*float_text, (b,)),
                squad.spec_table_index(table_shortname@) == Some(ti),
                t == squad.tables@[ti],
                0 <= ti < squad.tables@.len(),
                *table == t,
                buf == squad.buf@,
                nf == t.fields@.len(),
                idx == k,
                k < t.n_written_records,
                j <= nf,
                first_unreadable_column(t, 0) is None ==> forall|j: int|
                    0 <= j < t.fields@.len() ==> !(#[trigger] column_field(t, j).field_type is Unknown),
                k > 0 ==> first_unreadable_column(t, 0) is None,
                j > 0 ==> first_unreadable_column(t, 0) is None || first_unreadable_column(t, 0).unwrap() >= j,
                t.n_written_records <= t.n_records_slot,
                forall|g: spec_fn(u32) -> Seq<char>|
                    #[trigger] formats(float_text, g) ==> out@ == line_start + row_text(buf, t, k as int, j as int, g),
                forall|g: spec_fn(u32) -> Seq<char>|
                    #[trigger] formats(float_text, g) ==> line_start == header_text(t.fields@, nf as int)
                        + crlf() + rows_text(buf, t, k as int, g),
            decreases nf - j,
        {
            let field = &table.fields[j];
            proof {
                lemma_own_name_found(t.fields@, j as int, 0);
                assert(squad.can_read(table_shortname@, k as int, t.fields@[j as int].name@));
            }
            let value = match squad.get_field(table_shortname, idx, field.name.as_str()) {
                Ok(v) => v,
                Err(e) => {
                    proof {
                        lemma_first_unreadable_bounds(t, 0);
                        assert(column_field(t, j as int).field_type is Unknown);
                        assert(first_unreadable_column(t, 0) == Some(j as int));
                    }
                    return Err(e);
                },
            };
            let text = field_value_to_cell(&value, float_text);
            let esc = escape_cell(text.as_str());
            let ghost before = out@;
            push_char(&mut out, '\t');
            push_str(&mut out, esc.as_str());
            proof {
                let f = column_field(t, j as int);
                assert forall|g: spec_fn(u32) -> Seq<char>| #[trigger] formats(float_text, g) implies out@
                    == line_start + row_text(buf, t, k as int, j + 1, g) by {
                    lemma_value_text(buf, t, f, k as int, value, text@, g);
                    assert(out@ =~= line_start + row_text(buf, t, k as int, j + 1, g));
                }
                lemma_first_unreadable_bounds(t, 0);
                match first_unreadable_column(t, 0) {
                    Some(u) => {
                        if u == j {
                            assert(column_field(t, j as int).field_type is Unknown);
                        }
                    },
                    None => {},
                }
            }
            j = j + 1;
        }
        push_str(&mut out, "\r\n");
        proof {
            reveal_strlit("\r\n");
            lemma_first_unreadable_bounds(t, 0);
            assert forall|g: spec_fn(u32) -> Seq<char>| #[trigger] formats(float_text, g) implies out@
                == header_text(t.fields@, nf as int) + crlf() + rows_text(buf, t, k + 1, g) by {
                assert(out@ =~= header_text(t.fields@, nf as int) + crlf() + rows_text(buf, t, k + 1, g));
            }
        }
        k = k + 1;
    }
    Ok(out)
}

// ---------------------------------------------------------------------------------------
// Lines and cells of imported text
// ---------------------------------------------------------------------------------------

/// The position of the first byte `x` at or after `from`, or the length.
pub open spec fn next_byte(b: Seq<u8>, from: int, x: u8) -> int
    decreases b.len() - from,
{
    if from < 0 || from >= b.len() {
        b.len() as int
    } else if b[from] == x {
        from
    } else {
        next_byte(b, from + 1, x)
    }
}

pub proof fn lemma_next_byte(b: Seq<u8>, from: int, x: u8)
    requires
        0 <= from,
    ensures
        from <= b.len() ==> from <= next_byte(b, from, x) <= b.len(),
        from > b.len() ==> next_byte(b, from, x) == b.len(),
        next_byte(b, from, x) < b.len() ==> b[next_byte(b, from, x)] == x,
        forall|k: int| from <= k < next_byte(b, from, x) ==> #[trigger] b[k] != x,
    decreases b.len() - from,
{
    if from < b.len() && b[from] != x {
        lemma_next_byte(b, from + 1, x);
    }
}

/// The line that starts at `from`: up to the next newline, without a carriage return just
/// before it.
pub open spec fn line_at(b: Seq<u8>, from: int) -> Seq<u8> {
    let e = next_byte(b, from, 10);
    if from < e && e < b.len() && b[e - 1] == 13 {
        b.subrange(from, e - 1)
    } else {
        b.subrange(from, e)
    }
}

/// The lines from `from` on, as `str::lines` gives them: a final line end adds no empty line.
pub open spec fn lines_from(b: Seq<u8>, from: int) -> Seq<Seq<u8>>
    decreases b.len() + 1 - from,
{
    if from < 0 || from >= b.len() {
        Seq::empty()
    } else {
        proof {
            lemma_next_byte(b, from, 10);
        }
        seq![line_at(b, from)] + lines_from(b, next_byte(b, from, 10) + 1)
    }
}

/// The tab-separated cells of `line` from `from` on; there is always at least one.
pub open spec fn cells_from(line: Seq<u8>, from: int) -> Seq<Seq<u8>>
    decreases line.len() - from,
{
    if from < 0 || from > line.len() {
        seq![Seq::empty()]
    } else {
        proof {
            lemma_next_byte(line, from, 9);
        }
        let e = next_byte(line, from, 9);
        if e >= line.len() {
            seq![line.subrange(from, line.len() as int)]
        } else {
            seq![line.subrange(from, e)] + cells_from(line, e + 1)
        }
    }
}

/// The cells of a line.
pub open spec fn cells(line: Seq<u8>) -> Seq<Seq<u8>> {
    cells_from(line, 0)
}

/// A line has at most one cell more than it has bytes.
proof fn lemma_cells_count(line: Seq<u8>, from: int)
    requires
        0 <= from <= line.len(),
    ensures
        1 <= cells_from(line, from).len() <= line.len() - from + 1,
    decreases line.len() - from,
{
    lemma_next_byte(line, from, 9);
    let e = next_byte(line, from, 9);
    if e < line.len() {
        lemma_cells_count(line, e + 1);
    }
}

/// The number of lines is at most the number of bytes.
proof fn lemma_lines_count(b: Seq<u8>, from: int)
    requires
        0 <= from,
    ensures
        lines_from(b, from).len() <= if from <= b.len() { b.len() - from } else { 0 },
    decreases b.len() + 1 - from,
{
    if from < b.len() {
        lemma_next_byte(b, from, 10);
        lemma_lines_count(b, next_byte(b, from, 10) + 1);
    }
}

/// The position of the first byte `x` at or after `from`, or the length.
pub(crate) fn next_byte_exec(b: &[u8], from: usize, x: u8) -> (r: usize)
    requires
        from <= b@.len(),
    ensures
        r == next_byte(b@, from as int, x),
        from <= r <= b@.len(),
{
    proof {
        lemma_next_byte(b@, from as int, x);
    }
    let mut i = from;
    while i < b.len()
        invariant
            from <= i <= b@.len(),
            next_byte(b@, from as int, x) == next_byte(b@, i as int, x),
        decreases b@.len() - i,
    {
        if b[i] == x {
            return i;
        }
        i = i + 1;
    }
    i
}

/// The texts of the tab-separated cells of `line`.
fn split_cells(line: &[u8]) -> (v: Vec<String>)
    ensures
        v@.len() == cells(line@).len(),
        forall|k: int| 0 <= k < v@.len() ==> #[trigger] v@[k]@ == utf8_text(cells(line@)[k]),
{
    let mut v: Vec<String> = Vec::new();
    let mut from: usize = 0;
    assert(cells(line@) =~= cells(line@).take(0) + cells_from(line@, 0));
    loop
        invariant_except_break
            from <= line@.len(),
            v@.len() + cells_from(line@, from as int).len() == cells(line@).len(),
            cells(line@) =~= cells(line@).take(v@.len() as int) + cells_from(line@, from as int),
            forall|k: int| 0 <= k < v@.len() ==> #[trigger] v@[k]@ == utf8_text(cells(line@)[k]),
        ensures
            v@.len() == cells(line@).len(),
            forall|k: int| 0 <= k < v@.len() ==> #[trigger] v@[k]@ == utf8_text(cells(line@)[k]),
        decreases line@.len() - from,
    {
        let e = next_byte_exec(line, from, 9);
        let ghost n = v@.len() as int;
        let ghost rest = cells_from(line@, from as int);
        proof {
            lemma_cells_count(line@, from as int);
        }
        if e >= line.len() {
            let text = lossy_string(&line[from..line.len()]);
            v.push(text);
            assert(rest =~= seq![line@.subrange(from as int, line@.len() as int)]);
            assert(cells(line@)[n] == rest[0]);
            break;
        }
        let text = lossy_string(&line[from..e]);
        v.push(text);
        assert(rest =~= seq![line@.subrange(from as int, e as int)] + cells_from(line@, e + 1));
        assert(cells(line@)[n] == rest[0]);
        assert(cells(line@) =~= cells(line@).take(n + 1) + cells_from(line@, e + 1));
        from = e + 1;
    }
    v
}

// ---------------------------------------------------------------------------------------
// Import
// ---------------------------------------------------------------------------------------

/// What an import did: cells written, cells refused, rows skipped for a missing or out of
/// range index, and the header's columns that name no field.
#[derive(Debug, Clone)]
pub struct ImportReport {
    pub cells_updated: usize,
    pub cells_failed: usize,
    pub rows_skipped: usize,
    pub unknown_columns: Vec<String>,
}

impl Default for ImportReport {
    fn default() -> (r: Self)
        ensures
            r.cells_updated == 0,
            r.cells_failed == 0,
            r.rows_skipped == 0,
            r.unknown_columns@.len() == 0,
    {
        ImportReport { cells_updated: 0, cells_failed: 0, rows_skipped: 0, unknown_columns: Vec::new() }
    }
}

/// The texts of a list of strings.
pub open spec fn texts(v: Seq<String>) -> Seq<Seq<char>> {
    v.map_values(|s: String| s@)
}

/// `names` followed by each name of `more` (the first `k` of them) that is not there yet.
pub open spec fn merged_names(names: Seq<Seq<char>>, more: Seq<Seq<char>>, k: int) -> Seq<Seq<char>>
    decreases k,
{
    if k <= 0 {
        names
    } else {
        let prev = merged_names(names, more, k - 1);
        if prev.contains(more[k - 1]) {
            prev
        } else {
            prev.push(more[k - 1])
        }
    }
}

/// Whether `s` is among `v`, compared as text.
fn contains_text(v: &Vec<String>, s: &str) -> (r: bool)
    ensures
        r == texts(v@).contains(s@),
{
    let mut i: usize = 0;
    while i < v.len()
        invariant
            i <= v@.len(),
            forall|k: int| 0 <= k < i ==> #[trigger] v@[k]@ != s@,
        decreases v@.len() - i,
    {
        if crate::text::str_eq(v[i].as_str(), s) {
            assert(texts(v@)[i as int] == s@);
            return true;
        }
        i = i + 1;
    }
    proof {
        if texts(v@).contains(s@) {
            let k = choose|k: int| 0 <= k < texts(v@).len() && texts(v@)[k] == s@;
            assert(v@[k]@ == s@);
        }
    }
    false
}

impl ImportReport {
    /// Adds the counts of `other` and the unknown columns that are not listed yet.
    fn merge(&mut self, other: ImportReport)
        requires
            old(self).cells_updated + other.cells_updated <= usize::MAX,
            old(self).cells_failed + other.cells_failed <= usize::MAX,
            old(self).rows_skipped + other.rows_skipped <= usize::MAX,
        ensures
            final(self).cells_updated == old(self).cells_updated + other.cells_updated,
            final(self).cells_failed == old(self).cells_failed + other.cells_failed,
            final(self).rows_skipped == old(self).rows_skipped + other.rows_skipped,
            texts(final(self).unknown_columns@) == merged_names(
                texts(old(self).unknown_columns@),
                texts(other.unknown_columns@),
                other.unknown_columns@.len() as int,
            ),
    {
        let ghost start = texts(self.unknown_columns@);
        let ghost more = texts(other.unknown_columns@);
        let mut i: usize = 0;
        while i < other.unknown_columns.len()
            invariant
                i <= other.unknown_columns@.len(),
                more == texts(other.unknown_columns@),
                texts(self.unknown_columns@) == merged_names(start, more, i as int),
                self.cells_updated == old(self).cells_updated,
                self.cells_failed == old(self).cells_failed,
                self.rows_skipped == old(self).rows_skipped,
            decreases other.unknown_columns@.len() - i,
        {
            let c = &other.unknown_columns[i];
            if !contains_text(&self.unknown_columns, c.as_str()) {
                self.unknown_columns.push(c.clone());
                assert(texts(self.unknown_columns@) =~= merged_names(start, more, i + 1));
            }
            i = i + 1;
        }
        self.cells_updated = self.cells_updated + other.cells_updated;
        self.cells_failed = self.cells_failed + other.cells_failed;
        self.rows_skipped = self.rows_skipped + other.rows_skipped;
    }
}

/// `h` gives what `f` returns for every text: the parser is a function of the text.
pub open spec fn parses<P: Fn(&str) -> Option<u32>>(f: &P, h: spec_fn(Seq<char>) -> Option<u32>) -> bool {
    forall|s: &str, r: Option<u32>| call_ensures(*f, (s,), r) ==> r == h(s@)
}

/// The text of a string value.
pub open spec fn str_text(v: FieldValue) -> Option<Seq<char>> {
    match v {
        FieldValue::Str(s) => Some(s@),
        _ => None,
    }
}

/// A string value with text `text`.
pub open spec fn str_value(text: Seq<char>) -> FieldValue {
    choose|v: FieldValue| #[trigger] str_text(v) == Some(text)
}

/// The integer a cell's text stands for: its trimmed text read as a decimal `i64`.
pub open spec fn int_text_value(text: Seq<char>) -> Option<FieldValue> {
    match spec_parse_int(encode_utf8(trimmed(text)), i64::MIN as int, i64::MAX as int) {
        Some(v) => Some(FieldValue::Int(v as i64)),
        None => None,
    }
}

/// The value a cell's text stands for in a field of type `ft`: a trimmed decimal integer, a
/// trimmed float read by `h`, or the text itself; compressed and unknown fields take none.
pub open spec fn cell_value(ft: FieldType, text: Seq<char>, h: spec_fn(Seq<char>) -> Option<u32>) -> Option<FieldValue> {
    match ft {
        FieldType::Integer => int_text_value(text),
        FieldType::Float => match h(trimmed(text)) {
            Some(b) => Some(FieldValue::Float(b)),
            None => None,
        },
        FieldType::String => Some(str_value(text)),
        _ => None,
    }
}

/// Reads a cell's text as a value of type `field_type`.
pub(crate) fn parse_cell_value<P: Fn(&str) -> Option<u32>>(field_type: FieldType, cell: &str, parse_float: &P) -> (r: Option<FieldValue>)
    requires
        forall|s: &str| call_requires(*parse_float, (s,)),
    ensures
        field_type == FieldType::String ==> (r matches Some(FieldValue::Str(s)) && s@ == cell@),
        field_type == FieldType::Integer ==> r == int_text_value(cell@),
        field_type != FieldType::String ==> forall|h: spec_fn(Seq<char>) -> Option<u32>|
            #[trigger] parses(parse_float, h) ==> r == cell_value(field_type, cell@, h),
{
    match field_type {
        FieldType::Integer => match parse_i64_bytes(trim(cell).as_bytes()) {
            Some(v) => Some(FieldValue::Int(v)),
            None => None,
        },
        FieldType::Float => match parse_float(trim(cell)) {
            Some(b) => Some(FieldValue::Float(b)),
            None => None,
        },
        FieldType::String => Some(FieldValue::Str(to_owned_string(cell))),
        _ => None,
    }
}

/// The bytes and counts after the cells of columns `1..=k` of a row are written to record
/// `idx`: the bytes, the cells written and the cells refused.
pub open spec fn row_fold(
    tables: Seq<TableInfo>,
    buf: Seq<u8>,
    ts: Seq<char>,
    t: TableInfo,
    idx: int,
    cols: Seq<Seq<u8>>,
    cs: Seq<Seq<u8>>,
    k: int,
    h: spec_fn(Seq<char>) -> Option<u32>,
) -> (Seq<u8>, int, int)
    decreases k,
{
    if k <= 0 {
        (buf, 0, 0)
    } else {
        let p = row_fold(tables, buf, ts, t, idx, cols, cs, k - 1, h);
        let name = utf8_text(cols[k]);
        match t.spec_field_index(name) {
            None => p,
            Some(fi) => if k >= cs.len() {
                p
            } else {
                match cell_value(t.fields@[fi].field_type, unescaped(utf8_text(cs[k])), h) {
                    Some(v) => {
                        let w = spec_write(tables, p.0, ts, idx, name, v);
                        if w.0 {
                            (w.1, p.1 + 1, p.2)
                        } else {
                            (w.1, p.1, p.2 + 1)
                        }
                    },
                    None => (p.0, p.1, p.2 + 1),
                }
            },
        }
    }
}

/// The bytes and counts after one data row, from the bytes and counts `p` before it (bytes,
/// cells written, cells refused, rows skipped). A blank row is passed over; a row whose first
/// cell is not an index below the table's slot count is skipped.
pub open spec fn line_step(
    tables: Seq<TableInfo>,
    p: (Seq<u8>, int, int, int),
    ts: Seq<char>,
    t: TableInfo,
    cols: Seq<Seq<u8>>,
    line: Seq<u8>,
    h: spec_fn(Seq<char>) -> Option<u32>,
) -> (Seq<u8>, int, int, int) {
    if trimmed(utf8_text(line)).len() == 0 {
        p
    } else {
        let cs = cells(line);
        match spec_parse_int(encode_utf8(trimmed(utf8_text(cs[0]))), 0, usize::MAX as int) {
            Some(i) => if i < t.n_records_slot {
                let r = row_fold(tables, p.0, ts, t, i, cols, cs, cols.len() - 1, h);
                (r.0, p.1 + r.1, p.2 + r.2, p.3)
            } else {
                (p.0, p.1, p.2, p.3 + 1)
            },
            None => (p.0, p.1, p.2, p.3 + 1),
        }
    }
}

/// The bytes and counts after the first `k` data rows.
pub open spec fn rows_fold(
    tables: Seq<TableInfo>,
    buf: Seq<u8>,
    ts: Seq<char>,
    t: TableInfo,
    cols: Seq<Seq<u8>>,
    rows: Seq<Seq<u8>>,
    k: int,
    h: spec_fn(Seq<char>) -> Option<u32>,
) -> (Seq<u8>, int, int, int)
    decreases k,
{
    if k <= 0 {
        (buf, 0, 0, 0)
    } else {
        line_step(tables, rows_fold(tables, buf, ts, t, cols, rows, k - 1, h), ts, t, cols, rows[k - 1], h)
    }
}

/// The names of the columns among `1..=k` that name no field of `t`, in order.
pub open spec fn unknown_cols(t: TableInfo, cols: Seq<Seq<u8>>, k: int) -> Seq<Seq<char>>
    decreases k,
{
    if k <= 0 {
        Seq::empty()
    } else {
        let prev = unknown_cols(t, cols, k - 1);
        if t.spec_field_index(utf8_text(cols[k])) is None {
            prev.push(utf8_text(cols[k]))
        } else {
            prev
        }
    }
}

/// Every field of table `ts` can be written.
pub open spec fn table_importable(squad: SquadFile, ts: Seq<char>) -> bool {
    match squad.spec_table_index(ts) {
        Some(ti) => crate::edit::table_writable(squad.tables@[ti]),
        None => true,
    }
}

/// Writing a string value depends only on its text.
pub proof fn lemma_write_str_view(tables: Seq<TableInfo>, buf: Seq<u8>, ts: Seq<char>, idx: int, name: Seq<char>, v: FieldValue, text: Seq<char>)
    requires
        str_text(v) == Some(text),
    ensures
        spec_write(tables, buf, ts, idx, name, v) == spec_write(tables, buf, ts, idx, name, str_value(text)),
{
    let w = str_value(text);
    assert(str_text(w) == Some(text));
    match crate::edit::table_index_in(tables, ts) {
        Some(ti) => {
            let t = tables[ti];
            match t.spec_field_index(name) {
                Some(fi) => {
                    let f = t.fields@[fi];
                    assert(crate::edit::write_accepted(f, v) == crate::edit::write_accepted(f, w));
                    if 0 <= idx < t.n_records_slot && crate::edit::write_accepted(f, v) {
                        let n = crate::edit::splice(
                            buf,
                            record_start(t, idx) + f.bit_offset as int / 8,
                            crate::codec::nul_padded(encode_utf8(text), f.depth as int / 8),
                        );
                        assert(crate::edit::field_written(buf, n, t, f, idx, v));
                        assert(crate::edit::field_written(buf, n, t, f, idx, w));
                    }
                },
                None => {},
            }
        },
        None => {},
    }
}

/// A line is no longer than the bytes up to its line end, and the lines from a position are that
/// line and the lines after its line end.
pub proof fn lemma_line_len_pub(b: Seq<u8>, from: int)
    requires
        0 <= from < b.len(),
    ensures
        line_at(b, from).len() <= next_byte(b, from, 10) - from,
        lines_from(b, from) == seq![line_at(b, from)] + lines_from(b, next_byte(b, from, 10) + 1),
        next_byte(b, from, 10) >= b.len() ==> lines_from(b, next_byte(b, from, 10) + 1) == lines_from(b, b.len() as int),
        from <= next_byte(b, from, 10) <= b.len(),
{
    lemma_line_len(b, from);
    lemma_next_byte(b, from, 10);
}

/// A line is no longer than the bytes up to its line end.
proof fn lemma_line_len(b: Seq<u8>, from: int)
    requires
        0 <= from < b.len(),
    ensures
        line_at(b, from).len() <= next_byte(b, from, 10) - from,
        lines_from(b, from) == seq![line_at(b, from)] + lines_from(b, next_byte(b, from, 10) + 1),
        next_byte(b, from, 10) >= b.len() ==> lines_from(b, next_byte(b, from, 10) + 1) == lines_from(b, b.len() as int),
{
    lemma_next_byte(b, from, 10);
}

/// The state that an import keeps between rows.
pub open spec fn import_state(squad: SquadFile, report: ImportReport) -> (Seq<u8>, int, int, int) {
    (squad.buf@, report.cells_updated as int, report.cells_failed as int, report.rows_skipped as int)
}

/// The squad's layout is that of `old`; only its bytes may differ.
pub open spec fn same_layout(squad: SquadFile, old: SquadFile) -> bool {
    &&& squad.wf()
    &&& squad.tables == old.tables
    &&& squad.sig_pos == old.sig_pos
    &&& squad.dir_start == old.dir_start
    &&& squad.base == old.base
}

/// The columns of the header, their texts, and which of them name a field of `t`.
pub open spec fn columns_ok(t: TableInfo, cols: Seq<Seq<u8>>, columns: Seq<String>, resolved: Seq<bool>) -> bool {
    &&& cols.len() >= 1
    &&& columns.len() == cols.len()
    &&& forall|x: int| 0 <= x < columns.len() ==> #[trigger] columns[x]@ == utf8_text(cols[x])
    &&& resolved.len() == cols.len()
    &&& forall|x: int| 1 <= x < cols.len() ==> #[trigger] resolved[x] == (t.spec_field_index(utf8_text(cols[x])) is Some)
}

/// Writes the cells of one row into record `idx`.
fn import_row<P: Fn(&str) -> Option<u32>>(
    squad: &mut SquadFile,
    ti: usize,
    table_shortname: &str,
    idx: usize,
    columns: &Vec<String>,
    resolved: &Vec<bool>,
    cs: &Vec<String>,
    parse_float: &P,
    report: &mut ImportReport,
    Ghost(cols): Ghost<Seq<Seq<u8>>>,
    Ghost(cs_v): Ghost<Seq<Seq<u8>>>,
)
    requires
        old(squad).wf(),
        table_importable(*old(squad), table_shortname@),
        forall|s: &str| call_requires(*parse_float, (s,)),
        old(squad).spec_table_index(table_shortname@) == Some(ti as int),
        ti < old(squad).tables@.len(),
        idx < old(squad).tables@[ti as int].n_records_slot,
        columns_ok(old(squad).tables@[ti as int], cols, columns@, resolved@),
        cs@.len() == cs_v.len(),
        cs_v.len() >= 1,
        forall|x: int| 0 <= x < cs@.len() ==> #[trigger] cs@[x]@ == utf8_text(cs_v[x]),
        old(report).cells_updated + old(report).cells_failed + cs_v.len() - 1 <= usize::MAX,
    ensures
        same_layout(*final(squad), *old(squad)),
        final(report).rows_skipped == old(report).rows_skipped,
        final(report).unknown_columns == old(report).unknown_columns,
        final(report).cells_updated + final(report).cells_failed <= old(report).cells_updated
            + old(report).cells_failed + cs_v.len() - 1,
        forall|h: spec_fn(Seq<char>) -> Option<u32>| #[trigger] parses(parse_float, h) ==> {
            let f = row_fold(old(squad).tables@, old(squad).buf@, table_shortname@, old(squad).tables@[ti as int], idx as int, cols, cs_v, cols.len() - 1, h);
            &&& final(squad).buf@ == f.0
            &&& final(report).cells_updated == old(report).cells_updated + f.1
            &&& final(report).cells_failed == old(report).cells_failed + f.2
        },
{
    let ghost tables = squad.tables@;
    let ghost t = tables[ti as int];
    let ghost row_buf = squad.buf@;
    let ghost upd0 = report.cells_updated as int;
    let ghost fail0 = report.cells_failed as int;
    let mut c: usize = 1;
    while c < columns.len()
        invariant
            same_layout(*squad, *old(squad)),
            table_importable(*squad, table_shortname@),
            forall|s: &str| call_requires(*parse_float, (s,)),
            squad.tables@ == tables,
            tables == old(squad).tables@,
            row_buf == old(squad).buf@,
            ti < tables.len(),
            t == tables[ti as int],
            squad.spec_table_index(table_shortname@) == Some(ti as int),
            idx < t.n_records_slot,
            1 <= c <= columns@.len(),
            columns_ok(t, cols, columns@, resolved@),
            cs@.len() == cs_v.len(),
            cs_v.len() >= 1,
            forall|x: int| 0 <= x < cs@.len() ==> #[trigger] cs@[x]@ == utf8_text(cs_v[x]),
            upd0 + fail0 + cs_v.len() - 1 <= usize::MAX,
            report.cells_updated + report.cells_failed <= upd0 + fail0 + (c - 1),
            report.cells_updated + report.cells_failed <= upd0 + fail0 + (cs_v.len() - 1),
            report.rows_skipped == old(report).rows_skipped,
            report.unknown_columns == old(report).unknown_columns,
            upd0 == old(report).cells_updated,
            fail0 == old(report).cells_failed,
            forall|h: spec_fn(Seq<char>) -> Option<u32>| #[trigger] parses(parse_float, h) ==> {
                let f = row_fold(tables, row_buf, table_shortname@, t, idx as int, cols, cs_v, c - 1, h);
                &&& squad.buf@ == f.0
                &&& report.cells_updated == upd0 + f.1
                &&& report.cells_failed == fail0 + f.2
            },
        decreases columns@.len() - c,
    {
        let ghost before = squad.buf@;
        let ghost upd_b = report.cells_updated as int;
        let ghost fail_b = report.cells_failed as int;
        if resolved[c] && c < cs.len() {
            let ghost name = columns@[c as int]@;
            proof {
                crate::model::lemma_first_field_bounds(t.fields@, name, 0);
            }
            let ft = squad.tables[ti].field(columns[c].as_str()).unwrap().field_type;
            let un = unescape_cell(cs[c].as_str());
            let parsed_value = parse_cell_value(ft, un.as_str(), parse_float);
            match parsed_value {
                Some(v) => {
                    let ghost gv = v;
                    proof {
                        let fi = t.spec_field_index(name).unwrap();
                        assert(crate::edit::field_writable(t, t.fields@[fi]));
                    }
                    match squad.set_field_raw(table_shortname, idx, columns[c].as_str(), v) {
                        Ok(()) => {
                            report.cells_updated = report.cells_updated + 1;
                        },
                        Err(_) => {
                            report.cells_failed = report.cells_failed + 1;
                        },
                    }
                    proof {
                        if ft == FieldType::String {
                            lemma_write_str_view(tables, before, table_shortname@, idx as int, name, gv, un@);
                        }
                    }
                },
                None => {
                    report.cells_failed = report.cells_failed + 1;
                },
            }
        }
        c = c + 1;
    }
}

/// Reads one data row into the squad, as [`line_step`] describes.
fn import_line<P: Fn(&str) -> Option<u32>>(
    squad: &mut SquadFile,
    ti: usize,
    table_shortname: &str,
    line: &[u8],
    columns: &Vec<String>,
    resolved: &Vec<bool>,
    parse_float: &P,
    report: &mut ImportReport,
    Ghost(cols): Ghost<Seq<Seq<u8>>>,
)
    requires
        old(squad).wf(),
        table_importable(*old(squad), table_shortname@),
        forall|s: &str| call_requires(*parse_float, (s,)),
        old(squad).spec_table_index(table_shortname@) == Some(ti as int),
        ti < old(squad).tables@.len(),
        columns_ok(old(squad).tables@[ti as int], cols, columns@, resolved@),
        old(report).cells_updated + old(report).cells_failed + old(report).rows_skipped + (if line@.len()
            == 0 {
            1
        } else {
            line@.len() as int
        }) <= usize::MAX,
    ensures
        same_layout(*final(squad), *old(squad)),
        final(report).unknown_columns == old(report).unknown_columns,
        final(report).cells_updated + final(report).cells_failed + final(report).rows_skipped
            <= old(report).cells_updated + old(report).cells_failed + old(report).rows_skipped + if line@.len() == 0 {
            1
        } else {
            line@.len() as int
        },
        forall|h: spec_fn(Seq<char>) -> Option<u32>| #[trigger] parses(parse_float, h) ==> import_state(*final(squad), *final(report))
            == line_step(old(squad).tables@, import_state(*old(squad), *old(report)), table_shortname@, old(squad).tables@[ti as int], cols, line@, h),
{
    let text = lossy_string(line);
    if trim(text.as_str()).is_empty() {
        return;
    }
    let cs = split_cells(line);
    proof {
        lemma_cells_count(line@, 0);
    }
    let first = trim(cs[0].as_str());
    let parsed = crate::text::parse_usize_bytes(first.as_bytes());
    let n_slots = squad.tables[ti].n_records_slot;
    let idx = match parsed {
        Some(i) => i,
        None => n_slots,
    };
    if idx >= n_slots {
        report.rows_skipped = report.rows_skipped + 1;
        return;
    }
    import_row(squad, ti, table_shortname, idx, columns, resolved, &cs, parse_float, report, Ghost(cols), Ghost(cells(line@)));
}

/// Imports tab-separated text into table `table_shortname`: the header names the columns, the
/// first of which must be `#`; each row's first cell is a record index, and each other cell
/// is written into the field its column names. Float cells are read by `parse_float`, which
/// is handed the trimmed cell. The table checksum is refreshed once if any cell was written.
pub fn import_table<P: Fn(&str) -> Option<u32>>(squad: &mut SquadFile, table_shortname: &str, content: &str, parse_float: &P) -> (r: Result<ImportReport>)
    requires
        old(squad).wf(),
        table_importable(*old(squad), table_shortname@),
        forall|s: &str| call_requires(*parse_float, (s,)),
    ensures
        same_layout(*final(squad), *old(squad)),
        r is Err ==> final(squad).buf@ == old(squad).buf@,
        match old(squad).spec_table_index(table_shortname@) {
            None => r matches Err(SquadError::UnknownTable(s)) && s@ == table_shortname@,
            Some(ti) => {
                let t = old(squad).tables@[ti];
                let ls = lines_from(content.spec_bytes(), 0);
                if ls.len() == 0 {
                    r matches Err(SquadError::EmptyImportFile)
                } else if utf8_text(cells(ls[0])[0]) != seq!['#'] {
                    r matches Err(SquadError::MissingIndexColumn)
                } else {
                    let cols = cells(ls[0]);
                    &&& r matches Ok(rep) && texts(rep.unknown_columns@) == unknown_cols(t, cols, cols.len() - 1)
                        && rep.cells_updated + rep.cells_failed + rep.rows_skipped <= content.spec_bytes().len()
                        && forall|h: spec_fn(Seq<char>) -> Option<u32>| #[trigger] parses(parse_float, h) ==> {
                            let f = rows_fold(old(squad).tables@, old(squad).buf@, table_shortname@, t, cols, ls.drop_first(), ls.len() - 1, h);
                            &&& rep.cells_updated == f.1
                            &&& rep.cells_failed == f.2
                            &&& rep.rows_skipped == f.3
                            &&& final(squad).buf@ == if f.1 > 0 { crate::edit::crc_refreshed(f.0, t) } else { f.0 }
                        }
                }
            },
        },
{
    let ti = match squad.table_position(table_shortname) {
        Some(i) => i,
        None => return Err(SquadError::UnknownTable(to_owned_string(table_shortname))),
    };
    let ghost t = squad.tables@[ti as int];
    let ghost tables = squad.tables@;
    let ghost buf0 = squad.buf@;
    let b = content.as_bytes();
    let ghost ls = lines_from(b@, 0);
    if b.len() == 0 {
        return Err(SquadError::EmptyImportFile);
    }
    let e0 = next_byte_exec(b, 0, 10);
    let h_end = if e0 > 0 && e0 < b.len() && b[e0 - 1] == 13 {
        e0 - 1
    } else {
        e0
    };
    proof {
        lemma_line_len(b@, 0);
        assert(b@.subrange(0, h_end as int) == line_at(b@, 0));
        assert(ls[0] == line_at(b@, 0));
    }
    let columns = split_cells(&b[0..h_end]);
    let ghost cols = cells(ls[0]);
    proof {
        assert(b@.subrange(0, h_end as int) == ls[0]);
        lemma_cells_count(ls[0], 0);
        reveal_strlit("#");
        assert("#"@ =~= seq!['#']);
    }
    if !crate::text::str_eq(columns[0].as_str(), "#") {
        return Err(SquadError::MissingIndexColumn);
    }
    let mut report = ImportReport::default();
    let mut resolved: Vec<bool> = Vec::new();
    resolved.push(false);
    let mut c: usize = 1;
    while c < columns.len()
        invariant
            1 <= c <= columns@.len(),
            columns@.len() == cols.len(),
            forall|x: int| 0 <= x < columns@.len() ==> #[trigger] columns@[x]@ == utf8_text(cols[x]),
            squad.tables@ == tables,
            ti < tables.len(),
            t == tables[ti as int],
            resolved@.len() == c,
            forall|x: int| 1 <= x < c ==> #[trigger] resolved@[x] == (t.spec_field_index(utf8_text(cols[x])) is Some),
            texts(report.unknown_columns@) == unknown_cols(t, cols, c - 1),
            report.cells_updated == 0,
            report.cells_failed == 0,
            report.rows_skipped == 0,
        decreases columns@.len() - c,
    {
        if squad.tables[ti].field(columns[c].as_str()).is_some() {
            resolved.push(true);
        } else {
            report.unknown_columns.push(columns[c].clone());
            resolved.push(false);
        }
        assert(texts(report.unknown_columns@) =~= unknown_cols(t, cols, c as int));
        c = c + 1;
    }
    let mut pos: usize = if e0 >= b.len() {
        b.len()
    } else {
        e0 + 1
    };
    let ghost rows = ls.drop_first();
    let ghost mut k: int = 0;
    proof {
        assert(rows =~= rows.take(0) + lines_from(b@, pos as int));
    }
    while pos < b.len()
        invariant
            same_layout(*squad, *old(squad)),
            table_importable(*squad, table_shortname@),
            forall|s: &str| call_requires(*parse_float, (s,)),
            squad.tables@ == tables,
            tables == old(squad).tables@,
            buf0 == old(squad).buf@,
            ti < tables.len(),
            t == tables[ti as int],
            squad.spec_table_index(table_shortname@) == Some(ti as int),
            b@ == content.spec_bytes(),
            ls == lines_from(b@, 0),
            rows == ls.drop_first(),
            cols == cells(ls[0]),
            columns_ok(t, cols, columns@, resolved@),
            texts(report.unknown_columns@) == unknown_cols(t, cols, cols.len() - 1),
            pos <= b@.len(),
            0 <= k,
            k + lines_from(b@, pos as int).len() == rows.len(),
            rows =~= rows.take(k) + lines_from(b@, pos as int),
            report.cells_updated + report.cells_failed + report.rows_skipped <= pos,
            forall|h: spec_fn(Seq<char>) -> Option<u32>| #[trigger] parses(parse_float, h) ==> import_state(*squad, report)
                == rows_fold(tables, buf0, table_shortname@, t, cols, rows, k, h),
        decreases b@.len() - pos,
    {
        let e = next_byte_exec(b, pos, 10);
        let le = if e > pos && e < b.len() && b[e - 1] == 13 {
            e - 1
        } else {
            e
        };
        let next = if e >= b.len() {
            b.len()
        } else {
            e + 1
        };
        let line = &b[pos..le];
        proof {
            lemma_line_len(b@, pos as int);
            assert(line@ == line_at(b@, pos as int));
            assert(rows[k] == line@);
            assert(rows =~= rows.take(k + 1) + lines_from(b@, next as int));
        }
        let ghost st = import_state(*squad, report);
        import_line(squad, ti, table_shortname, line, &columns, &resolved, parse_float, &mut report, Ghost(cols));
        proof {
            assert forall|h: spec_fn(Seq<char>) -> Option<u32>| #[trigger] parses(parse_float, h) implies import_state(*squad, report)
                == rows_fold(tables, buf0, table_shortname@, t, cols, rows, k + 1, h) by {
                assert(st == rows_fold(tables, buf0, table_shortname@, t, cols, rows, k, h));
            }
            k = k + 1;
        }
        pos = next;
    }
    proof {
        assert(k == rows.len());
        assert(rows.len() == ls.len() - 1);
        assert(columns@[0]@ == seq!['#']);
    }
    if report.cells_updated > 0 {
        squad.recompute_table_records_crc(table_shortname);
    }
    Ok(report)
}

// ---------------------------------------------------------------------------------------
// Every table at once
// ---------------------------------------------------------------------------------------

/// The text that export gives table `t` by its short name: the export, or empty when it fails.
pub open spec fn exported_or_empty(squad: SquadFile, ts: Seq<char>, g: spec_fn(u32) -> Seq<char>) -> Seq<char> {
    match squad.spec_table_index(ts) {
        Some(ti) => {
            let t = squad.tables@[ti];
            if t.n_written_records > 0 && first_unreadable_column(t, 0) is Some {
                Seq::empty()
            } else {
                export_text(squad.buf@, t, g)
            }
        },
        None => Seq::empty(),
    }
}

/// Exports every table, named by its schema name or else its short name; a table that cannot
/// be exported gives empty text.
pub fn export_all<F: Fn(u32) -> String>(squad: &SquadFile, float_text: &F) -> (r: Vec<(String, String)>)
    requires
        squad.wf(),
        forall|i: int| 0 <= i < squad.tables@.len() ==> #[trigger] table_readable(*squad, squad.tables@[i].shortname@),
        forall|b: u32| call_requires(*float_text, (b,)),
    ensures
        r@.len() == squad.tables@.len(),
        forall|i: int| 0 <= i < r@.len() ==> #[trigger] r@[i].0@ == crate::checks::table_label(squad.tables@[i]),
        forall|g: spec_fn(u32) -> Seq<char>| #[trigger] formats(float_text, g) ==> forall|i: int|
            0 <= i < r@.len() ==> #[trigger] r@[i].1@ == exported_or_empty(*squad, squad.tables@[i].shortname@, g),
{
    let mut out: Vec<(String, String)> = Vec::new();
    let mut i: usize = 0;
    while i < squad.tables.len()
        invariant
            squad.wf(),
            forall|i: int| 0 <= i < squad.tables@.len() ==> #[trigger] table_readable(*squad, squad.tables@[i].shortname@),
            forall|b: u32| call_requires(*float_text, (b,)),
            i <= squad.tables@.len(),
            out@.len() == i,
            forall|k: int| 0 <= k < i ==> #[trigger] out@[k].0@ == crate::checks::table_label(squad.tables@[k]),
            forall|g: spec_fn(u32) -> Seq<char>| #[trigger] formats(float_text, g) ==> forall|k: int|
                0 <= k < i ==> #[trigger] out@[k].1@ == exported_or_empty(*squad, squad.tables@[k].shortname@, g),
        decreases squad.tables@.len() - i,
    {
        let t = &squad.tables[i];
        assert(table_readable(*squad, squad.tables@[i as int].shortname@));
        let content = match export_table(squad, t.shortname.as_str(), float_text) {
            Ok(s) => s,
            Err(_) => String::new(),
        };
        let label = match &t.name {
            Some(n) => n.clone(),
            None => t.shortname.clone(),
        };
        out.push((label, content));
        i = i + 1;
    }
    out
}

/// The short name of the table a file is named after: the first table with that schema
/// name, else a table with that short name.
pub open spec fn resolve_table(tables: Seq<TableInfo>, name: Seq<char>) -> Option<Seq<char>> {
    match crate::squad::first_named_table(tables, name, 0) {
        Some(i) => Some(tables[i].shortname@),
        None => match crate::squad::last_table_index(tables, name, tables.len() as int) {
            Some(i) => Some(tables[i].shortname@),
            None => None,
        },
    }
}

/// What importing `b` into table `ts` gives when it succeeds: the bytes, the counts, and the
/// unknown columns.
pub open spec fn import_outcome(tables: Seq<TableInfo>, buf: Seq<u8>, ts: Seq<char>, b: Seq<u8>, h: spec_fn(Seq<char>) -> Option<u32>) -> Option<(Seq<u8>, int, int, int, Seq<Seq<char>>)> {
    match crate::edit::table_index_in(tables, ts) {
        None => None,
        Some(ti) => {
            let t = tables[ti];
            let ls = lines_from(b, 0);
            if ls.len() == 0 || utf8_text(cells(ls[0])[0]) != seq!['#'] {
                None
            } else {
                let cols = cells(ls[0]);
                let f = rows_fold(tables, buf, ts, t, cols, ls.drop_first(), ls.len() - 1, h);
                Some((
                    if f.1 > 0 { crate::edit::crc_refreshed(f.0, t) } else { f.0 },
                    f.1,
                    f.2,
                    f.3,
                    unknown_cols(t, cols, cols.len() - 1),
                ))
            }
        },
    }
}

/// The bytes, counts and unknown columns after the first `k` files of an import of every table.
/// A file whose table is not found is passed over; a file that cannot be imported counts its
/// data rows as skipped.
pub open spec fn all_fold(tables: Seq<TableInfo>, buf: Seq<u8>, files: Seq<(&str, &str)>, k: int, h: spec_fn(Seq<char>) -> Option<u32>) -> (Seq<u8>, int, int, int, Seq<Seq<char>>)
    decreases k,
{
    if k <= 0 {
        (buf, 0, 0, 0, Seq::empty())
    } else {
        let p = all_fold(tables, buf, files, k - 1, h);
        let b = files[k - 1].1.spec_bytes();
        match resolve_table(tables, files[k - 1].0@) {
            None => p,
            Some(sn) => match import_outcome(tables, p.0, sn, b, h) {
                Some(o) => (o.0, p.1 + o.1, p.2 + o.2, p.3 + o.3, merged_names(p.4, o.4, o.4.len() as int)),
                None => (p.0, p.1, p.2, p.3 + if lines_from(b, 0).len() > 0 { lines_from(b, 0).len() - 1 } else { 0 }, p.4),
            },
        }
    }
}

/// The total byte length of the first `k` files' contents.
pub open spec fn files_len(files: Seq<(&str, &str)>, k: int) -> int
    decreases k,
{
    if k <= 0 {
        0
    } else {
        files_len(files, k - 1) + files[k - 1].1.spec_bytes().len()
    }
}

/// Every table that a file is named after can be written.
pub open spec fn files_importable(squad: SquadFile, files: Seq<(&str, &str)>) -> bool {
    forall|k: int| 0 <= k < files.len() ==> match #[trigger] resolve_table(squad.tables@, files[k].0@) {
        Some(sn) => table_importable(squad, sn),
        None => true,
    }
}

/// The number of lines of `b`, as `str::lines` counts them.
fn count_lines(b: &[u8]) -> (n: usize)
    ensures
        n == lines_from(b@, 0).len(),
{
    let mut n: usize = 0;
    let mut pos: usize = 0;
    proof {
        lemma_lines_count(b@, 0);
    }
    while pos < b.len()
        invariant
            pos <= b@.len(),
            n + lines_from(b@, pos as int).len() == lines_from(b@, 0).len(),
            n <= pos,
        decreases b@.len() - pos,
    {
        let e = next_byte_exec(b, pos, 10);
        proof {
            lemma_line_len(b@, pos as int);
            lemma_lines_count(b@, e + 1);
        }
        n = n + 1;
        pos = if e >= b.len() {
            b.len()
        } else {
            e + 1
        };
    }
    n
}

/// Imports a set of files, each named after a table by its schema name or its short name.
/// Files whose table is not found are passed over; the data rows of a file that cannot be
/// imported are counted as skipped. Unknown columns are listed once.
pub fn import_all<P: Fn(&str) -> Option<u32>>(squad: &mut SquadFile, files: Vec<(&str, &str)>, parse_float: &P) -> (r: ImportReport)
    requires
        old(squad).wf(),
        files_importable(*old(squad), files@),
        files_len(files@, files@.len() as int) <= usize::MAX,
        forall|s: &str| call_requires(*parse_float, (s,)),
    ensures
        same_layout(*final(squad), *old(squad)),
        forall|h: spec_fn(Seq<char>) -> Option<u32>| #[trigger] parses(parse_float, h) ==> {
            let f = all_fold(old(squad).tables@, old(squad).buf@, files@, files@.len() as int, h);
            &&& final(squad).buf@ == f.0
            &&& r.cells_updated == f.1
            &&& r.cells_failed == f.2
            &&& r.rows_skipped == f.3
            &&& texts(r.unknown_columns@) == f.4
        },
{
    let ghost tables = squad.tables@;
    let ghost buf0 = squad.buf@;
    let mut total = ImportReport::default();
    let mut k: usize = 0;
    while k < files.len()
        invariant
            same_layout(*squad, *old(squad)),
            tables == old(squad).tables@,
            squad.tables@ == tables,
            buf0 == old(squad).buf@,
            files_importable(*squad, files@),
            files_len(files@, files@.len() as int) <= usize::MAX,
            forall|s: &str| call_requires(*parse_float, (s,)),
            k <= files@.len(),
            total.cells_updated + total.cells_failed + total.rows_skipped <= files_len(files@, k as int),
            forall|h: spec_fn(Seq<char>) -> Option<u32>| #[trigger] parses(parse_float, h) ==> {
                let f = all_fold(tables, buf0, files@, k as int, h);
                &&& squad.buf@ == f.0
                &&& total.cells_updated == f.1
                &&& total.cells_failed == f.2
                &&& total.rows_skipped == f.3
                &&& texts(total.unknown_columns@) == f.4
            },
        decreases files@.len() - k,
    {
        let (name, content) = files[k];
        proof {
            lemma_files_len_mono(files@, k + 1, files@.len() as int);
        }
        let shortname: Option<String> = match squad.table_by_name(name) {
            Some(t) => Some(t.shortname.clone()),
            None => match squad.table(name) {
                Some(t) => Some(t.shortname.clone()),
                None => None,
            },
        };
        proof {
            assert(files@[k as int].0@ == name@);
            crate::squad::lemma_first_named_bounds(tables, name@, 0);
            crate::squad::lemma_last_table_bounds(tables, name@, tables.len() as int);
        }
        let ghost before = squad.buf@;
        match shortname {
            Some(sn) => {
                assert(resolve_table(tables, name@) == Some(sn@));
                match import_table(squad, sn.as_str(), content, parse_float) {
                    Ok(report) => {
                        total.merge(report);
                    },
                    Err(_) => {
                        let n = count_lines(content.as_bytes());
                        proof {
                            lemma_lines_count(content.spec_bytes(), 0);
                        }
                        let extra = if n > 0 {
                            n - 1
                        } else {
                            0
                        };
                        total.rows_skipped = total.rows_skipped + extra;
                    },
                }
            },
            None => {},
        }
        k = k + 1;
    }
    total
}

proof fn lemma_files_len_mono(files: Seq<(&str, &str)>, a: int, b: int)
    requires
        0 <= a <= b,
    ensures
        files_len(files, a) <= files_len(files, b),
    decreases b - a,
{
    if a < b {
        lemma_files_len_mono(files, a, b - 1);
    }
}

} // verus!
