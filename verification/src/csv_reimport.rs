//! Importing a table's own comma-separated export: each line splits back into the fields it
//! was written from, quotes and all, and writing the values read from them changes no byte.
use vstd::prelude::*;
use vstd::utf8::encode_utf8;

use crate::csv::{byte_texts, csv_fields, csv_fields_from};
use crate::export::{csv_escaped, csv_header, csv_row, csv_rows, csv_special, csv_text, doubled_quotes, value_text_of};
use crate::export::{csv_rows_of, first_table_named, last_field_type, row_writes, rows_applied, rows_writes, writes_fold};
use crate::model::{FieldType, FieldValue, TableInfo};
use crate::squad::SquadFile;
use crate::reimport::{
    crlf_bytes, floats_read_back, lacks_byte, lemma_char_numbers_differ, lemma_crlf_bytes, lemma_decimal_digits, lemma_encode_ascii_char,
    lemma_encode_concat, lemma_encode_lacks, lemma_encode_push_ascii, lemma_lines_append,
    lemma_lines_concat,
};
use crate::text::{nat_decimal, trimmed, utf8_text};
use crate::tsv::{crlf, lines_from};

verus! {

// ---------------------------------------------------------------------------------------
// The fields of a comma-separated line
// ---------------------------------------------------------------------------------------

/// Outside quotes, bytes without a quote or a comma join the field being read.
proof fn lemma_plain_run(x: Seq<u8>, t: Seq<u8>, cur: Seq<u8>)
    requires
        lacks_byte(x, 34),
        lacks_byte(x, 44),
    ensures
        csv_fields_from(x + t, cur, false) == csv_fields_from(t, cur + x, false),
    decreases x.len(),
{
    if x.len() == 0 {
        assert(x + t =~= t);
        assert(cur + x =~= cur);
    } else {
        let s = x + t;
        assert(s[0] == x[0]);
        assert(s.drop_first() =~= x.drop_first() + t);
        lemma_plain_run(x.drop_first(), t, cur.push(x[0]));
        assert(cur.push(x[0]) + x.drop_first() =~= cur + x);
    }
}

/// Inside quotes, bytes without a quote join the field being read.
proof fn lemma_quoted_run(x: Seq<u8>, t: Seq<u8>, cur: Seq<u8>)
    requires
        lacks_byte(x, 34),
    ensures
        csv_fields_from(x + t, cur, true) == csv_fields_from(t, cur + x, true),
    decreases x.len(),
{
    if x.len() == 0 {
        assert(x + t =~= t);
        assert(cur + x =~= cur);
    } else {
        let s = x + t;
        assert(s[0] == x[0]);
        assert(s.drop_first() =~= x.drop_first() + t);
        lemma_quoted_run(x.drop_first(), t, cur.push(x[0]));
        assert(cur.push(x[0]) + x.drop_first() =~= cur + x);
    }
}

/// Doubling the quotes of two texts one after the other doubles those of each.
proof fn lemma_doubled_concat(a: Seq<char>, b: Seq<char>)
    ensures
        doubled_quotes(a + b) == doubled_quotes(a) + doubled_quotes(b),
    decreases b.len(),
{
    if b.len() == 0 {
        assert(a + b =~= a);
        assert(doubled_quotes(b) =~= Seq::<char>::empty());
        assert(doubled_quotes(a) + doubled_quotes(b) =~= doubled_quotes(a));
    } else {
        assert((a + b).drop_last() =~= a + b.drop_last());
        assert((a + b).last() == b.last());
        lemma_doubled_concat(a, b.drop_last());
        let tail = if b.last() == '"' { seq!['"', '"'] } else { seq![b.last()] };
        assert(doubled_quotes(a + b) =~= doubled_quotes(a) + doubled_quotes(b.drop_last()) + tail);
        assert(doubled_quotes(a) + doubled_quotes(b) =~= doubled_quotes(a) + doubled_quotes(b.drop_last()) + tail);
    }
}

/// A character other than a quote has no quote byte in its encoding.
proof fn lemma_char_without_quote(c: char)
    requires
        c != '"',
    ensures
        lacks_byte(encode_utf8(seq![c]), 34),
{
    lemma_char_numbers_differ(c, '"');
    assert('"' as u32 == 34);
    assert(seq![c][0] == c);
    lemma_encode_lacks(seq![c], 34);
}

/// Inside quotes, the encoding of a text with its quotes doubled is read as the text.
proof fn lemma_doubled_run(s: Seq<char>, t: Seq<u8>, cur: Seq<u8>)
    ensures
        csv_fields_from(encode_utf8(doubled_quotes(s)) + t, cur, true) == csv_fields_from(t, cur + encode_utf8(s), true),
    decreases s.len(),
{
    if s.len() == 0 {
        assert(doubled_quotes(s) =~= Seq::<char>::empty());
        assert(encode_utf8(Seq::<char>::empty()) == Seq::<u8>::empty());
        assert(encode_utf8(doubled_quotes(s)) + t =~= t);
        assert(cur + encode_utf8(s) =~= cur);
    } else {
        let c = s[0];
        let rest = s.drop_first();
        assert(s =~= seq![c] + rest);
        lemma_doubled_concat(seq![c], rest);
        lemma_encode_concat(seq![c], rest);
        let dr = encode_utf8(doubled_quotes(rest));
        assert(seq![c].drop_last() =~= Seq::<char>::empty());
        assert(seq![c].last() == c);
        assert(doubled_quotes(Seq::<char>::empty()) =~= Seq::<char>::empty());
        if c == '"' {
            assert(doubled_quotes(seq![c]) =~= seq!['"', '"']);
            assert(seq!['"', '"'] =~= seq!['"'] + seq!['"']);
            lemma_encode_concat(seq!['"'], seq!['"']);
            lemma_encode_ascii_char('"');
            assert('"' as u32 == 34);
            lemma_encode_concat(seq!['"', '"'], rest);
            assert(doubled_quotes(s) =~= seq!['"', '"'] + doubled_quotes(rest));
            lemma_encode_concat(seq!['"', '"'], doubled_quotes(rest));
            let b = encode_utf8(doubled_quotes(s)) + t;
            assert(b =~= seq![34u8, 34u8] + (dr + t));
            assert(b[0] == 34u8 && b[1] == 34u8);
            assert(b.skip(2) =~= dr + t);
            lemma_doubled_run(rest, t, cur.push(34u8));
            assert(encode_utf8(seq![c]) == seq![34u8]);
            assert(cur.push(34u8) + encode_utf8(rest) =~= cur + encode_utf8(s));
        } else {
            assert(doubled_quotes(seq![c]) =~= seq![c]);
            lemma_char_without_quote(c);
            let ec = encode_utf8(seq![c]);
            assert(doubled_quotes(s) == seq![c] + doubled_quotes(rest));
            lemma_encode_concat(seq![c], doubled_quotes(rest));
            assert(encode_utf8(doubled_quotes(s)) == ec + dr);
            assert(encode_utf8(doubled_quotes(s)) + t =~= ec + (dr + t));
            lemma_quoted_run(ec, dr + t, cur);
            lemma_doubled_run(rest, t, cur + ec);
            assert(cur + ec + encode_utf8(rest) =~= cur + encode_utf8(s));
        }
    }
}

/// An escaped field, followed by the end of the line or a comma, is read as its text.
pub proof fn lemma_csv_field(s: Seq<char>, t: Seq<u8>, cur: Seq<u8>)
    requires
        t.len() == 0 || t[0] == 44,
    ensures
        csv_fields_from(encode_utf8(csv_escaped(s)) + t, cur, false) == csv_fields_from(t, cur + encode_utf8(s), false),
{
    if exists|i: int| 0 <= i < s.len() && csv_special(#[trigger] s[i]) {
        let q = encode_utf8(seq!['"']);
        lemma_encode_ascii_char('"');
        assert('"' as u32 == 34);
        assert(q == seq![34u8]);
        let d = encode_utf8(doubled_quotes(s));
        lemma_encode_concat(seq!['"'], doubled_quotes(s));
        lemma_encode_concat(seq!['"'] + doubled_quotes(s), seq!['"']);
        let b = encode_utf8(csv_escaped(s)) + t;
        assert(b =~= seq![34u8] + (d + (seq![34u8] + t)));
        assert(b[0] == 34u8);
        assert(b.drop_first() =~= d + (seq![34u8] + t));
        lemma_doubled_run(s, seq![34u8] + t, cur);
        let r = seq![34u8] + t;
        assert(r[0] == 34u8);
        assert(r.drop_first() =~= t);
    } else {
        assert forall|i: int| 0 <= i < s.len() implies (#[trigger] s[i]) as u32 != 34u8 as u32 by {
            assert(!csv_special(s[i]));
            lemma_char_numbers_differ(s[i], '"');
            assert('"' as u32 == 34);
        }
        lemma_encode_lacks(s, 34);
        assert forall|i: int| 0 <= i < s.len() implies (#[trigger] s[i]) as u32 != 44u8 as u32 by {
            assert(!csv_special(s[i]));
            lemma_char_numbers_differ(s[i], ',');
            assert(',' as u32 == 44);
        }
        lemma_encode_lacks(s, 44);
        lemma_plain_run(encode_utf8(s), t, cur);
    }
}

/// Digits are read as they are.
proof fn lemma_digits_field(n: nat, t: Seq<u8>, cur: Seq<u8>)
    ensures
        csv_fields_from(encode_utf8(nat_decimal(n)) + t, cur, false) == csv_fields_from(t, cur + encode_utf8(nat_decimal(n)), false),
{
    lemma_decimal_digits(n);
    let d = encode_utf8(nat_decimal(n));
    assert forall|i: int| 0 <= i < d.len() implies #[trigger] d[i] != 34 && d[i] != 44 by {
        assert(crate::text::is_digit_byte(d[i]));
    }
    lemma_plain_run(d, t, cur);
}

/// A comma, then more: the field being read ends there.
proof fn lemma_comma(t: Seq<u8>, cur: Seq<u8>)
    ensures
        csv_fields_from(seq![44u8] + t, cur, false) == seq![cur] + csv_fields_from(t, Seq::empty(), false),
{
    let b = seq![44u8] + t;
    assert(b[0] == 44u8);
    assert(b.drop_first() =~= t);
}

/// What record `idx`'s comma-separated line holds for column `j`, before escaping: the value's
/// text, or nothing where the field cannot be read.
pub open spec fn csv_cell(buf: Seq<u8>, t: TableInfo, idx: int, j: int, g: spec_fn(u32) -> Seq<char>) -> Seq<char> {
    match value_text_of(buf, t, t.fields@[j].name@, idx, g) {
        Some(x) => x,
        None => Seq::empty(),
    }
}

/// The field bytes of record `idx`'s line, up to its first `j` columns.
pub open spec fn csv_row_fields(buf: Seq<u8>, t: TableInfo, idx: int, j: int, g: spec_fn(u32) -> Seq<char>) -> Seq<Seq<u8>> {
    seq![encode_utf8(nat_decimal(idx as nat))] + Seq::new(j as nat, |i: int| encode_utf8(csv_cell(buf, t, idx, i, g)))
}

/// The fields of record `idx`'s line, then more: the fields before the last, then the last
/// read on into what follows.
proof fn lemma_csv_row_fields(buf: Seq<u8>, t: TableInfo, idx: int, j: int, g: spec_fn(u32) -> Seq<char>, tail: Seq<u8>)
    requires
        0 <= idx,
        0 <= j,
        tail.len() == 0 || tail[0] == 44,
    ensures
        ({
            let l = csv_row_fields(buf, t, idx, j, g);
            csv_fields_from(encode_utf8(csv_row(buf, t, t, idx, j, g)) + tail, Seq::empty(), false) == l.drop_last()
                + csv_fields_from(tail, l.last(), false)
        }),
    decreases j,
{
    let l = csv_row_fields(buf, t, idx, j, g);
    if j == 0 {
        lemma_digits_field(idx as nat, tail, Seq::empty());
        assert(Seq::<u8>::empty() + encode_utf8(nat_decimal(idx as nat)) =~= encode_utf8(nat_decimal(idx as nat)));
        assert(l.drop_last() =~= Seq::<Seq<u8>>::empty());
        assert(l.drop_last() + csv_fields_from(tail, l.last(), false) =~= csv_fields_from(tail, l.last(), false));
    } else {
        let prev = csv_row(buf, t, t, idx, j - 1, g);
        let cell = csv_cell(buf, t, idx, j - 1, g);
        let esc = csv_escaped(cell);
        assert(csv_escaped(Seq::<char>::empty()) =~= Seq::<char>::empty());
        assert(csv_row(buf, t, t, idx, j, g) == prev + seq![','] + esc);
        lemma_encode_push_ascii(prev, ',');
        assert(',' as u32 == 44);
        lemma_encode_concat(prev + seq![','], esc);
        let e = encode_utf8(esc);
        let rest = seq![44u8] + (e + tail);
        assert(encode_utf8(csv_row(buf, t, t, idx, j, g)) + tail =~= encode_utf8(prev) + rest);
        lemma_csv_row_fields(buf, t, idx, j - 1, g, rest);
        let lp = csv_row_fields(buf, t, idx, j - 1, g);
        lemma_comma(e + tail, lp.last());
        lemma_csv_field(cell, tail, Seq::empty());
        assert(Seq::<u8>::empty() + encode_utf8(cell) =~= encode_utf8(cell));
        assert(l =~= lp.push(encode_utf8(cell)));
        assert(lp.drop_last() + (seq![lp.last()] + csv_fields_from(tail, encode_utf8(cell), false)) =~= l.drop_last()
            + csv_fields_from(tail, l.last(), false));
    }
}

/// The field bytes of the header, up to its first `j` columns.
pub open spec fn csv_header_fields(t: TableInfo, j: int) -> Seq<Seq<u8>> {
    seq![seq![35u8]] + Seq::new(j as nat, |i: int| encode_utf8(t.fields@[i].name@))
}

/// The fields of the header, then more: the fields before the last, then the last read on
/// into what follows.
proof fn lemma_csv_header_fields(t: TableInfo, j: int, tail: Seq<u8>)
    requires
        0 <= j,
        tail.len() == 0 || tail[0] == 44,
    ensures
        ({
            let l = csv_header_fields(t, j);
            csv_fields_from(encode_utf8(csv_header(t, j)) + tail, Seq::empty(), false) == l.drop_last()
                + csv_fields_from(tail, l.last(), false)
        }),
    decreases j,
{
    let l = csv_header_fields(t, j);
    if j == 0 {
        lemma_encode_ascii_char('#');
        assert('#' as u32 == 35);
        let b = seq![35u8] + tail;
        assert(b[0] == 35u8);
        assert(b.drop_first() =~= tail);
        assert(Seq::<u8>::empty().push(35u8) =~= seq![35u8]);
        assert(l.drop_last() =~= Seq::<Seq<u8>>::empty());
        assert(l.drop_last() + csv_fields_from(tail, l.last(), false) =~= csv_fields_from(tail, l.last(), false));
    } else {
        let prev = csv_header(t, j - 1);
        let name = t.fields@[j - 1].name@;
        let esc = csv_escaped(name);
        lemma_encode_push_ascii(prev, ',');
        assert(',' as u32 == 44);
        lemma_encode_concat(prev + seq![','], esc);
        let e = encode_utf8(esc);
        let rest = seq![44u8] + (e + tail);
        assert(encode_utf8(csv_header(t, j)) + tail =~= encode_utf8(prev) + rest);
        lemma_csv_header_fields(t, j - 1, rest);
        let lp = csv_header_fields(t, j - 1);
        lemma_comma(e + tail, lp.last());
        lemma_csv_field(name, tail, Seq::empty());
        assert(Seq::<u8>::empty() + encode_utf8(name) =~= encode_utf8(name));
        assert(l =~= lp.push(encode_utf8(name)));
        assert(lp.drop_last() + (seq![lp.last()] + csv_fields_from(tail, encode_utf8(name), false)) =~= l.drop_last()
            + csv_fields_from(tail, l.last(), false));
    }
}

/// The fields of a whole line: all of them.
proof fn lemma_whole_line(l: Seq<Seq<u8>>)
    requires
        l.len() > 0,
    ensures
        l.drop_last() + csv_fields_from(Seq::empty(), l.last(), false) == l,
{
    assert(l.drop_last() + seq![l.last()] =~= l);
}

// ---------------------------------------------------------------------------------------
// The lines of a comma-separated export
// ---------------------------------------------------------------------------------------

/// No character of `s` is a newline.
pub open spec fn no_newline(s: Seq<char>) -> bool {
    forall|i: int| 0 <= i < s.len() ==> #[trigger] s[i] != '\n'
}

/// Texts without a newline, joined, have none.
proof fn lemma_no_newline_concat(a: Seq<char>, b: Seq<char>)
    requires
        no_newline(a),
        no_newline(b),
    ensures
        no_newline(a + b),
{
    assert forall|i: int| 0 <= i < (a + b).len() implies #[trigger] (a + b)[i] != '\n' by {
        if i < a.len() {
            assert((a + b)[i] == a[i]);
        } else {
            assert((a + b)[i] == b[i - a.len()]);
        }
    }
}

/// Escaping adds no newline.
proof fn lemma_escaped_no_newline(s: Seq<char>)
    requires
        no_newline(s),
    ensures
        no_newline(csv_escaped(s)),
{
    lemma_doubled_no_newline(s);
    if exists|i: int| 0 <= i < s.len() && csv_special(#[trigger] s[i]) {
        lemma_no_newline_concat(seq!['"'], doubled_quotes(s));
        lemma_no_newline_concat(seq!['"'] + doubled_quotes(s), seq!['"']);
    }
}

proof fn lemma_doubled_no_newline(s: Seq<char>)
    requires
        no_newline(s),
    ensures
        no_newline(doubled_quotes(s)),
    decreases s.len(),
{
    if s.len() > 0 {
        assert(no_newline(s.drop_last()));
        lemma_doubled_no_newline(s.drop_last());
        let tail = if s.last() == '"' { seq!['"', '"'] } else { seq![s.last()] };
        lemma_no_newline_concat(doubled_quotes(s.drop_last()), tail);
    }
}

/// The encoding of a text without a newline has no newline byte.
proof fn lemma_no_newline_bytes(s: Seq<char>)
    requires
        no_newline(s),
    ensures
        lacks_byte(encode_utf8(s), 10),
{
    assert forall|i: int| 0 <= i < s.len() implies (#[trigger] s[i]) as u32 != 10u8 as u32 by {
        lemma_char_numbers_differ(s[i], '\n');
        assert('\n' as u32 == 10);
    }
    lemma_encode_lacks(s, 10);
}

/// The texts of the cells of the live records, and the field names, have no newline.
pub open spec fn csv_texts_plain(buf: Seq<u8>, t: TableInfo, g: spec_fn(u32) -> Seq<char>) -> bool {
    &&& forall|j: int| 0 <= j < t.fields@.len() ==> no_newline(#[trigger] t.fields@[j].name@)
    &&& forall|idx: int, j: int|
        0 <= idx < t.n_written_records && 0 <= j < t.fields@.len() ==> no_newline(#[trigger] csv_cell(buf, t, idx, j, g))
}

/// A record's line has no newline.
proof fn lemma_csv_row_plain(buf: Seq<u8>, t: TableInfo, idx: int, j: int, g: spec_fn(u32) -> Seq<char>)
    requires
        csv_texts_plain(buf, t, g),
        0 <= idx < t.n_written_records,
        0 <= j <= t.fields@.len(),
    ensures
        no_newline(csv_row(buf, t, t, idx, j, g)),
    decreases j,
{
    if j == 0 {
        crate::reimport::lemma_decimal_chars(idx as nat);
        let d = nat_decimal(idx as nat);
        assert forall|i: int| 0 <= i < d.len() implies #[trigger] d[i] != '\n' by {
            assert('\n' as u32 == 10);
            assert(48 <= d[i] as u32);
        }
    } else {
        lemma_csv_row_plain(buf, t, idx, j - 1, g);
        let cell = csv_cell(buf, t, idx, j - 1, g);
        assert(no_newline(cell));
        lemma_escaped_no_newline(cell);
        assert(csv_escaped(Seq::<char>::empty()) =~= Seq::<char>::empty());
        assert(csv_row(buf, t, t, idx, j, g) == csv_row(buf, t, t, idx, j - 1, g) + seq![','] + csv_escaped(cell));
        assert(no_newline(seq![',']));
        lemma_no_newline_concat(csv_row(buf, t, t, idx, j - 1, g), seq![',']);
        lemma_no_newline_concat(csv_row(buf, t, t, idx, j - 1, g) + seq![','], csv_escaped(cell));
    }
}

/// The header has no newline.
proof fn lemma_csv_header_plain(buf: Seq<u8>, t: TableInfo, j: int, g: spec_fn(u32) -> Seq<char>)
    requires
        csv_texts_plain(buf, t, g),
        0 <= j <= t.fields@.len(),
    ensures
        no_newline(csv_header(t, j)),
    decreases j,
{
    if j == 0 {
        assert(no_newline(seq!['#']));
    } else {
        lemma_csv_header_plain(buf, t, j - 1, g);
        let name = t.fields@[j - 1].name@;
        assert(no_newline(name));
        lemma_escaped_no_newline(name);
        assert(no_newline(seq![',']));
        lemma_no_newline_concat(csv_header(t, j - 1), seq![',']);
        lemma_no_newline_concat(csv_header(t, j - 1) + seq![','], csv_escaped(name));
    }
}

/// The exported lines of the first `k` records of a comma-separated export.
pub open spec fn csv_row_lines(buf: Seq<u8>, t: TableInfo, k: int, g: spec_fn(u32) -> Seq<char>) -> Seq<Seq<u8>> {
    Seq::new(k as nat, |i: int| encode_utf8(csv_row(buf, t, t, i, t.fields@.len() as int, g)))
}

/// The record lines split into one line per record, and end a line.
proof fn lemma_csv_rows_lines(buf: Seq<u8>, t: TableInfo, k: int, g: spec_fn(u32) -> Seq<char>)
    requires
        csv_texts_plain(buf, t, g),
        0 <= k <= t.n_written_records,
    ensures
        lines_from(encode_utf8(csv_rows(buf, t, t, k, g)), 0) == csv_row_lines(buf, t, k, g),
        encode_utf8(csv_rows(buf, t, t, k, g)).len() == 0 || encode_utf8(csv_rows(buf, t, t, k, g)).last() == 10,
    decreases k,
{
    if k == 0 {
        assert(lines_from(Seq::<u8>::empty(), 0) == Seq::<Seq<u8>>::empty());
        assert(csv_row_lines(buf, t, 0, g) =~= Seq::<Seq<u8>>::empty());
    } else {
        lemma_csv_rows_lines(buf, t, k - 1, g);
        let prev = csv_rows(buf, t, t, k - 1, g);
        let r = csv_row(buf, t, t, k - 1, t.fields@.len() as int, g);
        lemma_csv_row_plain(buf, t, k - 1, t.fields@.len() as int, g);
        lemma_no_newline_bytes(r);
        lemma_encode_concat(prev, r);
        lemma_encode_concat(prev + r, crlf());
        lemma_crlf_bytes();
        assert(encode_utf8(csv_rows(buf, t, t, k, g)) == encode_utf8(prev) + encode_utf8(r) + crlf_bytes());
        lemma_lines_append(encode_utf8(prev), encode_utf8(r));
        assert(csv_row_lines(buf, t, k, g) =~= csv_row_lines(buf, t, k - 1, g).push(encode_utf8(r)));
    }
}

/// The lines of a comma-separated export of `t`: the header, then one line per record.
proof fn lemma_csv_export_lines(buf: Seq<u8>, t: TableInfo, g: spec_fn(u32) -> Seq<char>)
    requires
        csv_texts_plain(buf, t, g),
    ensures
        ({
            let text = csv_header(t, t.fields@.len() as int) + crlf() + csv_rows(buf, t, t, t.n_written_records as int, g);
            lines_from(encode_utf8(text), 0) == seq![encode_utf8(csv_header(t, t.fields@.len() as int))]
                + csv_row_lines(buf, t, t.n_written_records as int, g)
        }),
{
    let h = csv_header(t, t.fields@.len() as int);
    let rows = csv_rows(buf, t, t, t.n_written_records as int, g);
    lemma_csv_header_plain(buf, t, t.fields@.len() as int, g);
    lemma_no_newline_bytes(h);
    lemma_csv_rows_lines(buf, t, t.n_written_records as int, g);
    lemma_crlf_bytes();
    lemma_encode_concat(h, crlf());
    lemma_encode_concat(h + crlf(), rows);
    let hb = encode_utf8(h) + crlf_bytes();
    assert(encode_utf8(h + crlf() + rows) == hb + encode_utf8(rows));
    lemma_lines_append(Seq::<u8>::empty(), encode_utf8(h));
    assert(Seq::<u8>::empty() + encode_utf8(h) + crlf_bytes() =~= hb);
    assert(lines_from(Seq::<u8>::empty(), 0) == Seq::<Seq<u8>>::empty());
    assert(lines_from(hb, 0) =~= seq![encode_utf8(h)]);
    lemma_lines_concat(hb, encode_utf8(rows), 0);
}

// ---------------------------------------------------------------------------------------
// Importing a comma-separated export
// ---------------------------------------------------------------------------------------

/// A record's line starts with its index.
proof fn lemma_csv_row_starts(buf: Seq<u8>, t: TableInfo, idx: int, j: int, g: spec_fn(u32) -> Seq<char>)
    requires
        0 <= idx,
        0 <= j,
    ensures
        csv_row(buf, t, t, idx, j, g).len() > 0,
        csv_row(buf, t, t, idx, j, g)[0] == nat_decimal(idx as nat)[0],
    decreases j,
{
    crate::reimport::lemma_decimal_chars(idx as nat);
    if j > 0 {
        lemma_csv_row_starts(buf, t, idx, j - 1, g);
    }
}

/// The texts of record `idx`'s fields: its index, then the text of each column.
pub open spec fn csv_row_texts(buf: Seq<u8>, t: TableInfo, idx: int, g: spec_fn(u32) -> Seq<char>) -> Seq<Seq<char>> {
    byte_texts(csv_row_fields(buf, t, idx, t.fields@.len() as int, g))
}

/// The rows read from the record lines are the records' field texts.
proof fn lemma_csv_rows_view(buf: Seq<u8>, t: TableInfo, k: int, g: spec_fn(u32) -> Seq<char>)
    requires
        0 <= k,
    ensures
        csv_rows_of(csv_row_lines(buf, t, k, g)) == Seq::new(k as nat, |i: int| csv_row_texts(buf, t, i, g)),
    decreases k,
{
    let lines = csv_row_lines(buf, t, k, g);
    if k == 0 {
        assert(csv_rows_of(lines) == Seq::<Seq<Seq<char>>>::empty());
        assert(Seq::new(0nat, |i: int| csv_row_texts(buf, t, i, g)) =~= Seq::<Seq<Seq<char>>>::empty());
    } else {
        assert(lines.drop_last() =~= csv_row_lines(buf, t, k - 1, g));
        lemma_csv_rows_view(buf, t, k - 1, g);
        let nf = t.fields@.len() as int;
        let r = csv_row(buf, t, t, k - 1, nf, g);
        assert(lines.last() == encode_utf8(r));
        crate::reimport::lemma_text_of_encoding(r);
        lemma_csv_row_starts(buf, t, k - 1, nf, g);
        crate::reimport::lemma_decimal_chars((k - 1) as nat);
        crate::reimport::lemma_trimmed_nonempty(r);
        lemma_csv_row_fields(buf, t, k - 1, nf, g, Seq::empty());
        assert(encode_utf8(r) + Seq::<u8>::empty() =~= encode_utf8(r));
        lemma_whole_line(csv_row_fields(buf, t, k - 1, nf, g));
        assert(csv_fields(encode_utf8(r)) == csv_row_fields(buf, t, k - 1, nf, g));
        assert(csv_rows_of(lines) =~= Seq::new(k as nat, |i: int| csv_row_texts(buf, t, i, g)));
    }
}

/// Each column's type, as an import finds it by the column's name, is the type of the field
/// the export read the column from.
pub open spec fn columns_typed(t: TableInfo) -> bool {
    forall|j: int|
        0 <= j < t.fields@.len() ==> last_field_type(t.fields@, #[trigger] t.fields@[j].name@, t.fields@.len() as int)
            == Some(crate::tsv::column_field(t, j).field_type)
}

/// Every write in `ups` leaves the bytes as they are.
pub open spec fn writes_keep(tables: Seq<TableInfo>, buf: Seq<u8>, ts: Seq<char>, ups: Seq<(int, Seq<char>, FieldValue)>) -> bool {
    forall|i: int| 0 <= i < ups.len() ==> #[trigger] crate::edit::spec_write(tables, buf, ts, ups[i].0, ups[i].1, ups[i].2).1 == buf
}

/// Writes that each leave the bytes as they are, done one after another, leave them too.
proof fn lemma_writes_fold_keeps(tables: Seq<TableInfo>, buf: Seq<u8>, ts: Seq<char>, ups: Seq<(int, Seq<char>, FieldValue)>, k: int)
    requires
        writes_keep(tables, buf, ts, ups),
        0 <= k <= ups.len(),
    ensures
        writes_fold(tables, buf, ts, ups, k).0 == buf,
    decreases k,
{
    if k > 0 {
        lemma_writes_fold_keeps(tables, buf, ts, ups, k - 1);
        let u = ups[k - 1];
        assert(crate::edit::spec_write(tables, buf, ts, u.0, u.1, u.2).1 == buf);
    }
}

/// What importing a comma-separated export needs of table `ti`.
pub open spec fn csv_reimport_ready(tables: Seq<TableInfo>, buf: Seq<u8>, ts: Seq<char>, ti: int, g: spec_fn(u32) -> Seq<char>) -> bool {
    &&& 0 <= ti < tables.len()
    &&& crate::edit::table_index_in(tables, ts) == Some(ti)
    &&& crate::squad::table_wf(tables[ti], buf.len() as int)
    &&& crate::reimport::strings_clean(buf, tables[ti])
    &&& columns_typed(tables[ti])
    &&& csv_texts_plain(buf, tables[ti], g)
    &&& forall|k: int, j: int|
        0 <= k < tables[ti].n_written_records && 0 <= j < tables[ti].fields@.len()
            ==> #[trigger] crate::fields::can_read_in(tables, buf, ts, k, tables[ti].fields@[j].name@)
}

/// The writes that record `idx`'s row asks for, for its first `k` columns, leave the bytes as
/// they are.
proof fn lemma_row_writes_keep(
    tables: Seq<TableInfo>,
    buf: Seq<u8>,
    ts: Seq<char>,
    ti: int,
    idx: int,
    k: int,
    g: spec_fn(u32) -> Seq<char>,
    h: spec_fn(Seq<char>) -> Option<u32>,
)
    requires
        csv_reimport_ready(tables, buf, ts, ti, g),
        0 <= idx < tables[ti].n_written_records,
        0 <= k <= tables[ti].fields@.len(),
        floats_read_back(buf, tables[ti], g, h),
    ensures
        writes_keep(
            tables,
            buf,
            ts,
            row_writes(
                tables[ti].fields@,
                byte_texts(csv_header_fields(tables[ti], tables[ti].fields@.len() as int)),
                csv_row_texts(buf, tables[ti], idx, g),
                idx,
                k,
                h,
            ).0,
        ),
    decreases k,
{
    let t = tables[ti];
    let nf = t.fields@.len() as int;
    let header = byte_texts(csv_header_fields(t, nf));
    let row = csv_row_texts(buf, t, idx, g);
    if k > 0 {
        lemma_row_writes_keep(tables, buf, ts, ti, idx, k - 1, g, h);
        let p = row_writes(t.fields@, header, row, idx, k - 1, h);
        let name = t.fields@[k - 1].name@;
        assert(header[k] == utf8_text(encode_utf8(name)));
        crate::reimport::lemma_text_of_encoding(name);
        let cell = csv_cell(buf, t, idx, k - 1, g);
        assert(row[k] == utf8_text(encode_utf8(cell)));
        crate::reimport::lemma_text_of_encoding(cell);
        assert(last_field_type(t.fields@, t.fields@[k - 1].name@, nf) == Some(crate::tsv::column_field(t, k - 1).field_type));
        assert(crate::fields::can_read_in(tables, buf, ts, idx, t.fields@[k - 1].name@));
        if crate::tsv::column_field(t, k - 1).field_type == FieldType::String {
            assert(crate::reimport::string_cell_clean(buf, t, crate::tsv::column_field(t, k - 1), idx));
        }
        crate::reimport::lemma_cell_write_back(tables, buf, ts, ti, idx, k - 1, g, h);
        let r = row_writes(t.fields@, header, row, idx, k, h);
        assert forall|i: int| 0 <= i < r.0.len() implies #[trigger] crate::edit::spec_write(tables, buf, ts, r.0[i].0, r.0[i].1, r.0[i].2).1 == buf by {
            if i < p.0.len() {
                assert(r.0[i] == p.0[i]);
            }
        }
    }
}

/// The writes that the rows of the first `k` records ask for leave the bytes as they are.
proof fn lemma_rows_writes_keep(
    tables: Seq<TableInfo>,
    buf: Seq<u8>,
    ts: Seq<char>,
    ti: int,
    k: int,
    g: spec_fn(u32) -> Seq<char>,
    h: spec_fn(Seq<char>) -> Option<u32>,
)
    requires
        csv_reimport_ready(tables, buf, ts, ti, g),
        0 <= k <= tables[ti].n_written_records,
        floats_read_back(buf, tables[ti], g, h),
    ensures
        writes_keep(
            tables,
            buf,
            ts,
            rows_writes(
                tables[ti].fields@,
                byte_texts(csv_header_fields(tables[ti], tables[ti].fields@.len() as int)),
                Seq::new(tables[ti].n_written_records as nat, |i: int| csv_row_texts(buf, tables[ti], i, g)),
                k,
                h,
            ).0,
        ),
    decreases k,
{
    if k > 0 {
        lemma_rows_writes_keep(tables, buf, ts, ti, k - 1, g, h);
        let t = tables[ti];
        let nf = t.fields@.len() as int;
        let header = byte_texts(csv_header_fields(t, nf));
        let rows = Seq::new(t.n_written_records as nat, |i: int| csv_row_texts(buf, t, i, g));
        let idx = k - 1;
        let row = rows[idx];
        assert(row == csv_row_texts(buf, t, idx, g));
        assert(row.len() == nf + 1);
        let d = nat_decimal(idx as nat);
        assert(row[0] == utf8_text(encode_utf8(d)));
        crate::reimport::lemma_text_of_encoding(d);
        crate::reimport::lemma_int_decimal_trimmed(idx);
        crate::reimport::lemma_parse_nat_decimal(idx as nat, 0, usize::MAX as int);
        assert(header.len() - 1 == nf);
        lemma_row_writes_keep(tables, buf, ts, ti, idx, nf, g, h);
        let p = rows_writes(t.fields@, header, rows, k - 1, h);
        let r = row_writes(t.fields@, header, row, idx, nf, h);
        let all = rows_writes(t.fields@, header, rows, k, h);
        assert(all.0 == p.0 + r.0);
        assert forall|i: int| 0 <= i < all.0.len() implies #[trigger] crate::edit::spec_write(tables, buf, ts, all.0[i].0, all.0[i].1, all.0[i].2).1 == buf by {
            if i < p.0.len() {
                assert(all.0[i] == p.0[i]);
            } else {
                assert(all.0[i] == r.0[i - p.0.len()]);
            }
        }
    }
}

/// Importing a table's own comma-separated export back into the save changes no byte: each
/// line splits back into the fields it was written from, each cell reads back as the value it
/// was exported from, which is what its bytes already hold, and a refreshed table checksum is
/// the one already stored. This holds where the file's table name leads to the table and its
/// short name back to it, the table can be read, every string cell is clean (valid UTF-8 up to
/// its first NUL, only NULs after it), no field name or cell text has a newline, each column's
/// type as the import finds it by name is that of the field it was read from, the table's
/// stored checksum is valid, and the float parser `h` reads back the text that the formatter
/// `g` writes for each float held in a live record of the table (`floats_read_back`).
pub proof fn law_reimporting_a_csv_export_changes_nothing(
    squad: SquadFile,
    table_name: Seq<char>,
    ti: int,
    g: spec_fn(u32) -> Seq<char>,
    h: spec_fn(Seq<char>) -> Option<u32>,
)
    requires
        squad.wf(),
        first_table_named(squad.tables@, table_name, 0) == Some(ti),
        squad.spec_table_index(squad.tables@[ti].shortname@) == Some(ti),
        crate::tsv::table_readable(squad, squad.tables@[ti].shortname@),
        crate::reimport::strings_clean(squad.buf@, squad.tables@[ti]),
        columns_typed(squad.tables@[ti]),
        csv_texts_plain(squad.buf@, squad.tables@[ti], g),
        crate::edit::table_crc_valid(squad.buf@, squad.tables@[ti]),
        floats_read_back(squad.buf@, squad.tables@[ti], g, h),
    ensures
        ({
            let ls = lines_from(encode_utf8(csv_text(squad, ti, g)), 0);
            &&& ls.len() > 0
            &&& rows_applied(
                squad.tables@,
                squad.buf@,
                squad.tables@[ti].shortname@,
                squad.tables@[ti],
                byte_texts(csv_fields(ls[0])),
                csv_rows_of(ls.drop_first()),
                h,
            ).0 == squad.buf@
        }),
{
    let tables = squad.tables@;
    let buf = squad.buf@;
    crate::export::lemma_first_table_named(tables, table_name, 0);
    let t = tables[ti];
    let ts = t.shortname@;
    let nf = t.fields@.len() as int;
    assert(crate::squad::table_wf(tables[ti], buf.len() as int));
    assert forall|k: int, j: int|
        0 <= k < t.n_written_records && 0 <= j < t.fields@.len() implies #[trigger] crate::fields::can_read_in(
        tables,
        buf,
        ts,
        k,
        t.fields@[j].name@,
    ) by {
        assert(squad.can_read(ts, k, t.fields@[j].name@));
    }
    assert(csv_reimport_ready(tables, buf, ts, ti, g));
    lemma_csv_export_lines(buf, t, g);
    let ls = lines_from(encode_utf8(csv_text(squad, ti, g)), 0);
    let hb = encode_utf8(csv_header(t, nf));
    assert(ls[0] == hb);
    lemma_csv_header_fields(t, nf, Seq::empty());
    assert(hb + Seq::<u8>::empty() =~= hb);
    lemma_whole_line(csv_header_fields(t, nf));
    assert(csv_fields(ls[0]) == csv_header_fields(t, nf));
    assert(ls.drop_first() =~= csv_row_lines(buf, t, t.n_written_records as int, g));
    lemma_csv_rows_view(buf, t, t.n_written_records as int, g);
    let header = byte_texts(csv_header_fields(t, nf));
    let rows = Seq::new(t.n_written_records as nat, |i: int| csv_row_texts(buf, t, i, g));
    lemma_rows_writes_keep(tables, buf, ts, ti, t.n_written_records as int, g, h);
    let w = rows_writes(t.fields@, header, rows, rows.len() as int, h);
    lemma_writes_fold_keeps(tables, buf, ts, w.0, w.0.len() as int);
    match t.record_crc_pos {
        Some(p) => {
            crate::reimport::lemma_le4_of_read(buf, p as int);
        },
        None => {},
    }
}

} // verus!
