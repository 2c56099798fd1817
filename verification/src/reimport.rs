//! Importing a table's own export: the exported text splits back into the lines and cells it
//! was made of, each cell reads back as the value it was written from, and writing those values
//! changes no byte.
use vstd::arithmetic::power2::{lemma2_to64, lemma_pow2_pos, lemma_pow2_unfold, pow2};
use vstd::prelude::*;
use vstd::string::StringSliceAdditionalSpecFns;
use vstd::utf8::{char_is_scalar, encode_scalar, encode_utf8, has_width_1_encoding, is_scalar, valid_utf8};

use crate::codec::{
    bit_at, bit_range_fits, bits_value, bits_written, lemma_with_bits, lemma_write_then_read, nul_padded, nul_pos,
    spec_max_value_for_depth, until_nul, with_bits,
};
use crate::edit::{le4, splice};
use crate::fields::record_start;
use crate::model::{FieldDescriptor, FieldType, FieldValue, TableInfo};
use crate::parse::u32le;
use crate::squad::SquadFile;
use crate::text::{
    all_digits, digit_char, digits_value, int_decimal, is_white_space, lemma_trimmed_unchanged, nat_decimal,
    spec_parse_int, trimmed, utf8_text,
};
use crate::tsv::{
    cell_text, cells_from, column_field, crlf, escaped, export_text, header_text, import_outcome,
    lemma_escaped_has_no_separators, lemma_next_byte, line_at, lines_from, next_byte, row_text, rows_text,
    table_readable,
};

verus! {

broadcast use char_is_scalar;

// ---------------------------------------------------------------------------------------
// UTF-8 encoding of texts
// ---------------------------------------------------------------------------------------

/// No byte of `b` is `x`.
pub open spec fn lacks_byte(b: Seq<u8>, x: u8) -> bool {
    forall|i: int| 0 <= i < b.len() ==> #[trigger] b[i] != x
}

/// The encoding of two texts one after the other is the encoding of each, one after the other.
pub proof fn lemma_encode_concat(a: Seq<char>, b: Seq<char>)
    ensures
        encode_utf8(a + b) == encode_utf8(a) + encode_utf8(b),
    decreases a.len(),
{
    if a.len() == 0 {
        assert(a + b =~= b);
        assert(encode_utf8(a) + encode_utf8(b) =~= encode_utf8(b));
    } else {
        assert((a + b).drop_first() =~= a.drop_first() + b);
        assert((a + b)[0] == a[0]);
        lemma_encode_concat(a.drop_first(), b);
        assert(encode_utf8(a + b) =~= encode_utf8(a) + encode_utf8(b));
    }
}

/// A character below 0x80 is encoded as one byte, itself; any other as bytes from 0x80 up.
pub proof fn lemma_scalar_bytes(v: u32)
    requires
        is_scalar(v),
    ensures
        has_width_1_encoding(v) ==> encode_scalar(v) == seq![v as u8],
        !has_width_1_encoding(v) ==> forall|i: int| 0 <= i < encode_scalar(v).len() ==> #[trigger] encode_scalar(v)[i] >= 0x80,
{
    assert(v <= 0x7F ==> (v & 0x7F) as u8 == v as u8) by (bit_vector);
    assert((0xC0u8 | ((v >> 6u32) & 0x1Fu32) as u8) >= 0x80u8) by (bit_vector);
    assert((0xE0u8 | ((v >> 12u32) & 0x0Fu32) as u8) >= 0x80u8) by (bit_vector);
    assert((0xF0u8 | ((v >> 18u32) & 0x7u32) as u8) >= 0x80u8) by (bit_vector);
    assert((0x80u8 | (v & 0x3Fu32) as u8) >= 0x80u8) by (bit_vector);
    assert((0x80u8 | ((v >> 6u32) & 0x3Fu32) as u8) >= 0x80u8) by (bit_vector);
    assert((0x80u8 | ((v >> 12u32) & 0x3Fu32) as u8) >= 0x80u8) by (bit_vector);
}

/// A text without the character `x` (below 0x80) has no byte `x` in its encoding.
pub proof fn lemma_encode_lacks(s: Seq<char>, x: u8)
    requires
        x < 0x80,
        forall|i: int| 0 <= i < s.len() ==> (#[trigger] s[i]) as u32 != x as u32,
    ensures
        lacks_byte(encode_utf8(s), x),
    decreases s.len(),
{
    if s.len() > 0 {
        let v = s[0] as u32;
        vstd::utf8::char_is_scalar(s[0]);
        lemma_scalar_bytes(v);
        let rest = s.drop_first();
        assert forall|i: int| 0 <= i < rest.len() implies (#[trigger] rest[i]) as u32 != x as u32 by {
            assert(rest[i] == s[i + 1]);
        }
        lemma_encode_lacks(rest, x);
        let e = encode_scalar(v);
        assert forall|j: int| 0 <= j < encode_utf8(s).len() implies #[trigger] encode_utf8(s)[j] != x by {
            if j < e.len() {
                assert(encode_utf8(s)[j] == e[j]);
            } else {
                assert(encode_utf8(s)[j] == encode_utf8(rest)[j - e.len()]);
            }
        }
    }
}

/// A character below 0x80 is encoded as itself.
pub proof fn lemma_encode_ascii_char(c: char)
    requires
        (c as u32) < 0x80,
    ensures
        encode_utf8(seq![c]) == seq![c as u32 as u8],
{
    vstd::utf8::char_is_scalar(c);
    lemma_scalar_bytes(c as u32);
    assert(seq![c][0] == c);
    assert(seq![c].drop_first() =~= Seq::<char>::empty());
    assert(encode_utf8(Seq::<char>::empty()) == Seq::<u8>::empty());
    assert(encode_utf8(seq![c]) =~= encode_scalar(c as u32));
}

// ---------------------------------------------------------------------------------------
// Decimal numbers read back
// ---------------------------------------------------------------------------------------

/// The encoding of a decimal number is its digits, whose value is the number.
pub proof fn lemma_decimal_digits(n: nat)
    ensures
        all_digits(encode_utf8(nat_decimal(n))),
        digits_value(encode_utf8(nat_decimal(n))) == n,
        encode_utf8(nat_decimal(n))[0] != 45u8,
        encode_utf8(nat_decimal(n))[0] != 43u8,
        encode_utf8(nat_decimal(n)).len() == nat_decimal(n).len(),
    decreases n,
{
    let d = digit_char(n % 10);
    assert(d as u32 == n % 10 + 48);
    assert((d as u32 as u8) == n % 10 + 48);
    assert((d as u32) < 0x80);
    lemma_encode_ascii_char(d);
    if n < 10 {
        assert(nat_decimal(n) == seq![d]);
        let e = encode_utf8(nat_decimal(n));
        assert(e == seq![d as u32 as u8]);
        assert(e.drop_last() =~= Seq::<u8>::empty());
        assert(digits_value(e.drop_last()) == 0);
        assert(e.last() == n % 10 + 48);
    } else {
        let p = nat_decimal(n / 10);
        lemma_decimal_digits(n / 10);
        lemma_encode_concat(p, seq![d]);
        assert(nat_decimal(n) =~= p + seq![d]);
        let e = encode_utf8(nat_decimal(n));
        assert(e == encode_utf8(p) + seq![d as u32 as u8]);
        assert(e.drop_last() =~= encode_utf8(p));
        assert(e[0] == encode_utf8(p)[0]);
        assert(e.last() == n % 10 + 48);
        assert((n / 10) * 10 + n % 10 == n);
    }
}

/// Reading the decimal text of a number gives the number back.
pub proof fn lemma_parse_nat_decimal(n: nat, lo: int, hi: int)
    requires
        n <= hi,
    ensures
        spec_parse_int(encode_utf8(nat_decimal(n)), lo, hi) == Some(n as int),
{
    lemma_decimal_digits(n);
}

/// Reading the decimal text of an integer gives the integer back.
pub proof fn lemma_parse_int_decimal(v: int, lo: int, hi: int)
    requires
        lo < 0,
        lo <= v <= hi,
    ensures
        spec_parse_int(encode_utf8(int_decimal(v)), lo, hi) == Some(v),
{
    if v < 0 {
        let m = (-v) as nat;
        lemma_decimal_digits(m);
        lemma_encode_ascii_char('-');
        lemma_encode_concat(seq!['-'], nat_decimal(m));
        let e = encode_utf8(int_decimal(v));
        assert(e == seq![45u8] + encode_utf8(nat_decimal(m)));
        assert(e.skip(1) =~= encode_utf8(nat_decimal(m)));
    } else {
        lemma_decimal_digits(v as nat);
    }
}

// ---------------------------------------------------------------------------------------
// Lines and cells of joined bytes
// ---------------------------------------------------------------------------------------

/// Searching bytes placed after `a` finds what searching them alone finds, moved by `a`'s length.
proof fn lemma_next_byte_shift(a: Seq<u8>, y: Seq<u8>, j: int, x: u8)
    requires
        0 <= j,
    ensures
        next_byte(a + y, a.len() + j, x) == a.len() + next_byte(y, j, x),
    decreases y.len() - j,
{
    if j < y.len() {
        assert((a + y)[a.len() + j] == y[j]);
        if y[j] != x {
            lemma_next_byte_shift(a, y, j + 1, x);
        }
    }
}

/// Searching `p + y` from a position in `p` finds the byte in `p` when `p` has one from there
/// on, else the first one in `y`.
proof fn lemma_next_byte_concat(p: Seq<u8>, y: Seq<u8>, from: int, x: u8)
    requires
        0 <= from <= p.len(),
    ensures
        next_byte(p + y, from, x) == if next_byte(p, from, x) < p.len() {
            next_byte(p, from, x)
        } else {
            p.len() + next_byte(y, 0, x)
        },
    decreases p.len() - from,
{
    if from == p.len() {
        lemma_next_byte_shift(p, y, 0, x);
    } else {
        assert((p + y)[from] == p[from]);
        if p[from] != x {
            lemma_next_byte_concat(p, y, from + 1, x);
        }
    }
}

/// Bytes without `x` have no `x` to find.
proof fn lemma_next_byte_none(y: Seq<u8>, x: u8)
    requires
        lacks_byte(y, x),
    ensures
        next_byte(y, 0, x) == y.len(),
{
    lemma_next_byte(y, 0, x);
}

/// The lines of bytes placed after `a`, from a position among them, are theirs alone.
proof fn lemma_lines_shift(a: Seq<u8>, y: Seq<u8>, j: int)
    requires
        0 <= j,
    ensures
        lines_from(a + y, a.len() + j) == lines_from(y, j),
    decreases y.len() + 1 - j,
{
    if j < y.len() {
        lemma_next_byte_shift(a, y, j, 10);
        lemma_next_byte(y, j, 10);
        let e = next_byte(y, j, 10);
        assert(j <= e);
        if j < e {
            assert((a + y)[a.len() + e - 1] == y[e - 1]);
            assert((a + y).subrange(a.len() + j, a.len() + e - 1) =~= y.subrange(j, e - 1));
        }
        assert((a + y).subrange(a.len() + j, a.len() + e) =~= y.subrange(j, e));
        assert(line_at(a + y, a.len() + j) == line_at(y, j));
        lemma_lines_shift(a, y, e + 1);
    }
}

/// Bytes that end a line (or are empty), followed by more: their lines, then those of the rest.
pub proof fn lemma_lines_concat(p: Seq<u8>, y: Seq<u8>, from: int)
    requires
        0 <= from <= p.len(),
        p.len() == 0 || p.last() == 10,
    ensures
        lines_from(p + y, from) == lines_from(p, from) + lines_from(y, 0),
    decreases p.len() - from,
{
    if from == p.len() {
        lemma_lines_shift(p, y, 0);
        assert(lines_from(p, from) + lines_from(y, 0) =~= lines_from(y, 0));
    } else {
        lemma_next_byte(p, from, 10);
        let e = next_byte(p, from, 10);
        if e >= p.len() {
            assert(p[p.len() - 1] != 10);
        }
        lemma_next_byte_concat(p, y, from, 10);
        assert((p + y).subrange(from, e) =~= p.subrange(from, e));
        if from < e {
            assert((p + y).subrange(from, e - 1) =~= p.subrange(from, e - 1));
            assert((p + y)[e - 1] == p[e - 1]);
        }
        assert(line_at(p + y, from) == line_at(p, from));
        lemma_lines_concat(p, y, e + 1);
        assert(lines_from(p + y, from) =~= lines_from(p, from) + lines_from(y, 0));
    }
}

/// The line end of every exported line, as bytes.
pub open spec fn crlf_bytes() -> Seq<u8> {
    seq![13u8, 10u8]
}

/// Bytes without a newline, followed by a line end, are one line.
proof fn lemma_lines_one(x: Seq<u8>)
    requires
        lacks_byte(x, 10),
    ensures
        lines_from(x + crlf_bytes(), 0) == seq![x],
{
    let b = x + crlf_bytes();
    lemma_next_byte_none(x, 10);
    lemma_next_byte_concat(x, crlf_bytes(), 0, 10);
    assert(next_byte(crlf_bytes(), 1, 10) == 1);
    assert(next_byte(crlf_bytes(), 0, 10) == 1);
    assert(next_byte(b, 0, 10) == x.len() + 1);
    assert(b[x.len() as int] == 13);
    assert(b.subrange(0, x.len() as int) =~= x);
    assert(line_at(b, 0) == x);
    assert(lines_from(b, x.len() + 2int) == Seq::<Seq<u8>>::empty());
    assert(lines_from(b, 0) =~= seq![x]);
}

/// Lines that end a line (or nothing), then one more line: the lines, then that one.
pub proof fn lemma_lines_append(p: Seq<u8>, x: Seq<u8>)
    requires
        p.len() == 0 || p.last() == 10,
        lacks_byte(x, 10),
    ensures
        lines_from(p + x + crlf_bytes(), 0) == lines_from(p, 0).push(x),
        (p + x + crlf_bytes()).last() == 10,
{
    assert(p + x + crlf_bytes() =~= p + (x + crlf_bytes()));
    lemma_lines_concat(p, x + crlf_bytes(), 0);
    lemma_lines_one(x);
    assert(lines_from(p, 0) + seq![x] =~= lines_from(p, 0).push(x));
}

/// The cells of bytes placed after `a`, from a position among them, are theirs alone.
proof fn lemma_cells_shift(a: Seq<u8>, y: Seq<u8>, j: int)
    requires
        0 <= j <= y.len(),
    ensures
        cells_from(a + y, a.len() + j) == cells_from(y, j),
    decreases y.len() - j,
{
    lemma_next_byte_shift(a, y, j, 9);
    lemma_next_byte(y, j, 9);
    let e = next_byte(y, j, 9);
    if e >= y.len() {
        assert((a + y).subrange(a.len() + j, (a + y).len() as int) =~= y.subrange(j, y.len() as int));
    } else {
        assert((a + y).subrange(a.len() + j, a.len() + e) =~= y.subrange(j, e));
        lemma_cells_shift(a, y, e + 1);
    }
}

/// Cells, a tab, then more bytes: the cells, then the cells of the rest.
pub proof fn lemma_cells_concat(p: Seq<u8>, y: Seq<u8>, from: int)
    requires
        0 <= from <= p.len(),
    ensures
        cells_from(p + seq![9u8] + y, from) == cells_from(p, from) + cells_from(y, 0),
    decreases p.len() - from,
{
    let t = seq![9u8] + y;
    let b = p + seq![9u8] + y;
    assert(b =~= p + t);
    lemma_next_byte(p, from, 9);
    lemma_next_byte_concat(p, t, from, 9);
    assert(next_byte(t, 0, 9) == 0);
    let e = next_byte(p, from, 9);
    if e < p.len() {
        assert(b.subrange(from, e) =~= p.subrange(from, e));
        lemma_cells_concat(p, y, e + 1);
        assert(cells_from(b, from) =~= cells_from(p, from) + cells_from(y, 0));
    } else {
        assert(b.subrange(from, p.len() as int) =~= p.subrange(from, p.len() as int));
        assert(b =~= (p + seq![9u8]) + y);
        lemma_cells_shift(p + seq![9u8], y, 0);
        assert(cells_from(b, from) =~= cells_from(p, from) + cells_from(y, 0));
    }
}

/// Bytes without a tab are one cell.
pub proof fn lemma_cells_one(y: Seq<u8>)
    requires
        lacks_byte(y, 9),
    ensures
        cells_from(y, 0) == seq![y],
{
    lemma_next_byte_none(y, 9);
    assert(y.subrange(0, y.len() as int) =~= y);
}

// ---------------------------------------------------------------------------------------
// The lines and cells of an exported table
// ---------------------------------------------------------------------------------------

/// Bytes without `x`, joined to other bytes without `x`, have no `x`.
pub proof fn lemma_lacks_concat(a: Seq<u8>, b: Seq<u8>, x: u8)
    requires
        lacks_byte(a, x),
        lacks_byte(b, x),
    ensures
        lacks_byte(a + b, x),
{
    assert forall|i: int| 0 <= i < (a + b).len() implies #[trigger] (a + b)[i] != x by {
        if i < a.len() {
            assert((a + b)[i] == a[i]);
        } else {
            assert((a + b)[i] == b[i - a.len()]);
        }
    }
}

/// A text read from its own UTF-8 encoding is the text.
pub proof fn lemma_text_of_encoding(s: Seq<char>)
    ensures
        utf8_text(encode_utf8(s)) == s,
{
    vstd::utf8::encode_utf8_valid_utf8(s);
    vstd::utf8::encode_utf8_decode_utf8(s);
}

/// A text with a character below 0x80 after it is encoded as its encoding, then that byte.
pub proof fn lemma_encode_push_ascii(s: Seq<char>, c: char)
    requires
        (c as u32) < 0x80,
    ensures
        encode_utf8(s + seq![c]) == encode_utf8(s) + seq![c as u32 as u8],
{
    lemma_encode_concat(s, seq![c]);
    lemma_encode_ascii_char(c);
}

/// Two different characters have different numbers.
pub proof fn lemma_char_numbers_differ(c: char, d: char)
    requires
        c != d,
    ensures
        c as u32 != d as u32,
{
    vstd::utf8::char_u32_cast(c, c as u32);
    vstd::utf8::char_u32_cast(d, d as u32);
}

/// An escaped cell has no tab or newline in its encoding.
proof fn lemma_escaped_bytes(s: Seq<char>)
    ensures
        lacks_byte(encode_utf8(escaped(s)), 9),
        lacks_byte(encode_utf8(escaped(s)), 10),
{
    lemma_escaped_has_no_separators(s);
    let e = escaped(s);
    assert forall|i: int| 0 <= i < e.len() implies (#[trigger] e[i]) as u32 != 9u8 as u32 by {
        lemma_char_numbers_differ(e[i], '\t');
        assert('\t' as u32 == 9);
    }
    lemma_encode_lacks(e, 9);
    assert forall|i: int| 0 <= i < e.len() implies (#[trigger] e[i]) as u32 != 10u8 as u32 by {
        lemma_char_numbers_differ(e[i], '\n');
        assert('\n' as u32 == 10);
    }
    lemma_encode_lacks(e, 10);
}

/// Decimal digits have no tab or newline.
pub proof fn lemma_decimal_bytes(n: nat)
    ensures
        lacks_byte(encode_utf8(nat_decimal(n)), 9),
        lacks_byte(encode_utf8(nat_decimal(n)), 10),
{
    lemma_decimal_digits(n);
    let e = encode_utf8(nat_decimal(n));
    assert forall|i: int| 0 <= i < e.len() implies #[trigger] e[i] != 9 && e[i] != 10 by {
        assert(crate::text::is_digit_byte(e[i]));
    }
}

/// The cell bytes of record `idx`'s exported line, up to its first `j` cells.
pub open spec fn row_cells(buf: Seq<u8>, t: TableInfo, idx: int, j: int, g: spec_fn(u32) -> Seq<char>) -> Seq<Seq<u8>> {
    seq![encode_utf8(nat_decimal(idx as nat))] + Seq::new(
        j as nat,
        |i: int| encode_utf8(escaped(cell_text(buf, t, column_field(t, i), idx, g))),
    )
}

/// Record `idx`'s exported line splits into its index and its escaped cells, and has no newline.
proof fn lemma_row_cells(buf: Seq<u8>, t: TableInfo, idx: int, j: int, g: spec_fn(u32) -> Seq<char>)
    requires
        0 <= idx,
        0 <= j,
    ensures
        cells_from(encode_utf8(row_text(buf, t, idx, j, g)), 0) == row_cells(buf, t, idx, j, g),
        lacks_byte(encode_utf8(row_text(buf, t, idx, j, g)), 10),
    decreases j,
{
    if j == 0 {
        lemma_decimal_bytes(idx as nat);
        lemma_cells_one(encode_utf8(nat_decimal(idx as nat)));
        assert(row_cells(buf, t, idx, 0, g) =~= seq![encode_utf8(nat_decimal(idx as nat))]);
    } else {
        lemma_row_cells(buf, t, idx, j - 1, g);
        let prev = row_text(buf, t, idx, j - 1, g);
        let esc = escaped(cell_text(buf, t, column_field(t, j - 1), idx, g));
        lemma_encode_push_ascii(prev, '\t');
        lemma_encode_concat(prev + seq!['\t'], esc);
        assert(row_text(buf, t, idx, j, g) == prev + seq!['\t'] + esc);
        let eb = encode_utf8(esc);
        assert(encode_utf8(row_text(buf, t, idx, j, g)) == encode_utf8(prev) + seq![9u8] + eb);
        lemma_escaped_bytes(cell_text(buf, t, column_field(t, j - 1), idx, g));
        lemma_cells_concat(encode_utf8(prev), eb, 0);
        lemma_cells_one(eb);
        assert(row_cells(buf, t, idx, j, g) =~= row_cells(buf, t, idx, j - 1, g) + seq![eb]);
        lemma_lacks_concat(encode_utf8(prev), seq![9u8], 10);
        lemma_lacks_concat(encode_utf8(prev) + seq![9u8], eb, 10);
    }
}

/// No field name holds a tab or a newline.
pub open spec fn names_plain(fields: Seq<FieldDescriptor>) -> bool {
    forall|i: int, k: int|
        0 <= i < fields.len() && 0 <= k < fields[i].name@.len() ==> #[trigger] fields[i].name@[k]
            != '\t' && fields[i].name@[k] != '\n'
}

/// The cell bytes of the header line: `#`, then each of the first `k` names.
pub open spec fn header_cells(fields: Seq<FieldDescriptor>, k: int) -> Seq<Seq<u8>> {
    seq![seq![35u8]] + Seq::new(k as nat, |i: int| encode_utf8(fields[i].name@))
}

/// The exported header splits into `#` and the field names, and has no newline.
proof fn lemma_header_cells(fields: Seq<FieldDescriptor>, k: int)
    requires
        names_plain(fields),
        0 <= k <= fields.len(),
    ensures
        cells_from(encode_utf8(header_text(fields, k)), 0) == header_cells(fields, k),
        lacks_byte(encode_utf8(header_text(fields, k)), 10),
    decreases k,
{
    if k == 0 {
        lemma_encode_ascii_char('#');
        assert(seq![35u8][0] != 9 && seq![35u8][0] != 10);
        lemma_cells_one(seq![35u8]);
        assert(header_cells(fields, 0) =~= seq![seq![35u8]]);
    } else {
        lemma_header_cells(fields, k - 1);
        let prev = header_text(fields, k - 1);
        let name = fields[k - 1].name@;
        lemma_encode_push_ascii(prev, '\t');
        lemma_encode_concat(prev + seq!['\t'], name);
        let nb = encode_utf8(name);
        assert(encode_utf8(header_text(fields, k)) == encode_utf8(prev) + seq![9u8] + nb);
        assert forall|i: int| 0 <= i < name.len() implies (#[trigger] name[i]) as u32 != 9u8 as u32 by {
            lemma_char_numbers_differ(name[i], '\t');
            assert('\t' as u32 == 9);
        }
        lemma_encode_lacks(name, 9);
        assert forall|i: int| 0 <= i < name.len() implies (#[trigger] name[i]) as u32 != 10u8 as u32 by {
            lemma_char_numbers_differ(name[i], '\n');
            assert('\n' as u32 == 10);
        }
        lemma_encode_lacks(name, 10);
        lemma_cells_concat(encode_utf8(prev), nb, 0);
        lemma_cells_one(nb);
        assert(header_cells(fields, k) =~= header_cells(fields, k - 1) + seq![nb]);
        lemma_lacks_concat(encode_utf8(prev), seq![9u8], 10);
        lemma_lacks_concat(encode_utf8(prev) + seq![9u8], nb, 10);
    }
}

/// The line end, as bytes.
pub proof fn lemma_crlf_bytes()
    ensures
        encode_utf8(crlf()) == crlf_bytes(),
{
    assert(crlf() == seq!['\r'] + seq!['\n']);
    lemma_encode_concat(seq!['\r'], seq!['\n']);
    lemma_encode_ascii_char('\r');
    lemma_encode_ascii_char('\n');
}

/// The exported lines of the first `k` records.
pub open spec fn row_lines(buf: Seq<u8>, t: TableInfo, k: int, g: spec_fn(u32) -> Seq<char>) -> Seq<Seq<u8>> {
    Seq::new(k as nat, |i: int| encode_utf8(row_text(buf, t, i, t.fields@.len() as int, g)))
}

/// The record lines split into one line per record, and end a line.
proof fn lemma_rows_lines(buf: Seq<u8>, t: TableInfo, k: int, g: spec_fn(u32) -> Seq<char>)
    requires
        0 <= k,
    ensures
        lines_from(encode_utf8(rows_text(buf, t, k, g)), 0) == row_lines(buf, t, k, g),
        encode_utf8(rows_text(buf, t, k, g)).len() == 0 || encode_utf8(rows_text(buf, t, k, g)).last() == 10,
    decreases k,
{
    if k == 0 {
        assert(lines_from(Seq::<u8>::empty(), 0) == Seq::<Seq<u8>>::empty());
        assert(row_lines(buf, t, 0, g) =~= Seq::<Seq<u8>>::empty());
    } else {
        lemma_rows_lines(buf, t, k - 1, g);
        let prev = rows_text(buf, t, k - 1, g);
        let r = row_text(buf, t, k - 1, t.fields@.len() as int, g);
        lemma_row_cells(buf, t, k - 1, t.fields@.len() as int, g);
        lemma_encode_concat(prev, r);
        lemma_encode_concat(prev + r, crlf());
        lemma_crlf_bytes();
        assert(encode_utf8(rows_text(buf, t, k, g)) == encode_utf8(prev) + encode_utf8(r) + crlf_bytes());
        lemma_lines_append(encode_utf8(prev), encode_utf8(r));
        assert(row_lines(buf, t, k, g) =~= row_lines(buf, t, k - 1, g).push(encode_utf8(r)));
    }
}

/// The lines of an exported table: the header, then one line per record.
pub proof fn lemma_export_lines(buf: Seq<u8>, t: TableInfo, g: spec_fn(u32) -> Seq<char>)
    requires
        names_plain(t.fields@),
    ensures
        lines_from(encode_utf8(crate::tsv::export_text(buf, t, g)), 0) == seq![
            encode_utf8(header_text(t.fields@, t.fields@.len() as int)),
        ] + row_lines(buf, t, t.n_written_records as int, g),
{
    let h = header_text(t.fields@, t.fields@.len() as int);
    let rows = rows_text(buf, t, t.n_written_records as int, g);
    lemma_header_cells(t.fields@, t.fields@.len() as int);
    lemma_rows_lines(buf, t, t.n_written_records as int, g);
    lemma_crlf_bytes();
    lemma_encode_concat(h, crlf());
    lemma_encode_concat(h + crlf(), rows);
    let hb = encode_utf8(h) + crlf_bytes();
    assert(encode_utf8(crate::tsv::export_text(buf, t, g)) == hb + encode_utf8(rows));
    lemma_lines_append(Seq::<u8>::empty(), encode_utf8(h));
    assert(Seq::<u8>::empty() + encode_utf8(h) + crlf_bytes() =~= hb);
    assert(lines_from(Seq::<u8>::empty(), 0) == Seq::<Seq<u8>>::empty());
    assert(lines_from(hb, 0) =~= seq![encode_utf8(h)]);
    lemma_lines_concat(hb, encode_utf8(rows), 0);
}

// ---------------------------------------------------------------------------------------
// Writing a field's own value back
// ---------------------------------------------------------------------------------------

/// A bit is 0 or 1.
proof fn lemma_bit_is_bit(x: Seq<u8>, b: int)
    ensures
        bit_at(x, b) <= 1,
{
    let v = x[b / 8];
    let k = (b % 8) as u8;
    assert((v >> k) & 1u8 <= 1u8) by (bit_vector);
}

/// The value of `n` bits is below `2^n`.
proof fn lemma_bits_value_bound(x: Seq<u8>, off: int, n: nat)
    ensures
        bits_value(x, off, n) < pow2(n),
    decreases n,
{
    if n == 0 {
        lemma2_to64();
    } else {
        let m = (n - 1) as nat;
        lemma_bits_value_bound(x, off, m);
        lemma_bit_is_bit(x, off + m);
        lemma_pow2_unfold(n);
        assert(off + n - 1 == off + m);
        let bx = bit_at(x, off + m);
        let p = pow2(m);
        assert(bits_value(x, off, n) == bits_value(x, off, m) + (bx as nat) * p);
        lemma_pow2_pos(m);
        assert((bx as nat) * p <= p) by (nonlinear_arith)
            requires
                bx <= 1,
                p > 0,
        ;
    }
}

/// Two runs of `n` bits with the same value have the same bits.
proof fn lemma_bits_value_injective(x: Seq<u8>, y: Seq<u8>, off: int, n: nat)
    requires
        bits_value(x, off, n) == bits_value(y, off, n),
    ensures
        forall|b: int| off <= b < off + n ==> #[trigger] bit_at(x, b) == bit_at(y, b),
    decreases n,
{
    if n > 0 {
        let m = (n - 1) as nat;
        lemma_bits_value_bound(x, off, m);
        lemma_bits_value_bound(y, off, m);
        lemma_bit_is_bit(x, off + m);
        lemma_bit_is_bit(y, off + m);
        let p = pow2(m);
        let bx = bit_at(x, off + m);
        let by_ = bit_at(y, off + m);
        assert(off + n - 1 == off + m);
        assert(bits_value(x, off, n) == bits_value(x, off, m) + (bx as nat) * p);
        assert(bits_value(y, off, n) == bits_value(y, off, m) + (by_ as nat) * p);
        if bx == 0 && by_ == 1 {
            assert(bits_value(y, off, n) == bits_value(y, off, m) + p);
        } else if bx == 1 && by_ == 0 {
            assert(bits_value(x, off, n) == bits_value(x, off, m) + p);
        }
        assert(bx == by_);
        assert(bits_value(x, off, m) == bits_value(y, off, m));
        lemma_bits_value_injective(x, y, off, m);
    }
}

/// Writing an integer field's own raw value back leaves its bytes as they were, and the value
/// fits the field.
pub proof fn lemma_int_write_back(x: Seq<u8>, off: int, depth: nat)
    requires
        depth <= 32,
        bit_range_fits(x.len(), off, depth as int),
    ensures
        bits_value(x, off, depth) <= spec_max_value_for_depth(depth as u32),
        bits_written(x, x, off, depth as int, bits_value(x, off, depth) as u32),
{
    let v = bits_value(x, off, depth);
    lemma_bits_value_bound(x, off, depth);
    lemma_pow2_pos(depth);
    if depth == 32 {
        lemma2_to64();
    } else {
        vstd::bits::lemma_u32_pow2_no_overflow(depth);
    }
    assert(v <= spec_max_value_for_depth(depth as u32));
    assert(v <= u32::MAX);
    assert((v as u32) as nat == v);
    let n = with_bits(x, off, v as u32, depth as int);
    lemma_with_bits(x, off, depth as int, v as u32, depth as int);
    lemma_write_then_read(x, n, off, depth, v as u32);
    lemma_bits_value_injective(n, x, off, depth);
    assert forall|b: int| 0 <= b < 8 * x.len() implies #[trigger] bit_at(x, b) == if off <= b < off + depth {
        crate::codec::value_bit(v as u32, b - off)
    } else {
        bit_at(x, b)
    } by {
        if off <= b < off + depth {
            assert(bit_at(n, b) == bit_at(x, b));
        }
    }
}

/// The little-endian bytes of the `u32` read at `p` are the bytes there.
pub proof fn lemma_le4_of_read(b: Seq<u8>, p: int)
    requires
        0 <= p,
        p + 4 <= b.len(),
    ensures
        le4(u32le(b, p)) == b.subrange(p, p + 4),
        splice(b, p, le4(u32le(b, p))) == b,
{
    let b0 = b[p] as int;
    let b1 = b[p + 1] as int;
    let b2 = b[p + 2] as int;
    let b3 = b[p + 3] as int;
    let v = u32le(b, p) as int;
    assert(v == b0 + 256 * b1 + 65536 * b2 + 16777216 * b3);
    vstd::arithmetic::div_mod::lemma_fundamental_div_mod_converse(v, 256, b1 + 256 * b2 + 65536 * b3, b0);
    vstd::arithmetic::div_mod::lemma_fundamental_div_mod_converse(v / 256, 256, b2 + 256 * b3, b1);
    vstd::arithmetic::div_mod::lemma_fundamental_div_mod_converse(v, 65536, b2 + 256 * b3, b0 + 256 * b1);
    vstd::arithmetic::div_mod::lemma_fundamental_div_mod_converse(v / 65536, 256, b3, b2);
    vstd::arithmetic::div_mod::lemma_fundamental_div_mod_converse(v, 16777216, b3, b0 + 256 * b1 + 65536 * b2);
    assert(le4(u32le(b, p)) =~= b.subrange(p, p + 4));
    assert(splice(b, p, le4(u32le(b, p))) =~= b);
}

/// A string field holds valid UTF-8 before its first NUL and only NULs after it.
pub open spec fn string_bytes_clean(bytes: Seq<u8>) -> bool {
    &&& valid_utf8(until_nul(bytes))
    &&& forall|i: int| nul_pos(bytes, 0) <= i < bytes.len() ==> #[trigger] bytes[i] == 0
}

/// Writing a clean string field's own text back leaves its bytes as they were.
pub proof fn lemma_string_write_back(bytes: Seq<u8>)
    requires
        string_bytes_clean(bytes),
    ensures
        encode_utf8(utf8_text(until_nul(bytes))).len() <= bytes.len(),
        nul_padded(encode_utf8(utf8_text(until_nul(bytes))), bytes.len() as int) == bytes,
{
    let u = until_nul(bytes);
    crate::codec::lemma_nul_pos_bounds(bytes, 0);
    vstd::utf8::decode_utf8_encode_utf8(u);
    assert(encode_utf8(utf8_text(u)) == u);
    assert(nul_padded(u, bytes.len() as int) =~= bytes);
}

// ---------------------------------------------------------------------------------------
// Importing one exported cell
// ---------------------------------------------------------------------------------------

/// The characters of a decimal number are digits, and there is at least one.
pub proof fn lemma_decimal_chars(n: nat)
    ensures
        nat_decimal(n).len() > 0,
        forall|i: int| 0 <= i < nat_decimal(n).len() ==> 48 <= #[trigger] (nat_decimal(n)[i] as u32) <= 57,
    decreases n,
{
    let d = digit_char(n % 10);
    assert(d as u32 == n % 10 + 48);
    if n >= 10 {
        lemma_decimal_chars(n / 10);
        let p = nat_decimal(n / 10);
        assert forall|i: int| 0 <= i < nat_decimal(n).len() implies 48 <= #[trigger] (nat_decimal(n)[i] as u32) <= 57 by {
            if i < p.len() {
                assert(nat_decimal(n)[i] == p[i]);
            }
        }
    }
}

/// The decimal text of an integer is its own trimmed form.
pub proof fn lemma_int_decimal_trimmed(v: int)
    ensures
        trimmed(int_decimal(v)) == int_decimal(v),
{
    let m = if v < 0 { (-v) as nat } else { v as nat };
    lemma_decimal_chars(m);
    let d = nat_decimal(m);
    let s = int_decimal(v);
    assert(!is_white_space(d[0]));
    assert(!is_white_space(d.last()));
    if v < 0 {
        assert(s[0] == '-');
        assert('-' as u32 == 45);
        assert(s.last() == d.last());
    }
    lemma_trimmed_unchanged(s);
}

/// The first characters that are not whitespace end no earlier than the first character.
proof fn lemma_end_non_space_from(s: Seq<char>, j: int)
    requires
        1 <= j <= s.len(),
        !is_white_space(s[0]),
    ensures
        1 <= crate::text::end_non_space(s, j) <= j,
    decreases j,
{
    if j > 1 && is_white_space(s[j - 1]) {
        lemma_end_non_space_from(s, j - 1);
    }
}

/// A text that starts with a character other than whitespace does not trim to nothing.
pub proof fn lemma_trimmed_nonempty(s: Seq<char>)
    requires
        s.len() > 0,
        !is_white_space(s[0]),
    ensures
        trimmed(s).len() > 0,
{
    lemma_end_non_space_from(s, s.len() as int);
    assert(crate::text::first_non_space(s, 0) == 0);
}

/// The bits of the float field `i` of live record `idx` of `t`.
pub open spec fn float_cell_bits(buf: Seq<u8>, t: TableInfo, idx: int, i: int) -> u32 {
    u32le(buf, record_start(t, idx) + t.fields@[i].bit_offset as int / 8)
}

/// The bits held by the float cells of the live records of `t`.
pub open spec fn table_float_bits(buf: Seq<u8>, t: TableInfo) -> Set<u32> {
    Set::new(
        |b: u32|
            exists|idx: int, i: int|
                0 <= idx < t.n_written_records && 0 <= i < t.fields@.len() && t.fields@[i].field_type
                    == FieldType::Float && b == #[trigger] float_cell_bits(buf, t, idx, i),
    )
}

/// The float parser `h` reads back the text that the formatter `g` writes for each float held
/// in a live record of `t`.
pub open spec fn floats_read_back(
    buf: Seq<u8>,
    t: TableInfo,
    g: spec_fn(u32) -> Seq<char>,
    h: spec_fn(Seq<char>) -> Option<u32>,
) -> bool {
    forall|b: u32| #[trigger] table_float_bits(buf, t).contains(b) ==> h(trimmed(g(b))) == Some(b)
}

/// Every string cell of the live records reads as a text that some `String` holds, with valid
/// UTF-8 before its first NUL and only NULs after it.
pub open spec fn string_cell_clean(buf: Seq<u8>, t: TableInfo, f: FieldDescriptor, idx: int) -> bool {
    let p = record_start(t, idx) + f.bit_offset as int / 8;
    let bytes = buf.subrange(p, p + f.depth as int / 8);
    &&& string_bytes_clean(bytes)
    &&& exists|s: String| s@ == utf8_text(until_nul(bytes))
}

/// Importing the exported text of cell `j` of live record `idx` back into that record either
/// refuses the cell or writes the bytes that are already there.
pub proof fn lemma_cell_write_back(
    tables: Seq<TableInfo>,
    buf: Seq<u8>,
    ts: Seq<char>,
    ti: int,
    idx: int,
    j: int,
    g: spec_fn(u32) -> Seq<char>,
    h: spec_fn(Seq<char>) -> Option<u32>,
)
    requires
        0 <= ti < tables.len(),
        crate::edit::table_index_in(tables, ts) == Some(ti),
        crate::squad::table_wf(tables[ti], buf.len() as int),
        0 <= idx < tables[ti].n_written_records,
        0 <= j < tables[ti].fields@.len(),
        crate::fields::can_read_in(tables, buf, ts, idx, tables[ti].fields@[j].name@),
        column_field(tables[ti], j).field_type == FieldType::String ==> string_cell_clean(
            buf,
            tables[ti],
            column_field(tables[ti], j),
            idx,
        ),
        floats_read_back(buf, tables[ti], g, h),
    ensures
        tables[ti].spec_field_index(tables[ti].fields@[j].name@) matches Some(fi) && tables[ti].fields@[fi]
            == column_field(tables[ti], j),
        match crate::tsv::cell_value(
            column_field(tables[ti], j).field_type,
            cell_text(buf, tables[ti], column_field(tables[ti], j), idx, g),
            h,
        ) {
            Some(v) => crate::edit::spec_write(tables, buf, ts, idx, tables[ti].fields@[j].name@, v).1 == buf,
            None => true,
        },
{
    let t = tables[ti];
    let name = t.fields@[j].name@;
    crate::tsv::lemma_own_name_found(t.fields@, j, 0);
    let fi = t.spec_field_index(name).unwrap();
    let f = t.fields@[fi];
    assert(f == column_field(t, j));
    crate::fields::lemma_record_in_buffer(t, buf.len() as int, idx);
    let rs = record_start(t, idx);
    let bo8 = f.bit_offset as int / 8;
    let ct = cell_text(buf, t, f, idx, g);
    assert(crate::parse::needed_bytes(t.fields@[fi].field_type, t.fields@[fi].bit_offset, t.fields@[fi].depth) <= t.rec_bytes);
    match f.field_type {
        FieldType::Integer => {
            let x = buf.skip(rs);
            let bv = bits_value(x, f.bit_offset as int, f.depth as nat);
            assert(crate::fields::int_cell_ok(buf, t, f, idx));
            let val = bv + f.rangelow;
            assert(((val as i64) as int) == val);
            assert(ct == int_decimal(val));
            lemma_int_decimal_trimmed(val);
            lemma_parse_int_decimal(val, i64::MIN as int, i64::MAX as int);
            let v = FieldValue::Int(val as i64);
            assert(crate::tsv::cell_value(f.field_type, ct, h) == Some(v));
            lemma_int_write_back(x, f.bit_offset as int, f.depth as nat);
            assert(crate::edit::write_accepted(f, v));
            assert(buf.subrange(0, rs) == buf.subrange(0, rs));
            assert(crate::edit::field_written(buf, buf, t, f, idx, v));
            let n = choose|n: Seq<u8>| crate::edit::field_written(buf, n, t, f, idx, v);
            crate::edit::lemma_field_written_unique(buf, n, buf, t, f, idx, v);
        },
        FieldType::Float => {
            let b = u32le(buf, rs + bo8);
            assert(ct == g(b));
            assert(b == float_cell_bits(buf, t, idx, fi));
            assert(table_float_bits(buf, t).contains(b));
            assert(h(trimmed(g(b))) == Some(b));
            let v = FieldValue::Float(b);
            assert(crate::tsv::cell_value(f.field_type, ct, h) == Some(v));
            lemma_le4_of_read(buf, rs + bo8);
            assert(crate::edit::field_written(buf, buf, t, f, idx, v));
            let n = choose|n: Seq<u8>| crate::edit::field_written(buf, n, t, f, idx, v);
            crate::edit::lemma_field_written_unique(buf, n, buf, t, f, idx, v);
        },
        FieldType::String => {
            let bytes = buf.subrange(rs + bo8, rs + bo8 + f.depth as int / 8);
            assert(ct == utf8_text(until_nul(bytes)));
            let v = crate::tsv::str_value(ct);
            let w = choose|s: String| s@ == utf8_text(until_nul(bytes));
            assert(crate::tsv::str_text(FieldValue::Str(w)) == Some(ct));
            assert(crate::tsv::str_text(v) == Some(ct));
            assert(crate::tsv::cell_value(f.field_type, ct, h) == Some(v));
            lemma_string_write_back(bytes);
            assert(crate::edit::write_accepted(f, v));
            assert(splice(buf, rs + bo8, bytes) =~= buf);
            assert(crate::edit::field_written(buf, buf, t, f, idx, v));
            let n = choose|n: Seq<u8>| crate::edit::field_written(buf, n, t, f, idx, v);
            crate::edit::lemma_field_written_unique(buf, n, buf, t, f, idx, v);
        },
        _ => {},
    }
}

// ---------------------------------------------------------------------------------------
// Importing an exported table
// ---------------------------------------------------------------------------------------

/// The string cells of the live records of `t` are clean (see `string_cell_clean`).
pub open spec fn strings_clean(buf: Seq<u8>, t: TableInfo) -> bool {
    forall|idx: int, j: int|
        0 <= idx < t.n_written_records && 0 <= j < t.fields@.len() && column_field(t, j).field_type
            == FieldType::String ==> #[trigger] string_cell_clean(buf, t, column_field(t, j), idx)
}

/// What the import of an exported table needs of the table that `ts` names among `tables`.
pub open spec fn export_reimportable(tables: Seq<TableInfo>, buf: Seq<u8>, ts: Seq<char>, ti: int) -> bool {
    &&& 0 <= ti < tables.len()
    &&& crate::edit::table_index_in(tables, ts) == Some(ti)
    &&& crate::squad::table_wf(tables[ti], buf.len() as int)
    &&& names_plain(tables[ti].fields@)
    &&& strings_clean(buf, tables[ti])
    &&& forall|k: int, j: int|
        0 <= k < tables[ti].n_written_records && 0 <= j < tables[ti].fields@.len()
            ==> #[trigger] crate::fields::can_read_in(tables, buf, ts, k, tables[ti].fields@[j].name@)
}

/// Importing the cells of record `idx`'s exported line leaves the bytes as they are.
proof fn lemma_row_fold_keeps(
    tables: Seq<TableInfo>,
    buf: Seq<u8>,
    ts: Seq<char>,
    ti: int,
    idx: int,
    k: int,
    g: spec_fn(u32) -> Seq<char>,
    h: spec_fn(Seq<char>) -> Option<u32>,
)
    requires
        export_reimportable(tables, buf, ts, ti),
        0 <= idx < tables[ti].n_written_records,
        0 <= k <= tables[ti].fields@.len(),
        floats_read_back(buf, tables[ti], g, h),
    ensures
        crate::tsv::row_fold(
            tables,
            buf,
            ts,
            tables[ti],
            idx,
            header_cells(tables[ti].fields@, tables[ti].fields@.len() as int),
            row_cells(buf, tables[ti], idx, tables[ti].fields@.len() as int, g),
            k,
            h,
        ).0 == buf,
    decreases k,
{
    if k > 0 {
        lemma_row_fold_keeps(tables, buf, ts, ti, idx, k - 1, g, h);
        let t = tables[ti];
        let nf = t.fields@.len() as int;
        let cols = header_cells(t.fields@, nf);
        let cs = row_cells(buf, t, idx, nf, g);
        let name = t.fields@[k - 1].name@;
        assert(cols[k] == encode_utf8(name));
        lemma_text_of_encoding(name);
        let ct = cell_text(buf, t, column_field(t, k - 1), idx, g);
        assert(cs[k] == encode_utf8(escaped(ct)));
        lemma_text_of_encoding(escaped(ct));
        crate::tsv::law_unescape_inverts_escape(ct);
        assert(crate::fields::can_read_in(tables, buf, ts, idx, t.fields@[k - 1].name@));
        if column_field(t, k - 1).field_type == FieldType::String {
            assert(string_cell_clean(buf, t, column_field(t, k - 1), idx));
        }
        lemma_cell_write_back(tables, buf, ts, ti, idx, k - 1, g, h);
    }
}

/// An exported line starts with the record's index.
proof fn lemma_row_text_starts(buf: Seq<u8>, t: TableInfo, idx: int, j: int, g: spec_fn(u32) -> Seq<char>)
    requires
        0 <= idx,
        0 <= j,
    ensures
        row_text(buf, t, idx, j, g).len() > 0,
        row_text(buf, t, idx, j, g)[0] == nat_decimal(idx as nat)[0],
    decreases j,
{
    lemma_decimal_chars(idx as nat);
    if j > 0 {
        lemma_row_text_starts(buf, t, idx, j - 1, g);
    }
}

/// Importing record `idx`'s exported line leaves the bytes as they are and skips no row.
proof fn lemma_line_keeps(
    tables: Seq<TableInfo>,
    buf: Seq<u8>,
    ts: Seq<char>,
    ti: int,
    idx: int,
    p: (Seq<u8>, int, int, int),
    g: spec_fn(u32) -> Seq<char>,
    h: spec_fn(Seq<char>) -> Option<u32>,
)
    requires
        export_reimportable(tables, buf, ts, ti),
        0 <= idx < tables[ti].n_written_records,
        p.0 == buf,
        floats_read_back(buf, tables[ti], g, h),
    ensures
        ({
            let t = tables[ti];
            let nf = t.fields@.len() as int;
            let q = crate::tsv::line_step(
                tables,
                p,
                ts,
                t,
                header_cells(t.fields@, nf),
                encode_utf8(row_text(buf, t, idx, nf, g)),
                h,
            );
            q.0 == buf && q.3 == p.3
        }),
{
    let t = tables[ti];
    let nf = t.fields@.len() as int;
    let line = encode_utf8(row_text(buf, t, idx, nf, g));
    lemma_text_of_encoding(row_text(buf, t, idx, nf, g));
    lemma_row_text_starts(buf, t, idx, nf, g);
    lemma_decimal_chars(idx as nat);
    lemma_trimmed_nonempty(row_text(buf, t, idx, nf, g));
    lemma_row_cells(buf, t, idx, nf, g);
    let cs = crate::tsv::cells(line);
    assert(cs == row_cells(buf, t, idx, nf, g));
    assert(cs[0] == encode_utf8(nat_decimal(idx as nat)));
    lemma_text_of_encoding(nat_decimal(idx as nat));
    lemma_int_decimal_trimmed(idx);
    lemma_parse_nat_decimal(idx as nat, 0, usize::MAX as int);
    assert(header_cells(t.fields@, nf).len() - 1 == nf);
    lemma_row_fold_keeps(tables, buf, ts, ti, idx, nf, g, h);
}

/// Importing the exported lines of the first `k` records leaves the bytes as they are and
/// skips no row.
proof fn lemma_rows_fold_keeps(
    tables: Seq<TableInfo>,
    buf: Seq<u8>,
    ts: Seq<char>,
    ti: int,
    k: int,
    g: spec_fn(u32) -> Seq<char>,
    h: spec_fn(Seq<char>) -> Option<u32>,
)
    requires
        export_reimportable(tables, buf, ts, ti),
        0 <= k <= tables[ti].n_written_records,
        floats_read_back(buf, tables[ti], g, h),
    ensures
        ({
            let t = tables[ti];
            let f = crate::tsv::rows_fold(
                tables,
                buf,
                ts,
                t,
                header_cells(t.fields@, t.fields@.len() as int),
                row_lines(buf, t, t.n_written_records as int, g),
                k,
                h,
            );
            f.0 == buf && f.3 == 0
        }),
    decreases k,
{
    if k > 0 {
        lemma_rows_fold_keeps(tables, buf, ts, ti, k - 1, g, h);
        let t = tables[ti];
        let prev = crate::tsv::rows_fold(
            tables,
            buf,
            ts,
            t,
            header_cells(t.fields@, t.fields@.len() as int),
            row_lines(buf, t, t.n_written_records as int, g),
            k - 1,
            h,
        );
        lemma_line_keeps(tables, buf, ts, ti, k - 1, prev, g, h);
    }
}

/// Every column of an exported header names a field.
proof fn lemma_no_unknown_cols(t: TableInfo, k: int)
    requires
        0 <= k <= t.fields@.len(),
    ensures
        crate::tsv::unknown_cols(t, header_cells(t.fields@, t.fields@.len() as int), k).len() == 0,
    decreases k,
{
    if k > 0 {
        lemma_no_unknown_cols(t, k - 1);
        let cols = header_cells(t.fields@, t.fields@.len() as int);
        assert(cols[k] == encode_utf8(t.fields@[k - 1].name@));
        lemma_text_of_encoding(t.fields@[k - 1].name@);
        crate::tsv::lemma_own_name_found(t.fields@, k - 1, 0);
    }
}

/// Importing table `ti`'s own export changes no byte, skips no row and meets no unknown
/// column.
proof fn lemma_reimport_outcome(
    tables: Seq<TableInfo>,
    buf: Seq<u8>,
    ts: Seq<char>,
    ti: int,
    g: spec_fn(u32) -> Seq<char>,
    h: spec_fn(Seq<char>) -> Option<u32>,
)
    requires
        export_reimportable(tables, buf, ts, ti),
        crate::edit::table_crc_valid(buf, tables[ti]),
        floats_read_back(buf, tables[ti], g, h),
    ensures
        import_outcome(tables, buf, ts, encode_utf8(export_text(buf, tables[ti], g)), h) matches Some(o)
            && o.0 == buf && o.3 == 0 && o.4.len() == 0,
{
    let t = tables[ti];
    let nf = t.fields@.len() as int;
    lemma_export_lines(buf, t, g);
    let b = encode_utf8(export_text(buf, t, g));
    let ls = lines_from(b, 0);
    assert(ls[0] == encode_utf8(header_text(t.fields@, nf)));
    lemma_header_cells(t.fields@, nf);
    let cols = crate::tsv::cells(ls[0]);
    assert(cols == header_cells(t.fields@, nf));
    lemma_encode_ascii_char('#');
    assert('#' as u32 == 35);
    lemma_text_of_encoding(seq!['#']);
    assert(utf8_text(cols[0]) == seq!['#']);
    assert(ls.drop_first() =~= row_lines(buf, t, t.n_written_records as int, g));
    lemma_rows_fold_keeps(tables, buf, ts, ti, t.n_written_records as int, g, h);
    lemma_no_unknown_cols(t, nf);
    match t.record_crc_pos {
        Some(p) => {
            lemma_le4_of_read(buf, p as int);
        },
        None => {},
    }
}

/// Table `ts` of the squad can take back its own export unchanged: it can be read, no field
/// name has a tab or a newline, every string cell is clean (valid UTF-8 up to its first NUL,
/// only NULs after it) and its stored checksum is valid.
pub open spec fn table_reimportable(squad: SquadFile, ts: Seq<char>) -> bool {
    match squad.spec_table_index(ts) {
        Some(ti) => {
            &&& table_readable(squad, ts)
            &&& names_plain(squad.tables@[ti].fields@)
            &&& strings_clean(squad.buf@, squad.tables@[ti])
            &&& crate::edit::table_crc_valid(squad.buf@, squad.tables@[ti])
        },
        None => true,
    }
}

/// What a reimportable table needs of its parts.
proof fn lemma_table_reimportable(squad: SquadFile, ts: Seq<char>, ti: int)
    requires
        squad.wf(),
        squad.spec_table_index(ts) == Some(ti),
        table_reimportable(squad, ts),
    ensures
        export_reimportable(squad.tables@, squad.buf@, ts, ti),
{
    let tables = squad.tables@;
    let buf = squad.buf@;
    crate::squad::lemma_last_table_bounds(tables, ts, tables.len() as int);
    let t = tables[ti];
    assert(crate::squad::table_wf(tables[ti], buf.len() as int));
    assert forall|k: int, j: int|
        0 <= k < t.n_written_records && 0 <= j < t.fields@.len() implies #[trigger] crate::fields::can_read_in(
        tables,
        buf,
        ts,
        k,
        t.fields@[j].name@,
    ) by {
        assert(squad.can_read(ts, k, t.fields@[j].name@));
    }
}

/// Importing a table's own tab-separated export back into the save changes no byte: each cell
/// reads back as the value it was exported from, which is what its bytes already hold, and a
/// refreshed table checksum is the one already stored. No row is skipped and every column
/// names a field. This holds where the table can take back its own export (see
/// `table_reimportable`) and the float parser `h` reads back the text that the formatter `g`
/// writes for each float held in a live record of the table (`floats_read_back`).
pub proof fn law_reimporting_an_export_changes_nothing(
    squad: SquadFile,
    ts: Seq<char>,
    ti: int,
    g: spec_fn(u32) -> Seq<char>,
    h: spec_fn(Seq<char>) -> Option<u32>,
)
    requires
        squad.wf(),
        squad.spec_table_index(ts) == Some(ti),
        table_reimportable(squad, ts),
        floats_read_back(squad.buf@, squad.tables@[ti], g, h),
    ensures
        import_outcome(
            squad.tables@,
            squad.buf@,
            ts,
            encode_utf8(export_text(squad.buf@, squad.tables@[ti], g)),
            h,
        ) matches Some(o) && o.0 == squad.buf@ && o.3 == 0 && o.4.len() == 0,
{
    lemma_table_reimportable(squad, ts, ti);
    lemma_reimport_outcome(squad.tables@, squad.buf@, ts, ti, g, h);
}

/// Importing every file that `export_all` wrote back into the save changes no byte and skips
/// no row, where each file's name leads back to the table it was exported from, each table can
/// take back its own export, and the float parser `h` reads back the text that the formatter
/// `g` writes for each float held in a live record of a table.
pub proof fn law_reimporting_every_export_changes_nothing(
    squad: SquadFile,
    files: Seq<(&str, &str)>,
    g: spec_fn(u32) -> Seq<char>,
    h: spec_fn(Seq<char>) -> Option<u32>,
)
    requires
        squad.wf(),
        files.len() <= squad.tables@.len(),
        forall|i: int|
            0 <= i < files.len() ==> {
                let sn = squad.tables@[i].shortname@;
                &&& (#[trigger] files[i]).0@ == crate::checks::table_label(squad.tables@[i])
                &&& files[i].1@ == crate::tsv::exported_or_empty(squad, sn, g)
                &&& crate::tsv::resolve_table(squad.tables@, files[i].0@) == Some(sn)
                &&& table_reimportable(squad, sn)
            },
        forall|i: int| 0 <= i < squad.tables@.len() ==> #[trigger] floats_read_back(squad.buf@, squad.tables@[i], g, h),
    ensures
        crate::tsv::all_fold(squad.tables@, squad.buf@, files, files.len() as int, h).0 == squad.buf@,
        crate::tsv::all_fold(squad.tables@, squad.buf@, files, files.len() as int, h).3 == 0,
{
    lemma_every_export(squad, files, files.len() as int, g, h);
}

proof fn lemma_every_export(
    squad: SquadFile,
    files: Seq<(&str, &str)>,
    k: int,
    g: spec_fn(u32) -> Seq<char>,
    h: spec_fn(Seq<char>) -> Option<u32>,
)
    requires
        squad.wf(),
        files.len() <= squad.tables@.len(),
        0 <= k <= files.len(),
        forall|i: int|
            0 <= i < files.len() ==> {
                let sn = squad.tables@[i].shortname@;
                &&& (#[trigger] files[i]).0@ == crate::checks::table_label(squad.tables@[i])
                &&& files[i].1@ == crate::tsv::exported_or_empty(squad, sn, g)
                &&& crate::tsv::resolve_table(squad.tables@, files[i].0@) == Some(sn)
                &&& table_reimportable(squad, sn)
            },
        forall|i: int| 0 <= i < squad.tables@.len() ==> #[trigger] floats_read_back(squad.buf@, squad.tables@[i], g, h),
    ensures
        crate::tsv::all_fold(squad.tables@, squad.buf@, files, k, h).0 == squad.buf@,
        crate::tsv::all_fold(squad.tables@, squad.buf@, files, k, h).3 == 0,
    decreases k,
{
    if k > 0 {
        lemma_every_export(squad, files, k - 1, g, h);
        let tables = squad.tables@;
        let sn = tables[k - 1].shortname@;
        let f = files[k - 1];
        assert(crate::tsv::resolve_table(tables, f.0@) == Some(sn));
        crate::squad::lemma_table_found(tables, sn, k - 1);
        let ti = squad.spec_table_index(sn).unwrap();
        let b = f.1.spec_bytes();
        if f.1@ == Seq::<char>::empty() {
            assert(b == Seq::<u8>::empty());
            assert(lines_from(b, 0) == Seq::<Seq<u8>>::empty());
        } else {
            assert(f.1@ == export_text(squad.buf@, tables[ti], g));
            lemma_table_reimportable(squad, sn, ti);
            assert(floats_read_back(squad.buf@, squad.tables@[ti], g, h));
            lemma_reimport_outcome(tables, squad.buf@, sn, ti, g, h);
        }
    }
}

} // verus!
