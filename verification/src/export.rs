//! Export formats, sheet names, and the comma-separated and JSON texts of the tables.
use vstd::prelude::*;
use vstd::string::StringSliceAdditionalSpecFns;
use vstd::utf8::encode_utf8;

use crate::squad::SquadFile;
use crate::strmap::StrMap;
use crate::model::{FieldDescriptor, FieldType, FieldValue, TableInfo};
use crate::csv::{byte_texts, csv_fields, csv_fields_from, parse_csv_bytes, string_texts};
use crate::text::{lossy_string, utf8_text, parse_usize_bytes, spec_parse_int, trim, trimmed, i64_to_string, int_decimal, nat_decimal, push_char, push_i64, push_str, push_u64, to_owned_string};
use crate::tsv::{lines_from, next_byte_exec, same_layout, table_importable, cell_text, cell_value, crlf, formats, lemma_cell_text_of_value, lemma_write_str_view, parse_cell_value, parses, str_text, str_value};
use crate::edit::spec_write;

verus! {

/// A format that the tables can be exported to.
#[derive(Debug, Clone, Copy, PartialEq, Eq, Structural)]
pub enum ExportFormat {
    Xlsx,
    Csv,
    Json,
    Tsv,
}

pub open spec fn spec_format_label(f: ExportFormat) -> Seq<char> {
    match f {
        ExportFormat::Xlsx => "Excel (.xlsx, one sheet per table)"@,
        ExportFormat::Csv => "CSV (one folder, one file per table)"@,
        ExportFormat::Json => "JSON (single file)"@,
        ExportFormat::Tsv => "TSV (one folder, one file per table)"@,
    }
}

pub open spec fn spec_format_extension(f: ExportFormat) -> Seq<char> {
    match f {
        ExportFormat::Xlsx => "xlsx"@,
        ExportFormat::Json => "json"@,
        ExportFormat::Csv => "csv"@,
        ExportFormat::Tsv => "tsv"@,
    }
}

impl ExportFormat {
    /// The name shown for the format.
    pub fn label(&self) -> (r: &'static str)
        ensures
            r@ == spec_format_label(*self),
    {
        match self {
            ExportFormat::Xlsx => "Excel (.xlsx, one sheet per table)",
            ExportFormat::Csv => "CSV (one folder, one file per table)",
            ExportFormat::Json => "JSON (single file)",
            ExportFormat::Tsv => "TSV (one folder, one file per table)",
        }
    }

    /// Every format, in the order they are offered.
    pub fn all() -> (r: Vec<ExportFormat>)
        ensures
            r@ == seq![ExportFormat::Xlsx, ExportFormat::Csv, ExportFormat::Json, ExportFormat::Tsv],
    {
        let r = vec![ExportFormat::Xlsx, ExportFormat::Csv, ExportFormat::Json, ExportFormat::Tsv];
        assert(r@ =~= seq![ExportFormat::Xlsx, ExportFormat::Csv, ExportFormat::Json, ExportFormat::Tsv]);
        r
    }

    /// Whether the format writes one file rather than a folder.
    pub fn is_single_file(&self) -> (r: bool)
        ensures
            r == (*self == ExportFormat::Xlsx || *self == ExportFormat::Json),
    {
        match self {
            ExportFormat::Xlsx | ExportFormat::Json => true,
            _ => false,
        }
    }

    /// The file extension of the format.
    pub fn extension(&self) -> (r: &'static str)
        ensures
            r@ == spec_format_extension(*self),
    {
        match self {
            ExportFormat::Xlsx => "xlsx",
            ExportFormat::Json => "json",
            ExportFormat::Csv => "csv",
            ExportFormat::Tsv => "tsv",
        }
    }
}

/// The name a table is shown under: its schema name, else its short name.
pub open spec fn display_name(squad: SquadFile, shortname: Seq<char>) -> Seq<char> {
    match squad.spec_table_index(shortname) {
        Some(i) => match squad.tables@[i].name {
            Some(n) => n@,
            None => shortname,
        },
        None => shortname,
    }
}

/// The name a table is shown under: its schema name, else its short name.
pub fn table_display_name(squad: &SquadFile, shortname: &str) -> (r: String)
    ensures
        r@ == display_name(*squad, shortname@),
{
    match squad.table(shortname) {
        Some(t) => match &t.name {
            Some(n) => n.clone(),
            None => to_owned_string(shortname),
        },
        None => to_owned_string(shortname),
    }
}

// ---------------------------------------------------------------------------------------
// Sheet names
// ---------------------------------------------------------------------------------------

/// A character that a sheet name cannot hold.
pub open spec fn sheet_forbidden(c: char) -> bool {
    c == '[' || c == ']' || c == ':' || c == '*' || c == '?' || c == '/' || c == '\\'
}

/// The longest a sheet name can be.
pub const SHEET_NAME_MAX: usize = 31;

/// At most the first `n` characters of `s`.
pub open spec fn take_chars(s: Seq<char>, n: int) -> Seq<char> {
    if s.len() <= n {
        s
    } else {
        s.take(n)
    }
}

/// The base of a sheet name: forbidden characters replaced by `_`, cut to 31 characters.
pub open spec fn sheet_base(raw: Seq<char>) -> Seq<char> {
    take_chars(raw.map_values(|c: char| if sheet_forbidden(c) { '_' } else { c }), SHEET_NAME_MAX as int)
}

/// The sheet name for the `count`-th earlier use of a base: the base itself the first time,
/// else the base cut short and followed by `~` and the count, within 31 characters.
pub open spec fn numbered_sheet_name(base: Seq<char>, count: nat) -> Seq<char> {
    if count == 0 {
        base
    } else {
        let suffix = seq!['~'] + nat_decimal(count);
        let keep = if suffix.len() <= SHEET_NAME_MAX { SHEET_NAME_MAX - suffix.len() } else { 0 };
        take_chars(base, keep) + suffix
    }
}

/// How many times a base has been used.
pub open spec fn uses_of(used: Map<Seq<char>, usize>, base: Seq<char>) -> nat {
    if used.contains_key(base) {
        used[base] as nat
    } else {
        0
    }
}

/// The first `n` characters of `s`.
fn take_prefix(s: &str, n: usize) -> (r: String)
    ensures
        r@ == take_chars(s@, n as int),
{
    let len = s.unicode_len();
    let m = if len < n {
        len
    } else {
        n
    };
    let mut out = String::new();
    let mut i: usize = 0;
    while i < m
        invariant
            m <= len,
            len == s@.len(),
            i <= m,
            out@ == s@.take(i as int),
        decreases m - i,
    {
        let c = s.get_char(i);
        push_char(&mut out, c);
        assert(out@ =~= s@.take(i + 1));
        i = i + 1;
    }
    assert(s@.take(m as int) =~= take_chars(s@, n as int));
    out
}

/// A sheet name for a table shown as `raw` that no earlier sheet has, counting the uses of
/// each base in `used`.
pub fn sheet_name(raw: &str, used: &mut StrMap<usize>) -> (r: String)
    requires
        uses_of(old(used)@, sheet_base(raw@)) < usize::MAX,
    ensures
        r@ == numbered_sheet_name(sheet_base(raw@), uses_of(old(used)@, sheet_base(raw@))),
        final(used)@ == old(used)@.insert(sheet_base(raw@), (uses_of(old(used)@, sheet_base(raw@)) + 1) as usize),
{
    let ghost cleaned = raw@.map_values(|c: char| if sheet_forbidden(c) { '_' } else { c });
    let len = raw.unicode_len();
    let mut base = String::new();
    let mut i: usize = 0;
    while i < len && i < SHEET_NAME_MAX
        invariant
            len == raw@.len(),
            cleaned == raw@.map_values(|c: char| if sheet_forbidden(c) { '_' } else { c }),
            i <= len,
            i <= SHEET_NAME_MAX,
            base@ == cleaned.take(i as int),
        decreases len - i,
    {
        let c = raw.get_char(i);
        let d = if c == '[' || c == ']' || c == ':' || c == '*' || c == '?' || c == '/' || c == '\\' {
            '_'
        } else {
            c
        };
        assert(cleaned[i as int] == d);
        push_char(&mut base, d);
        assert(base@ =~= cleaned.take(i + 1));
        i = i + 1;
    }
    assert(base@ =~= sheet_base(raw@));
    let count: usize = match used.get(base.as_str()) {
        Some(c) => *c,
        None => 0,
    };
    let key = base.clone();
    used.insert(key, count + 1);
    if count == 0 {
        return base;
    }
    let mut suffix = String::new();
    push_char(&mut suffix, '~');
    push_u64(&mut suffix, count as u64);
    let slen = suffix.as_str().unicode_len();
    let keep = if slen <= SHEET_NAME_MAX {
        SHEET_NAME_MAX - slen
    } else {
        0
    };
    let mut out = take_prefix(base.as_str(), keep);
    push_str(&mut out, suffix.as_str());
    out
}

// ---------------------------------------------------------------------------------------
// Escaping for comma-separated and JSON text
// ---------------------------------------------------------------------------------------

/// A character that makes a comma-separated field need quotes.
pub open spec fn csv_special(c: char) -> bool {
    c == ',' || c == '"' || c == '\n' || c == '\r'
}

/// `s` with each double quote doubled.
pub open spec fn doubled_quotes(s: Seq<char>) -> Seq<char>
    decreases s.len(),
{
    if s.len() == 0 {
        s
    } else {
        doubled_quotes(s.drop_last()) + if s.last() == '"' {
            seq!['"', '"']
        } else {
            seq![s.last()]
        }
    }
}

/// A comma-separated field for `s`: quoted, with its quotes doubled, when it holds a comma, a
/// quote or a line break; else `s` itself.
pub open spec fn csv_escaped(s: Seq<char>) -> Seq<char> {
    if exists|i: int| 0 <= i < s.len() && csv_special(#[trigger] s[i]) {
        seq!['"'] + doubled_quotes(s) + seq!['"']
    } else {
        s
    }
}

/// Writes `value` as a comma-separated field.
pub fn escape_csv(value: &str) -> (r: String)
    ensures
        r@ == csv_escaped(value@),
{
    let n = value.unicode_len();
    let mut doubled = String::new();
    let mut special = false;
    let mut i: usize = 0;
    while i < n
        invariant
            n == value@.len(),
            i <= n,
            doubled@ == doubled_quotes(value@.take(i as int)),
            special == exists|k: int| 0 <= k < i && csv_special(#[trigger] value@[k]),
        decreases n - i,
    {
        let c = value.get_char(i);
        if c == ',' || c == '"' || c == '\n' || c == '\r' {
            special = true;
        }
        if c == '"' {
            push_char(&mut doubled, '"');
            push_char(&mut doubled, '"');
        } else {
            push_char(&mut doubled, c);
        }
        assert(value@.take(i + 1).drop_last() =~= value@.take(i as int));
        assert(doubled@ =~= doubled_quotes(value@.take(i + 1)));
        i = i + 1;
    }
    assert(value@.take(n as int) =~= value@);
    if special {
        let mut out = String::new();
        push_char(&mut out, '"');
        push_str(&mut out, doubled.as_str());
        push_char(&mut out, '"');
        assert(out@ =~= csv_escaped(value@));
        out
    } else {
        to_owned_string(value)
    }
}

/// The lowercase hexadecimal digit of `d`.
pub open spec fn hex_digit(d: nat) -> char {
    if d < 10 {
        (48 + d) as char
    } else {
        (87 + d) as char
    }
}

/// How one character is written inside a JSON string.
pub open spec fn json_char(c: char) -> Seq<char> {
    if c == '"' {
        seq!['\\', '"']
    } else if c == '\\' {
        seq!['\\', '\\']
    } else if c == '\n' {
        seq!['\\', 'n']
    } else if c == '\r' {
        seq!['\\', 'r']
    } else if c == '\t' {
        seq!['\\', 't']
    } else if (c as u32) < 32 {
        seq!['\\', 'u', '0', '0', hex_digit((c as u32 / 16) as nat), hex_digit((c as u32 % 16) as nat)]
    } else {
        seq![c]
    }
}

/// How a text is written inside a JSON string.
pub open spec fn json_escaped(s: Seq<char>) -> Seq<char>
    decreases s.len(),
{
    if s.len() == 0 {
        s
    } else {
        json_escaped(s.drop_last()) + json_char(s.last())
    }
}

fn hex_char(d: u32) -> (c: char)
    requires
        d < 16,
    ensures
        c == hex_digit(d as nat),
{
    let b: u8 = if d < 10 {
        (48 + d) as u8
    } else {
        (87 + d) as u8
    };
    b as char
}

/// Writes `value` for the inside of a JSON string.
pub fn escape_json(value: &str) -> (r: String)
    ensures
        r@ == json_escaped(value@),
{
    let n = value.unicode_len();
    let mut out = String::new();
    let mut i: usize = 0;
    while i < n
        invariant
            n == value@.len(),
            i <= n,
            out@ == json_escaped(value@.take(i as int)),
        decreases n - i,
    {
        let c = value.get_char(i);
        let ghost before = out@;
        if c == '"' {
            push_char(&mut out, '\\');
            push_char(&mut out, '"');
        } else if c == '\\' {
            push_char(&mut out, '\\');
            push_char(&mut out, '\\');
        } else if c == '\n' {
            push_char(&mut out, '\\');
            push_char(&mut out, 'n');
        } else if c == '\r' {
            push_char(&mut out, '\\');
            push_char(&mut out, 'r');
        } else if c == '\t' {
            push_char(&mut out, '\\');
            push_char(&mut out, 't');
        } else if (c as u32) < 32 {
            let code = c as u32;
            push_char(&mut out, '\\');
            push_char(&mut out, 'u');
            push_char(&mut out, '0');
            push_char(&mut out, '0');
            push_char(&mut out, hex_char(code / 16));
            push_char(&mut out, hex_char(code % 16));
        } else {
            push_char(&mut out, c);
        }
        assert(out@ =~= before + json_char(c));
        assert(value@.take(i + 1).drop_last() =~= value@.take(i as int));
        i = i + 1;
    }
    assert(value@.take(n as int) =~= value@);
    out
}

// ---------------------------------------------------------------------------------------
// The comma-separated text of a table
// ---------------------------------------------------------------------------------------

/// Every field that table `ti` lists can be read, by name, from every live record of the
/// table its short name finds.
pub open spec fn columns_readable(squad: SquadFile, ti: int) -> bool {
    let t = squad.tables@[ti];
    match squad.spec_table_index(t.shortname@) {
        Some(ti2) => forall|k: int, j: int|
            0 <= k < squad.tables@[ti2].n_written_records && 0 <= j < t.fields@.len() ==> #[trigger] squad.can_read(
                t.shortname@,
                k,
                t.fields@[j].name@,
            ),
        None => true,
    }
}

/// The text of the value of field `name` of record `idx` of `t`, or none when the field
/// cannot be read.
pub open spec fn value_text_of(buf: Seq<u8>, t: TableInfo, name: Seq<char>, idx: int, g: spec_fn(u32) -> Seq<char>) -> Option<Seq<char>> {
    match t.spec_field_index(name) {
        Some(fi) => if t.fields@[fi].field_type is Unknown {
            None
        } else {
            Some(cell_text(buf, t, t.fields@[fi], idx, g))
        },
        None => None,
    }
}

/// The header line of the comma-separated text of `t`, up to its first `j` fields.
pub open spec fn csv_header(t: TableInfo, j: int) -> Seq<char>
    decreases j,
{
    if j <= 0 {
        seq!['#']
    } else {
        csv_header(t, j - 1) + seq![','] + csv_escaped(t.fields@[j - 1].name@)
    }
}

/// Record `idx`'s line, up to its first `j` cells: the fields of `t`, read from `t2`.
pub open spec fn csv_row(buf: Seq<u8>, t: TableInfo, t2: TableInfo, idx: int, j: int, g: spec_fn(u32) -> Seq<char>) -> Seq<char>
    decreases j,
{
    if j <= 0 {
        nat_decimal(idx as nat)
    } else {
        csv_row(buf, t, t2, idx, j - 1, g) + seq![','] + match value_text_of(buf, t2, t.fields@[j - 1].name@, idx, g) {
            Some(x) => csv_escaped(x),
            None => Seq::empty(),
        }
    }
}

/// The lines of the first `k` records.
pub open spec fn csv_rows(buf: Seq<u8>, t: TableInfo, t2: TableInfo, k: int, g: spec_fn(u32) -> Seq<char>) -> Seq<char>
    decreases k,
{
    if k <= 0 {
        Seq::empty()
    } else {
        csv_rows(buf, t, t2, k - 1, g) + csv_row(buf, t, t2, k - 1, t.fields@.len() as int, g) + crlf()
    }
}

/// The comma-separated text of table `ti`: its fields, with the records of the table its short
/// name finds.
pub open spec fn csv_text(squad: SquadFile, ti: int, g: spec_fn(u32) -> Seq<char>) -> Seq<char> {
    let t = squad.tables@[ti];
    let t2 = squad.tables@[squad.spec_table_index(t.shortname@).unwrap()];
    csv_header(t, t.fields@.len() as int) + crlf() + csv_rows(squad.buf@, t, t2, t2.n_written_records as int, g)
}

/// A value's text: decimal for an integer, the formatter's for a float, the string itself.
fn value_to_string<F: Fn(u32) -> String>(v: &FieldValue, float_text: &F) -> (r: String)
    requires
        forall|b: u32| call_requires(*float_text, (b,)),
    ensures
        match v {
            FieldValue::Int(i) => r@ == int_decimal(*i as int),
            FieldValue::Float(b) => call_ensures(*float_text, (*b,), r),
            FieldValue::Str(s) => r@ == s@,
        },
{
    match v {
        FieldValue::Int(i) => i64_to_string(*i),
        FieldValue::Float(b) => float_text(*b),
        FieldValue::Str(s) => s.clone(),
    }
}

/// The text of the value that `get_field` gives, or none for an error.
fn read_value_text<F: Fn(u32) -> String>(squad: &SquadFile, ts: &str, idx: usize, name: &str, float_text: &F) -> (r: Option<String>)
    requires
        squad.wf(),
        squad.can_read(ts@, idx as int, name@),
        forall|b: u32| call_requires(*float_text, (b,)),
        squad.spec_table_index(ts@) is Some,
        idx < squad.tables@[squad.spec_table_index(ts@).unwrap()].n_written_records,
        crate::squad::table_wf(squad.tables@[squad.spec_table_index(ts@).unwrap()], squad.buf@.len() as int),
    ensures
        forall|g: spec_fn(u32) -> Seq<char>| #[trigger] formats(float_text, g) ==> match r {
            Some(x) => value_text_of(squad.buf@, squad.tables@[squad.spec_table_index(ts@).unwrap()], name@, idx as int, g) == Some(x@),
            None => value_text_of(squad.buf@, squad.tables@[squad.spec_table_index(ts@).unwrap()], name@, idx as int, g) is None,
        },
{
    match squad.get_field(ts, idx, name) {
        Ok(v) => {
            let x = value_to_string(&v, float_text);
            proof {
                let t2 = squad.tables@[squad.spec_table_index(ts@).unwrap()];
                let fi = t2.spec_field_index(name@).unwrap();
                assert forall|g: spec_fn(u32) -> Seq<char>| #[trigger] formats(float_text, g) implies value_text_of(squad.buf@, t2, name@, idx as int, g) == Some(x@) by {
                    lemma_cell_text_of_value(squad.buf@, t2, t2.fields@[fi], idx as int, v, x@, g);
                }
            }
            Some(x)
        },
        Err(_) => None,
    }
}

/// The comma-separated text of table `ti`, formatting float cells with `float_text`; a field
/// that cannot be read gives an empty cell.
pub fn csv_table_text<F: Fn(u32) -> String>(squad: &SquadFile, ti: usize, float_text: &F) -> (r: String)
    requires
        squad.wf(),
        ti < squad.tables@.len(),
        columns_readable(*squad, ti as int),
        forall|b: u32| call_requires(*float_text, (b,)),
    ensures
        forall|g: spec_fn(u32) -> Seq<char>| #[trigger] formats(float_text, g) ==> r@ == csv_text(*squad, ti as int, g),
{
    let table = &squad.tables[ti];
    let ghost t = *table;
    let ts = table.shortname.as_str();
    proof {
        crate::squad::lemma_table_found(squad.tables@, t.shortname@, ti as int);
    }
    let ghost ti2 = squad.spec_table_index(ts@).unwrap();
    let ghost t2 = squad.tables@[ti2];
    assert(crate::squad::table_wf(t2, squad.buf@.len() as int));
    let nf = table.fields.len();
    let mut out = String::new();
    push_char(&mut out, '#');
    let mut j: usize = 0;
    while j < nf
        invariant
            nf == t.fields@.len(),
            *table == t,
            j <= nf,
            out@ == csv_header(t, j as int),
        decreases nf - j,
    {
        push_char(&mut out, ',');
        let e = escape_csv(table.fields[j].name.as_str());
        push_str(&mut out, e.as_str());
        j = j + 1;
    }
    push_str(&mut out, "\r\n");
    proof {
        reveal_strlit("\r\n");
    }
    let indices = squad.written_record_indices(ts);
    let mut k: usize = 0;
    while k < indices.len()
        invariant
            squad.wf(),
            ti < squad.tables@.len(),
            columns_readable(*squad, ti as int),
            forall|b: u32| call_requires(*float_text, (b,)),
            *table == t,
            t == squad.tables@[ti as int],
            ts@ == t.shortname@,
            squad.spec_table_index(ts@) == Some(ti2),
            0 <= ti2 < squad.tables@.len(),
            t2 == squad.tables@[ti2],
            crate::squad::table_wf(t2, squad.buf@.len() as int),
            nf == t.fields@.len(),
            indices@.len() == t2.n_written_records,
            forall|x: int| 0 <= x < indices@.len() ==> #[trigger] indices@[x] == x,
            k <= indices@.len(),
            forall|g: spec_fn(u32) -> Seq<char>| #[trigger] formats(float_text, g) ==> out@ == csv_header(t, nf as int) + crlf()
                + csv_rows(squad.buf@, t, t2, k as int, g),
        decreases indices@.len() - k,
    {
        let idx = indices[k];
        let ghost line_start = out@;
        push_u64(&mut out, idx as u64);
        let mut j: usize = 0;
        while j < nf
            invariant
                squad.wf(),
                ti < squad.tables@.len(),
                columns_readable(*squad, ti as int),
                forall|b: u32| call_requires(*float_text, (b,)),
                *table == t,
                t == squad.tables@[ti as int],
                ts@ == t.shortname@,
                squad.spec_table_index(ts@) == Some(ti2),
                0 <= ti2 < squad.tables@.len(),
                t2 == squad.tables@[ti2],
                crate::squad::table_wf(t2, squad.buf@.len() as int),
                nf == t.fields@.len(),
                idx == k,
                k < t2.n_written_records,
                j <= nf,
                forall|g: spec_fn(u32) -> Seq<char>| #[trigger] formats(float_text, g) ==> line_start == csv_header(t, nf as int)
                    + crlf() + csv_rows(squad.buf@, t, t2, k as int, g),
                forall|g: spec_fn(u32) -> Seq<char>| #[trigger] formats(float_text, g) ==> out@ == line_start + csv_row(squad.buf@, t, t2, k as int, j as int, g),
            decreases nf - j,
        {
            push_char(&mut out, ',');
            assert(squad.can_read(ts@, k as int, t.fields@[j as int].name@));
            let cell = read_value_text(squad, ts, idx, table.fields[j].name.as_str(), float_text);
            match cell {
                Some(x) => {
                    let e = escape_csv(x.as_str());
                    push_str(&mut out, e.as_str());
                },
                None => {},
            }
            proof {
                assert forall|g: spec_fn(u32) -> Seq<char>| #[trigger] formats(float_text, g) implies out@ == line_start + csv_row(squad.buf@, t, t2, k as int, j + 1, g) by {
                    assert(out@ =~= line_start + csv_row(squad.buf@, t, t2, k as int, j + 1, g));
                }
            }
            j = j + 1;
        }
        push_str(&mut out, "\r\n");
        proof {
            reveal_strlit("\r\n");
            assert forall|g: spec_fn(u32) -> Seq<char>| #[trigger] formats(float_text, g) implies out@ == csv_header(t, nf as int)
                + crlf() + csv_rows(squad.buf@, t, t2, k + 1, g) by {
                assert(out@ =~= csv_header(t, nf as int) + crlf() + csv_rows(squad.buf@, t, t2, k + 1, g));
            }
        }
        k = k + 1;
    }
    out
}

// ---------------------------------------------------------------------------------------
// The JSON text of every table
// ---------------------------------------------------------------------------------------

/// The member of a record's JSON object for field `name`: a number for an integer or float,
/// a string for text, nothing when the field cannot be read.
pub open spec fn json_member(buf: Seq<u8>, t2: TableInfo, name: Seq<char>, idx: int, g: spec_fn(u32) -> Seq<char>) -> Seq<char> {
    match t2.spec_field_index(name) {
        Some(fi) => {
            let f = t2.fields@[fi];
            let key = ", \""@ + json_escaped(name) + "\": "@;
            match f.field_type {
                FieldType::Unknown(_) => Seq::empty(),
                FieldType::Integer | FieldType::Float => key + cell_text(buf, t2, f, idx, g),
                _ => key + seq!['"'] + json_escaped(cell_text(buf, t2, f, idx, g)) + seq!['"'],
            }
        },
        None => Seq::empty(),
    }
}

/// Record `idx`'s JSON object up to its first `j` members, without the closing brace.
pub open spec fn json_record(buf: Seq<u8>, t: TableInfo, t2: TableInfo, idx: int, j: int, g: spec_fn(u32) -> Seq<char>) -> Seq<char>
    decreases j,
{
    if j <= 0 {
        "    {\"#\": "@ + nat_decimal(idx as nat)
    } else {
        json_record(buf, t, t2, idx, j - 1, g) + json_member(buf, t2, t.fields@[j - 1].name@, idx, g)
    }
}

/// The JSON objects of the first `k` records, separated by commas.
pub open spec fn json_records(buf: Seq<u8>, t: TableInfo, t2: TableInfo, k: int, g: spec_fn(u32) -> Seq<char>) -> Seq<char>
    decreases k,
{
    if k <= 0 {
        Seq::empty()
    } else {
        json_records(buf, t, t2, k - 1, g) + (if k - 1 > 0 { ",\n"@ } else { Seq::empty() })
            + json_record(buf, t, t2, k - 1, t.fields@.len() as int, g) + seq!['}']
    }
}

/// The JSON member of table `ti`: its display name and the array of its records.
pub open spec fn json_table(squad: SquadFile, ti: int, g: spec_fn(u32) -> Seq<char>) -> Seq<char> {
    let t = squad.tables@[ti];
    let t2 = squad.tables@[squad.spec_table_index(t.shortname@).unwrap()];
    "  \""@ + json_escaped(display_name(squad, t.shortname@)) + "\": [\n"@ + json_records(
        squad.buf@,
        t,
        t2,
        t2.n_written_records as int,
        g,
    ) + "\n  ]"@
}

/// The members of the first `k` tables, separated by commas.
pub open spec fn json_tables(squad: SquadFile, k: int, g: spec_fn(u32) -> Seq<char>) -> Seq<char>
    decreases k,
{
    if k <= 0 {
        Seq::empty()
    } else {
        json_tables(squad, k - 1, g) + (if k - 1 > 0 { ",\n"@ } else { Seq::empty() }) + json_table(squad, k - 1, g)
    }
}

/// The JSON text of every table.
pub open spec fn json_text(squad: SquadFile, g: spec_fn(u32) -> Seq<char>) -> Seq<char> {
    "{\n"@ + json_tables(squad, squad.tables@.len() as int, g) + "\n}\n"@
}

/// The JSON member of one field of a record.
fn json_member_exec<F: Fn(u32) -> String>(squad: &SquadFile, ts: &str, idx: usize, name: &str, float_text: &F) -> (r: String)
    requires
        squad.wf(),
        squad.can_read(ts@, idx as int, name@),
        forall|b: u32| call_requires(*float_text, (b,)),
        squad.spec_table_index(ts@) is Some,
        idx < squad.tables@[squad.spec_table_index(ts@).unwrap()].n_written_records,
        crate::squad::table_wf(squad.tables@[squad.spec_table_index(ts@).unwrap()], squad.buf@.len() as int),
    ensures
        forall|g: spec_fn(u32) -> Seq<char>| #[trigger] formats(float_text, g) ==> r@ == json_member(squad.buf@, squad.tables@[squad.spec_table_index(ts@).unwrap()], name@, idx as int, g),
{
    let mut out = String::new();
    let ghost t2 = squad.tables@[squad.spec_table_index(ts@).unwrap()];
    match squad.get_field(ts, idx, name) {
        Ok(v) => {
            let ghost fi = t2.spec_field_index(name@).unwrap();
            push_str(&mut out, ", \"");
            let e = escape_json(name);
            push_str(&mut out, e.as_str());
            push_str(&mut out, "\": ");
            match &v {
                FieldValue::Int(i) => {
                    push_i64(&mut out, *i);
                },
                FieldValue::Float(b) => {
                    let x = float_text(*b);
                    push_str(&mut out, x.as_str());
                },
                FieldValue::Str(x) => {
                    push_char(&mut out, '"');
                    let ex = escape_json(x.as_str());
                    push_str(&mut out, ex.as_str());
                    push_char(&mut out, '"');
                },
            }
            proof {
                assert forall|g: spec_fn(u32) -> Seq<char>| #[trigger] formats(float_text, g) implies out@ == json_member(squad.buf@, t2, name@, idx as int, g) by {
                    let f = t2.fields@[fi];
                    match v {
                        FieldValue::Int(i) => {
                            lemma_cell_text_of_value(squad.buf@, t2, f, idx as int, v, int_decimal(i as int), g);
                        },
                        FieldValue::Float(b) => {
                            lemma_cell_text_of_value(squad.buf@, t2, f, idx as int, v, g(b), g);
                        },
                        FieldValue::Str(x) => {
                            lemma_cell_text_of_value(squad.buf@, t2, f, idx as int, v, x@, g);
                        },
                    }
                    assert(out@ =~= json_member(squad.buf@, t2, name@, idx as int, g));
                }
            }
        },
        Err(_) => {},
    }
    out
}

/// The JSON text of every table: an object with one member per table, named by its display
/// name, holding an array of the table's live records, each an object with its index `#` and
/// its readable fields. Float values are formatted with `float_text`.
pub fn json_export_text<F: Fn(u32) -> String>(squad: &SquadFile, float_text: &F) -> (r: String)
    requires
        squad.wf(),
        forall|i: int| 0 <= i < squad.tables@.len() ==> #[trigger] columns_readable(*squad, i),
        forall|b: u32| call_requires(*float_text, (b,)),
    ensures
        forall|g: spec_fn(u32) -> Seq<char>| #[trigger] formats(float_text, g) ==> r@ == json_text(*squad, g),
{
    let mut out = String::new();
    push_str(&mut out, "{\n");
    let mut ti: usize = 0;
    while ti < squad.tables.len()
        invariant
            squad.wf(),
            forall|i: int| 0 <= i < squad.tables@.len() ==> #[trigger] columns_readable(*squad, i),
            forall|b: u32| call_requires(*float_text, (b,)),
            ti <= squad.tables@.len(),
            forall|g: spec_fn(u32) -> Seq<char>| #[trigger] formats(float_text, g) ==> out@ == "{\n"@ + json_tables(*squad, ti as int, g),
        decreases squad.tables@.len() - ti,
    {
        let ghost before = out@;
        if ti > 0 {
            push_str(&mut out, ",\n");
        }
        let ghost sep = if ti > 0 { ",\n"@ } else { Seq::<char>::empty() };
        assert(out@ == before + sep);
        let t = table_member_text(squad, ti, float_text);
        push_str(&mut out, t.as_str());
        proof {
            assert forall|g: spec_fn(u32) -> Seq<char>| #[trigger] formats(float_text, g) implies out@ == "{\n"@ + json_tables(*squad, ti + 1, g) by {
                assert(out@ =~= "{\n"@ + json_tables(*squad, ti + 1, g));
            }
        }
        ti = ti + 1;
    }
    push_str(&mut out, "\n}\n");
    proof {
        assert forall|g: spec_fn(u32) -> Seq<char>| #[trigger] formats(float_text, g) implies out@ == json_text(*squad, g) by {
            assert(out@ =~= json_text(*squad, g));
        }
    }
    out
}

/// The JSON member of table `ti`.
fn table_member_text<F: Fn(u32) -> String>(squad: &SquadFile, ti: usize, float_text: &F) -> (r: String)
    requires
        squad.wf(),
        ti < squad.tables@.len(),
        columns_readable(*squad, ti as int),
        forall|b: u32| call_requires(*float_text, (b,)),
    ensures
        forall|g: spec_fn(u32) -> Seq<char>| #[trigger] formats(float_text, g) ==> r@ == json_table(*squad, ti as int, g),
{
    let table = &squad.tables[ti];
    let ghost t = *table;
    let ts = table.shortname.as_str();
    proof {
        crate::squad::lemma_table_found(squad.tables@, t.shortname@, ti as int);
    }
    let ghost ti2 = squad.spec_table_index(ts@).unwrap();
    let ghost t2 = squad.tables@[ti2];
    assert(crate::squad::table_wf(t2, squad.buf@.len() as int));
    let nf = table.fields.len();
    let mut out = String::new();
    push_str(&mut out, "  \"");
    let name = table_display_name(squad, ts);
    let en = escape_json(name.as_str());
    push_str(&mut out, en.as_str());
    push_str(&mut out, "\": [\n");
    let ghost head = out@;
    let indices = squad.written_record_indices(ts);
    let mut k: usize = 0;
    while k < indices.len()
        invariant
            squad.wf(),
            ti < squad.tables@.len(),
            columns_readable(*squad, ti as int),
            forall|b: u32| call_requires(*float_text, (b,)),
            *table == t,
            t == squad.tables@[ti as int],
            ts@ == t.shortname@,
            squad.spec_table_index(ts@) == Some(ti2),
            0 <= ti2 < squad.tables@.len(),
            t2 == squad.tables@[ti2],
            crate::squad::table_wf(t2, squad.buf@.len() as int),
            nf == t.fields@.len(),
            indices@.len() == t2.n_written_records,
            forall|x: int| 0 <= x < indices@.len() ==> #[trigger] indices@[x] == x,
            k <= indices@.len(),
            forall|g: spec_fn(u32) -> Seq<char>| #[trigger] formats(float_text, g) ==> out@ == head + json_records(squad.buf@, t, t2, k as int, g),
        decreases indices@.len() - k,
    {
        let idx = indices[k];
        let ghost before = out@;
        if k > 0 {
            push_str(&mut out, ",\n");
        }
        let ghost sep = if k > 0 { ",\n"@ } else { Seq::<char>::empty() };
        assert(out@ == before + sep);
        let ghost rec_start = out@;
        push_str(&mut out, "    {\"#\": ");
        push_u64(&mut out, idx as u64);
        let mut j: usize = 0;
        while j < nf
            invariant
                squad.wf(),
                ti < squad.tables@.len(),
                columns_readable(*squad, ti as int),
                forall|b: u32| call_requires(*float_text, (b,)),
                *table == t,
                t == squad.tables@[ti as int],
                ts@ == t.shortname@,
                squad.spec_table_index(ts@) == Some(ti2),
                0 <= ti2 < squad.tables@.len(),
                t2 == squad.tables@[ti2],
                crate::squad::table_wf(t2, squad.buf@.len() as int),
                nf == t.fields@.len(),
                idx == k,
                k < t2.n_written_records,
                j <= nf,
                forall|g: spec_fn(u32) -> Seq<char>| #[trigger] formats(float_text, g) ==> out@ == rec_start + json_record(squad.buf@, t, t2, k as int, j as int, g),
            decreases nf - j,
        {
            assert(squad.can_read(ts@, k as int, t.fields@[j as int].name@));
            let m = json_member_exec(squad, ts, idx, table.fields[j].name.as_str(), float_text);
            push_str(&mut out, m.as_str());
            proof {
                assert forall|g: spec_fn(u32) -> Seq<char>| #[trigger] formats(float_text, g) implies out@ == rec_start + json_record(squad.buf@, t, t2, k as int, j + 1, g) by {
                    assert(out@ =~= rec_start + json_record(squad.buf@, t, t2, k as int, j + 1, g));
                }
            }
            j = j + 1;
        }
        push_char(&mut out, '}');
        proof {
            assert forall|g: spec_fn(u32) -> Seq<char>| #[trigger] formats(float_text, g) implies out@ == head + json_records(squad.buf@, t, t2, k + 1, g) by {
                assert(out@ =~= head + json_records(squad.buf@, t, t2, k + 1, g));
            }
        }
        k = k + 1;
    }
    push_str(&mut out, "\n  ]");
    proof {
        assert forall|g: spec_fn(u32) -> Seq<char>| #[trigger] formats(float_text, g) implies out@ == json_table(*squad, ti as int, g) by {
            assert(out@ =~= json_table(*squad, ti as int, g));
        }
    }
    out
}

// ---------------------------------------------------------------------------------------
// Reading comma-separated files back
// ---------------------------------------------------------------------------------------

/// What a comma-separated import did: tables written to, cells written, cells refused.
pub struct ImportSummary {
    pub tables_touched: usize,
    pub cells_updated: usize,
    pub cells_failed: usize,
}

/// The first table from `from` on whose schema name or short name is `name`.
pub open spec fn first_table_named(tables: Seq<TableInfo>, name: Seq<char>, from: int) -> Option<int>
    decreases tables.len() - from,
{
    if from < 0 || from >= tables.len() {
        None
    } else if (tables[from].name matches Some(n) && n@ == name) || tables[from].shortname@ == name {
        Some(from)
    } else {
        first_table_named(tables, name, from + 1)
    }
}

pub proof fn lemma_first_table_named(tables: Seq<TableInfo>, name: Seq<char>, from: int)
    requires
        0 <= from,
    ensures
        first_table_named(tables, name, from) matches Some(i) ==> from <= i < tables.len(),
    decreases tables.len() - from,
{
    if from < tables.len() {
        lemma_first_table_named(tables, name, from + 1);
    }
}

/// The type of the last of the first `k` fields with schema name `name`.
pub open spec fn last_field_type(fields: Seq<FieldDescriptor>, name: Seq<char>, k: int) -> Option<FieldType>
    decreases k,
{
    if k <= 0 {
        None
    } else if fields[k - 1].name@ == name {
        Some(fields[k - 1].field_type)
    } else {
        last_field_type(fields, name, k - 1)
    }
}

/// The writes that row `row` asks for, for its columns `1..=k`, and the cells that could not
/// be read: a column is passed over when the row has no cell for it or no field has its name.
pub open spec fn row_writes(
    fields: Seq<FieldDescriptor>,
    header: Seq<Seq<char>>,
    row: Seq<Seq<char>>,
    idx: int,
    k: int,
    h: spec_fn(Seq<char>) -> Option<u32>,
) -> (Seq<(int, Seq<char>, FieldValue)>, int)
    decreases k,
{
    if k <= 0 {
        (Seq::empty(), 0)
    } else {
        let p = row_writes(fields, header, row, idx, k - 1, h);
        if k >= row.len() {
            p
        } else {
            match last_field_type(fields, header[k], fields.len() as int) {
                None => p,
                Some(ft) => match cell_value(ft, row[k], h) {
                    Some(v) => (p.0.push((idx, header[k], v)), p.1),
                    None => (p.0, p.1 + 1),
                },
            }
        }
    }
}

/// The writes that the first `k` rows ask for, and the cells that could not be read. A row
/// whose first cell is not an index is passed over.
pub open spec fn rows_writes(
    fields: Seq<FieldDescriptor>,
    header: Seq<Seq<char>>,
    rows: Seq<Seq<Seq<char>>>,
    k: int,
    h: spec_fn(Seq<char>) -> Option<u32>,
) -> (Seq<(int, Seq<char>, FieldValue)>, int)
    decreases k,
{
    if k <= 0 {
        (Seq::empty(), 0)
    } else {
        let p = rows_writes(fields, header, rows, k - 1, h);
        let row = rows[k - 1];
        if row.len() == 0 {
            p
        } else {
            match spec_parse_int(encode_utf8(trimmed(row[0])), 0, usize::MAX as int) {
                None => p,
                Some(idx) => {
                    let r = row_writes(fields, header, row, idx, header.len() - 1, h);
                    (p.0 + r.0, p.1 + r.1)
                },
            }
        }
    }
}

/// The bytes after the first `k` writes, and how many were accepted.
pub open spec fn writes_fold(tables: Seq<TableInfo>, buf: Seq<u8>, ts: Seq<char>, ups: Seq<(int, Seq<char>, FieldValue)>, k: int) -> (Seq<u8>, int)
    decreases k,
{
    if k <= 0 {
        (buf, 0)
    } else {
        let p = writes_fold(tables, buf, ts, ups, k - 1);
        let u = ups[k - 1];
        let w = spec_write(tables, p.0, ts, u.0, u.1, u.2);
        (w.1, if w.0 { p.1 + 1 } else { p.1 })
    }
}

/// `a` writes what `b` stands for: the same value, or a string with the text of `b`.
pub open spec fn same_write(a: (usize, String, FieldValue), b: (int, Seq<char>, FieldValue)) -> bool {
    &&& a.0 as int == b.0
    &&& a.1@ == b.1
    &&& (a.2 == b.2 || (str_text(a.2) is Some && b.2 == str_value(str_text(a.2).unwrap())))
}

pub proof fn lemma_writes_fold(tables: Seq<TableInfo>, buf: Seq<u8>, ts: Seq<char>, a: Seq<(usize, String, FieldValue)>, b: Seq<(int, Seq<char>, FieldValue)>, k: int)
    requires
        0 <= k <= a.len(),
        a.len() == b.len(),
        forall|i: int| 0 <= i < a.len() ==> #[trigger] same_write(a[i], b[i]),
    ensures
        crate::edit::batch_fold(tables, buf, ts, a, k) == writes_fold(tables, buf, ts, b, k),
    decreases k,
{
    if k > 0 {
        lemma_writes_fold(tables, buf, ts, a, b, k - 1);
        let p = writes_fold(tables, buf, ts, b, k - 1);
        assert(same_write(a[k - 1], b[k - 1]));
        if a[k - 1].2 != b[k - 1].2 {
            lemma_write_str_view(tables, p.0, ts, b[k - 1].0, b[k - 1].1, a[k - 1].2, str_text(a[k - 1].2).unwrap());
        }
    }
}

/// The texts of the rows of a comma-separated file.
pub open spec fn rows_view(rows: Seq<Vec<String>>) -> Seq<Seq<Seq<char>>> {
    rows.map_values(|r: Vec<String>| string_texts(r@))
}

/// The type of the last field with schema name `name`.
fn last_field_type_exec(fields: &Vec<FieldDescriptor>, name: &str) -> (r: Option<FieldType>)
    ensures
        r == last_field_type(fields@, name@, fields@.len() as int),
{
    let mut k = fields.len();
    while k > 0
        invariant
            k <= fields@.len(),
            last_field_type(fields@, name@, fields@.len() as int) == last_field_type(fields@, name@, k as int),
        decreases k,
    {
        if crate::text::str_eq(fields[k - 1].name.as_str(), name) {
            return Some(fields[k - 1].field_type);
        }
        k = k - 1;
    }
    None
}

/// The table that a file is named after: the first with that schema name or short name.
fn find_table_named(squad: &SquadFile, name: &str) -> (r: Option<usize>)
    ensures
        match first_table_named(squad.tables@, name@, 0) {
            Some(i) => r matches Some(k) && k as int == i && 0 <= i < squad.tables@.len(),
            None => r is None,
        },
{
    proof {
        lemma_first_table_named(squad.tables@, name@, 0);
    }
    let mut i: usize = 0;
    while i < squad.tables.len()
        invariant
            i <= squad.tables@.len(),
            first_table_named(squad.tables@, name@, 0) == first_table_named(squad.tables@, name@, i as int),
        decreases squad.tables@.len() - i,
    {
        let t = &squad.tables[i];
        let by_name = match &t.name {
            Some(n) => crate::text::str_eq(n.as_str(), name),
            None => false,
        };
        if by_name || crate::text::str_eq(t.shortname.as_str(), name) {
            return Some(i);
        }
        i = i + 1;
    }
    None
}

/// The writes that the rows ask for, and the number of cells that could not be read.
fn collect_writes<P: Fn(&str) -> Option<u32>>(
    fields: &Vec<FieldDescriptor>,
    header: &[String],
    rows: &[Vec<String>],
    parse_float: &P,
) -> (r: (Vec<(usize, String, FieldValue)>, usize))
    requires
        forall|s: &str| call_requires(*parse_float, (s,)),
        cells_count(rows_view(rows@), rows@.len() as int) <= usize::MAX,
    ensures
        r.0@.len() + r.1 <= cells_count(rows_view(rows@), rows@.len() as int),
        forall|h: spec_fn(Seq<char>) -> Option<u32>| #[trigger] parses(parse_float, h) ==> {
            let w = rows_writes(fields@, string_texts(header@), rows_view(rows@), rows@.len() as int, h);
            &&& r.0@.len() == w.0.len()
            &&& r.1 == w.1
            &&& forall|i: int| 0 <= i < r.0@.len() ==> #[trigger] same_write(r.0@[i], w.0[i])
        },
{
    let ghost hv = string_texts(header@);
    let ghost rv = rows_view(rows@);
    let mut updates: Vec<(usize, String, FieldValue)> = Vec::new();
    let mut failed: usize = 0;
    let mut ri: usize = 0;
    while ri < rows.len()
        invariant
            forall|s: &str| call_requires(*parse_float, (s,)),
            hv == string_texts(header@),
            rv == rows_view(rows@),
            ri <= rows@.len(),
            cells_count(rv, rows@.len() as int) <= usize::MAX,
            updates@.len() + failed <= cells_count(rv, ri as int),
            forall|h: spec_fn(Seq<char>) -> Option<u32>| #[trigger] parses(parse_float, h) ==> {
                let w = rows_writes(fields@, hv, rv, ri as int, h);
                &&& updates@.len() == w.0.len()
                &&& failed == w.1
                &&& forall|i: int| 0 <= i < updates@.len() ==> #[trigger] same_write(updates@[i], w.0[i])
            },
        decreases rows@.len() - ri,
    {
        proof {
            lemma_cells_count_mono(rv, ri + 1, rows@.len() as int);
        }
        let row = &rows[ri];
        assert(rv[ri as int] == string_texts(row@));
        assert(cells_count(rv, ri + 1) == cells_count(rv, ri as int) + row@.len());
        if row.len() == 0 {
            proof {
                assert forall|h: spec_fn(Seq<char>) -> Option<u32>| #[trigger] parses(parse_float, h) implies {
                    let w = rows_writes(fields@, hv, rv, ri + 1, h);
                    &&& updates@.len() == w.0.len()
                    &&& failed == w.1
                    &&& forall|i: int| 0 <= i < updates@.len() ==> #[trigger] same_write(updates@[i], w.0[i])
                } by {
                    assert(rv[ri as int].len() == 0);
                }
            }
            ri = ri + 1;
            continue;
        }
        assert(string_texts(row@)[0] == row@[0]@);
        let idx = match parse_usize_bytes(trim(row[0].as_str()).as_bytes()) {
            Some(i) => i,
            None => {
                proof {
                    assert forall|h: spec_fn(Seq<char>) -> Option<u32>| #[trigger] parses(parse_float, h) implies {
                        let w = rows_writes(fields@, hv, rv, ri + 1, h);
                        &&& updates@.len() == w.0.len()
                        &&& failed == w.1
                        &&& forall|i: int| 0 <= i < updates@.len() ==> #[trigger] same_write(updates@[i], w.0[i])
                    } by {
                        assert(rv[ri as int][0] == row@[0]@);
                    }
                }
                ri = ri + 1;
                continue;
            },
        };
        assert(rv[ri as int][0] == row@[0]@);
        let ghost base = updates@;
        let ghost fail0 = failed as int;
        let mut col: usize = 1;
        while col < header.len()
            invariant
                forall|s: &str| call_requires(*parse_float, (s,)),
                hv == string_texts(header@),
                rv == rows_view(rows@),
                ri < rows@.len(),
                rv[ri as int] == string_texts(row@),
                row@ == rows@[ri as int]@,
                1 <= col <= header@.len() || (header@.len() == 0 && col == 1),
                cells_count(rv, rows@.len() as int) <= usize::MAX,
                cells_count(rv, ri as int) + row@.len() <= usize::MAX,
                base.len() + fail0 <= cells_count(rv, ri as int),
                updates@.len() + failed <= base.len() + fail0 + if col <= row@.len() { col - 1 } else { row@.len() - 1 },
                updates@.len() >= base.len(),
                forall|i: int| 0 <= i < base.len() ==> #[trigger] updates@[i] == base[i],
                forall|h: spec_fn(Seq<char>) -> Option<u32>| #[trigger] parses(parse_float, h) ==> {
                    let w = row_writes(fields@, hv, rv[ri as int], idx as int, col - 1, h);
                    &&& updates@.len() == base.len() + w.0.len()
                    &&& failed == fail0 + w.1
                    &&& forall|i: int| 0 <= i < w.0.len() ==> #[trigger] same_write(updates@[base.len() + i], w.0[i])
                },
            decreases header@.len() - col,
        {
            if col < row.len() {
                match last_field_type_exec(fields, header[col].as_str()) {
                    Some(ft) => {
                        let parsed = parse_cell_value(ft, row[col].as_str(), parse_float);
                        match parsed {
                            Some(v) => {
                                updates.push((idx, header[col].clone(), v));
                            },
                            None => {
                                failed = failed + 1;
                            },
                        }
                    },
                    None => {},
                }
            }
            col = col + 1;
        }
        proof {
            assert(rv[ri as int].len() == row@.len());
            assert forall|h: spec_fn(Seq<char>) -> Option<u32>| #[trigger] parses(parse_float, h) implies {
                let w = rows_writes(fields@, hv, rv, ri + 1, h);
                &&& updates@.len() == w.0.len()
                &&& failed == w.1
                &&& forall|i: int| 0 <= i < updates@.len() ==> #[trigger] same_write(updates@[i], w.0[i])
            } by {
                let p = rows_writes(fields@, hv, rv, ri as int, h);
                let r = row_writes(fields@, hv, rv[ri as int], idx as int, hv.len() - 1, h);
                assert(r == row_writes(fields@, hv, rv[ri as int], idx as int, col - 1, h));
                assert forall|i: int| 0 <= i < updates@.len() implies #[trigger] same_write(updates@[i], (p.0 + r.0)[i]) by {
                    if i < base.len() {
                        assert(updates@[i] == base[i]);
                    } else {
                        assert(same_write(updates@[base.len() + (i - base.len())], r.0[i - base.len()]));
                    }
                }
            }
        }
        ri = ri + 1;
    }
    (updates, failed)
}

/// The number of cells of the first `k` rows.
pub open spec fn cells_count(rows: Seq<Seq<Seq<char>>>, k: int) -> int
    decreases k,
{
    if k <= 0 {
        0
    } else {
        cells_count(rows, k - 1) + rows[k - 1].len()
    }
}

proof fn lemma_cells_count_mono(rows: Seq<Seq<Seq<char>>>, a: int, b: int)
    requires
        0 <= a <= b,
    ensures
        cells_count(rows, a) <= cells_count(rows, b),
    decreases b - a,
{
    if a < b {
        lemma_cells_count_mono(rows, a, b - 1);
    }
}

/// The bytes after a comma-separated file is applied to table `ts`, how many cells were
/// written, and how many were refused or unreadable.
pub open spec fn rows_applied(tables: Seq<TableInfo>, buf: Seq<u8>, ts: Seq<char>, t2: TableInfo, header: Seq<Seq<char>>, rows: Seq<Seq<Seq<char>>>, h: spec_fn(Seq<char>) -> Option<u32>) -> (Seq<u8>, int, int) {
    let w = rows_writes(t2.fields@, header, rows, rows.len() as int, h);
    let b = writes_fold(tables, buf, ts, w.0, w.0.len() as int);
    (if b.1 > 0 { crate::edit::crc_refreshed(b.0, t2) } else { b.0 }, b.1, w.1 + (w.0.len() - b.1))
}

/// Applies the rows of a comma-separated file to the table it is named after (by schema name
/// or short name): each cell under a column that names a field is read as that field's type
/// and written to the record the row's first cell gives. The writes go in one batch; the
/// summary counts the cells written and refused, and the table if any cell was written.
pub fn apply_rows<P: Fn(&str) -> Option<u32>>(
    squad: &mut SquadFile,
    table_name: &str,
    header: &[String],
    rows: &[Vec<String>],
    summary: &mut ImportSummary,
    parse_float: &P,
)
    requires
        old(squad).wf(),
        first_table_named(old(squad).tables@, table_name@, 0) matches Some(i) ==> table_importable(
            *old(squad),
            old(squad).tables@[i].shortname@,
        ),
        forall|s: &str| call_requires(*parse_float, (s,)),
        old(summary).cells_updated + old(summary).cells_failed + cells_count(rows_view(rows@), rows@.len() as int) <= usize::MAX,
        old(summary).tables_touched < usize::MAX,
    ensures
        same_layout(*final(squad), *old(squad)),
        match first_table_named(old(squad).tables@, table_name@, 0) {
            None => final(squad).buf@ == old(squad).buf@ && *final(summary) == *old(summary),
            Some(i) => {
                let ts = old(squad).tables@[i].shortname@;
                let t2 = old(squad).tables@[old(squad).spec_table_index(ts).unwrap()];
                forall|h: spec_fn(Seq<char>) -> Option<u32>| #[trigger] parses(parse_float, h) ==> {
                    let a = rows_applied(old(squad).tables@, old(squad).buf@, ts, t2, string_texts(header@), rows_view(rows@), h);
                    &&& final(squad).buf@ == a.0
                    &&& final(summary).cells_updated == old(summary).cells_updated + a.1
                    &&& final(summary).cells_failed == old(summary).cells_failed + a.2
                    &&& final(summary).tables_touched == old(summary).tables_touched + if a.1 > 0 { 1int } else { 0 }
                }
            },
        },
{
    let i = match find_table_named(squad, table_name) {
        Some(i) => i,
        None => return,
    };
    let shortname = squad.tables[i].shortname.clone();
    assert(shortname@ == old(squad).tables@[i as int].shortname@);
    assert(first_table_named(old(squad).tables@, table_name@, 0) == Some(i as int));
    assert(table_importable(*old(squad), shortname@));
    proof {
        crate::squad::lemma_table_found(squad.tables@, shortname@, i as int);
    }
    let t2pos = match squad.table_position(shortname.as_str()) {
        Some(p) => p,
        None => return,
    };
    let ghost tables = squad.tables@;
    let ghost buf0 = squad.buf@;
    let (updates, failed) = collect_writes(&squad.tables[t2pos].fields, header, rows, parse_float);
    proof {
        let t2 = squad.tables@[t2pos as int];
        assert(table_importable(*squad, shortname@));
        assert(crate::edit::table_writable(t2));
        assert forall|k: int| 0 <= k < updates@.len() implies squad.can_write(shortname@, #[trigger] updates@[k].1@) by {
            match t2.spec_field_index(updates@[k].1@) {
                Some(fi) => {
                    crate::model::lemma_first_field_bounds(t2.fields@, updates@[k].1@, 0);
                    assert(crate::edit::field_writable(t2, t2.fields@[fi]));
                },
                None => {},
            }
        }
    }
    let ghost s0 = *summary;
    let (applied, batch_failed) = squad.set_fields_batch(shortname.as_str(), updates.as_slice());
    summary.cells_updated = summary.cells_updated + applied;
    summary.cells_failed = summary.cells_failed + failed;
    summary.cells_failed = summary.cells_failed + batch_failed;
    if applied > 0 {
        summary.tables_touched = summary.tables_touched + 1;
    }
    proof {
        let t2 = tables[t2pos as int];
        assert(old(squad).spec_table_index(shortname@) == Some(t2pos as int));
        assert forall|h: spec_fn(Seq<char>) -> Option<u32>| #[trigger] parses(parse_float, h) implies {
            let a = rows_applied(tables, buf0, shortname@, t2, string_texts(header@), rows_view(rows@), h);
            &&& squad.buf@ == a.0
            &&& summary.cells_updated == s0.cells_updated + a.1
            &&& summary.cells_failed == s0.cells_failed + a.2
            &&& summary.tables_touched == s0.tables_touched + if a.1 > 0 { 1int } else { 0 }
        } by {
            let w = rows_writes(t2.fields@, string_texts(header@), rows_view(rows@), rows@.len() as int, h);
            lemma_writes_fold(tables, buf0, shortname@, updates@, w.0, updates@.len() as int);
        }
    }
}

/// The non-blank lines among `lines`, as the texts of their comma-separated fields.
pub open spec fn csv_rows_of(lines: Seq<Seq<u8>>) -> Seq<Seq<Seq<char>>>
    decreases lines.len(),
{
    if lines.len() == 0 {
        Seq::empty()
    } else {
        let prev = csv_rows_of(lines.drop_last());
        let l = lines.last();
        if trimmed(utf8_text(l)).len() == 0 {
            prev
        } else {
            prev.push(byte_texts(csv_fields(l)))
        }
    }
}

proof fn lemma_csv_fields_count(s: Seq<u8>, cur: Seq<u8>, inq: bool)
    ensures
        csv_fields_from(s, cur, inq).len() <= s.len() + 1,
    decreases s.len(),
{
    if s.len() > 0 {
        if inq && s[0] == 34u8 && s.len() > 1 && s[1] == 34u8 {
            lemma_csv_fields_count(s.skip(2), cur.push(34u8), true);
        } else if inq && s[0] == 34u8 {
            lemma_csv_fields_count(s.drop_first(), cur, false);
        } else if inq {
            lemma_csv_fields_count(s.drop_first(), cur.push(s[0]), true);
        } else if s[0] == 34u8 {
            lemma_csv_fields_count(s.drop_first(), cur, true);
        } else if s[0] == 44u8 {
            lemma_csv_fields_count(s.drop_first(), Seq::empty(), false);
        } else {
            lemma_csv_fields_count(s.drop_first(), cur.push(s[0]), false);
        }
    }
}

/// The total length of a list of lines.
pub open spec fn lines_len(lines: Seq<Seq<u8>>) -> int
    decreases lines.len(),
{
    if lines.len() == 0 {
        0
    } else {
        lines_len(lines.drop_last()) + lines.last().len()
    }
}

proof fn lemma_csv_rows_cells(lines: Seq<Seq<u8>>)
    ensures
        cells_count(csv_rows_of(lines), csv_rows_of(lines).len() as int) <= lines_len(lines) + lines.len(),
    decreases lines.len(),
{
    if lines.len() > 0 {
        lemma_csv_rows_cells(lines.drop_last());
        let prev = csv_rows_of(lines.drop_last());
        let l = lines.last();
        if trimmed(utf8_text(l)).len() != 0 {
            lemma_csv_fields_count(l, Seq::empty(), false);
            let rows = prev.push(byte_texts(csv_fields(l)));
            lemma_cells_count_prefix(rows, prev, prev.len() as int);
        }
    }
}

proof fn lemma_cells_count_prefix(a: Seq<Seq<Seq<char>>>, b: Seq<Seq<Seq<char>>>, k: int)
    requires
        0 <= k <= b.len(),
        b.len() <= a.len(),
        forall|i: int| 0 <= i < b.len() ==> #[trigger] a[i] == b[i],
    ensures
        cells_count(a, k) == cells_count(b, k),
    decreases k,
{
    if k > 0 {
        lemma_cells_count_prefix(a, b, k - 1);
    }
}

proof fn lemma_lines_len_from(b: Seq<u8>, from: int)
    requires
        0 <= from,
    ensures
        lines_len(lines_from(b, from)) + lines_from(b, from).len() <= if from <= b.len() { 2 * (b.len() - from) } else { 0 },
    decreases b.len() + 1 - from,
{
    if from < b.len() {
        crate::tsv::lemma_line_len_pub(b, from);
        let e = crate::tsv::next_byte(b, from, 10);
        lemma_lines_len_from(b, e + 1);
        let rest = lines_from(b, e + 1);
        let all = lines_from(b, from);
        lemma_lines_len_cons(crate::tsv::line_at(b, from), rest);
    }
}

proof fn lemma_lines_len_cons(x: Seq<u8>, rest: Seq<Seq<u8>>)
    ensures
        lines_len(seq![x] + rest) == x.len() + lines_len(rest),
    decreases rest.len(),
{
    let s = seq![x] + rest;
    if rest.len() > 0 {
        lemma_lines_len_cons(x, rest.drop_last());
        assert(s.drop_last() =~= seq![x] + rest.drop_last());
        assert(s.last() == rest.last());
    } else {
        assert(s.drop_last() =~= Seq::<Seq<u8>>::empty());
        assert(s.last() == x);
        assert(lines_len(Seq::<Seq<u8>>::empty()) == 0);
        assert(lines_len(rest) == 0);
    }
}

proof fn lemma_lines_len_drop_first(l: Seq<Seq<u8>>)
    requires
        l.len() > 0,
    ensures
        lines_len(l.drop_first()) <= lines_len(l),
{
    assert(l =~= seq![l[0]] + l.drop_first());
    lemma_lines_len_cons(l[0], l.drop_first());
}

/// Reads a comma-separated file named after a table: its first line names the columns, each
/// further non-blank line is a row, and the rows are applied as [`apply_rows`] does. An empty
/// file changes nothing.
pub fn import_csv_text<P: Fn(&str) -> Option<u32>>(
    squad: &mut SquadFile,
    table_name: &str,
    content: &str,
    summary: &mut ImportSummary,
    parse_float: &P,
)
    requires
        old(squad).wf(),
        first_table_named(old(squad).tables@, table_name@, 0) matches Some(i) ==> table_importable(
            *old(squad),
            old(squad).tables@[i].shortname@,
        ),
        forall|s: &str| call_requires(*parse_float, (s,)),
        old(summary).cells_updated + old(summary).cells_failed + 2 * content.spec_bytes().len() <= usize::MAX,
        old(summary).tables_touched < usize::MAX,
    ensures
        same_layout(*final(squad), *old(squad)),
        ({
            let ls = lines_from(content.spec_bytes(), 0);
            if ls.len() == 0 {
                final(squad).buf@ == old(squad).buf@ && *final(summary) == *old(summary)
            } else {
                let header = byte_texts(csv_fields(ls[0]));
                let rows = csv_rows_of(ls.drop_first());
                match first_table_named(old(squad).tables@, table_name@, 0) {
                    None => final(squad).buf@ == old(squad).buf@ && *final(summary) == *old(summary),
                    Some(i) => {
                        let ts = old(squad).tables@[i].shortname@;
                        let t2 = old(squad).tables@[old(squad).spec_table_index(ts).unwrap()];
                        forall|h: spec_fn(Seq<char>) -> Option<u32>| #[trigger] parses(parse_float, h) ==> {
                            let a = rows_applied(old(squad).tables@, old(squad).buf@, ts, t2, header, rows, h);
                            &&& final(squad).buf@ == a.0
                            &&& final(summary).cells_updated == old(summary).cells_updated + a.1
                            &&& final(summary).cells_failed == old(summary).cells_failed + a.2
                            &&& final(summary).tables_touched == old(summary).tables_touched + if a.1 > 0 { 1int } else { 0 }
                        }
                    },
                }
            }
        }),
{
    let b = content.as_bytes();
    let ghost ls = lines_from(b@, 0);
    if b.len() == 0 {
        return;
    }
    let e0 = next_byte_exec(b, 0, 10);
    let h_end = if e0 > 0 && e0 < b.len() && b[e0 - 1] == 13 {
        e0 - 1
    } else {
        e0
    };
    proof {
        crate::tsv::lemma_line_len_pub(b@, 0);
        assert(b@.subrange(0, h_end as int) == ls[0]);
    }
    let header = parse_csv_bytes(&b[0..h_end]);
    let mut pos: usize = if e0 >= b.len() {
        b.len()
    } else {
        e0 + 1
    };
    let ghost all_rows = ls.drop_first();
    let ghost mut k: int = 0;
    let mut rows: Vec<Vec<String>> = Vec::new();
    proof {
        assert(all_rows =~= all_rows.take(0) + lines_from(b@, pos as int));
        assert(rows_view(rows@) =~= csv_rows_of(all_rows.take(0)));
    }
    while pos < b.len()
        invariant
            pos <= b@.len(),
            ls == lines_from(b@, 0),
            ls.len() > 0,
            all_rows == ls.drop_first(),
            0 <= k,
            k + lines_from(b@, pos as int).len() == all_rows.len(),
            all_rows =~= all_rows.take(k) + lines_from(b@, pos as int),
            rows_view(rows@) == csv_rows_of(all_rows.take(k)),
        decreases b@.len() - pos,
    {
        let e = next_byte_exec(b, pos, 10);
        let le = if e > pos && e < b.len() && b[e - 1] == 13 {
            e - 1
        } else {
            e
        };
        let next = if e >= b.len() {
            b.len()
        } else {
            e + 1
        };
        let line = &b[pos..le];
        proof {
            crate::tsv::lemma_line_len_pub(b@, pos as int);
            assert(line@ == crate::tsv::line_at(b@, pos as int));
            assert(all_rows[k] == line@);
            assert(all_rows =~= all_rows.take(k + 1) + lines_from(b@, next as int));
            assert(all_rows.take(k + 1).drop_last() =~= all_rows.take(k));
        }
        let text = lossy_string(line);
        if !trim(text.as_str()).is_empty() {
            let fields = parse_csv_bytes(line);
            rows.push(fields);
            assert(rows_view(rows@) =~= csv_rows_of(all_rows.take(k + 1)));
        }
        proof {
            k = k + 1;
        }
        pos = next;
    }
    proof {
        assert(all_rows.take(k) =~= all_rows);
        lemma_csv_rows_cells(all_rows);
        lemma_lines_len_from(b@, 0);
        lemma_lines_len_drop_first(ls);
    }
    apply_rows(squad, table_name, header.as_slice(), rows.as_slice(), summary, parse_float);
}

} // verus!
