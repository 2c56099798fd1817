//! The schema file (`fifa_ng_db-meta.xml`): table and field names, and each field's `rangelow`.
use vstd::prelude::*;
use vstd::string::StringSliceAdditionalSpecFns;

use crate::error::Result;
use crate::strmap::StrMap;
use crate::text::{lossy_string, utf8_text, parse_i64_bytes, spec_parse_int};

verus! {

/// The schema entry of one field.
#[derive(Debug)]
pub struct FieldMeta {
    pub name: String,
    pub rangelow: i64,
}

/// The schema entry of one table, with its fields by short name.
pub struct TableMeta {
    pub name: String,
    pub fields: StrMap<FieldMeta>,
}

/// The schema: tables by short name.
pub type MetaMap = StrMap<TableMeta>;

/// What the schema says of one field: its name and its `rangelow`.
pub type FieldDesc = (Seq<char>, i64);

/// What the schema says of one table: its name and its fields by short name.
pub type TableDesc = (Seq<char>, Map<Seq<char>, FieldDesc>);

/// ASCII whitespace as `u8::is_ascii_whitespace` defines it.
pub open spec fn is_ws(c: u8) -> bool {
    c == 32u8 || c == 9u8 || c == 10u8 || c == 12u8 || c == 13u8
}

/// The first position from `i` on that is not whitespace (or `end`).
pub open spec fn skip_ws(b: Seq<u8>, i: int, end: int) -> int
    decreases end - i,
{
    if 0 <= i < end && is_ws(b[i]) {
        skip_ws(b, i + 1, end)
    } else {
        i
    }
}

/// The end of an attribute name that starts at `i`: the first `=` or whitespace (or `end`).
pub open spec fn scan_key(b: Seq<u8>, i: int, end: int) -> int
    decreases end - i,
{
    if 0 <= i < end && b[i] != 61u8 && !is_ws(b[i]) {
        scan_key(b, i + 1, end)
    } else {
        i
    }
}

/// The first `"` from `i` on (or `end`).
pub open spec fn scan_quote(b: Seq<u8>, i: int, end: int) -> int
    decreases end - i,
{
    if 0 <= i < end && b[i] != 34u8 {
        scan_quote(b, i + 1, end)
    } else {
        i
    }
}

pub proof fn lemma_scans(b: Seq<u8>, i: int, end: int)
    ensures
        skip_ws(b, i, end) >= i,
        scan_key(b, i, end) >= i,
        scan_quote(b, i, end) >= i,
        i <= end ==> skip_ws(b, i, end) <= end && scan_key(b, i, end) <= end && scan_quote(b, i, end)
            <= end,
    decreases end - i,
{
    if 0 <= i < end {
        lemma_scans(b, i + 1, end);
    }
}

/// The value range of the last attribute named `key` among the `key="value"` pairs of
/// `b[i..end]`, or `acc` when there is none. Scanning stops at the first malformed pair.
pub open spec fn attr_lookup(b: Seq<u8>, i: int, end: int, key: Seq<u8>, acc: Option<(int, int)>) -> Option<
    (int, int),
>
    decreases end - i,
{
    if i < 0 || i >= end || end > b.len() {
        acc
    } else {
        let ks = skip_ws(b, i, end);
        let ke = scan_key(b, ks, end);
        if ks == ke || ke >= end || b[ke] != 61u8 {
            acc
        } else if ke + 1 >= end || b[ke + 1] != 34u8 {
            acc
        } else {
            let vs = ke + 2;
            let ve = scan_quote(b, vs, end);
            if ve >= end {
                acc
            } else {
                let acc2 = if b.subrange(ks, ke) == key {
                    Some((vs, ve))
                } else {
                    acc
                };
                proof {
                    lemma_scans(b, i, end);
                    lemma_scans(b, ks, end);
                    lemma_scans(b, vs, end);
                }
                attr_lookup(b, ve + 1, end, key, acc2)
            }
        }
    }
}

/// The first occurrence of `pat` at or after `from` that ends by `limit`.
pub open spec fn find_pat(b: Seq<u8>, pat: Seq<u8>, from: int, limit: int) -> Option<int>
    decreases limit + 1 - from,
{
    if from < 0 || from + pat.len() > limit || limit > b.len() {
        None
    } else if b.subrange(from, from + pat.len()) == pat {
        Some(from)
    } else {
        find_pat(b, pat, from + 1, limit)
    }
}

pub proof fn lemma_find_pat_bounds(b: Seq<u8>, pat: Seq<u8>, from: int, limit: int)
    ensures
        find_pat(b, pat, from, limit) matches Some(p) ==> from <= p && p + pat.len() <= limit
            && limit <= b.len() && b.subrange(p, p + pat.len()) == pat,
    decreases limit + 1 - from,
{
    if !(from < 0 || from + pat.len() > limit || limit > b.len()) {
        if b.subrange(from, from + pat.len()) != pat {
            lemma_find_pat_bounds(b, pat, from + 1, limit);
        }
    }
}

pub open spec fn pat_table_open() -> Seq<u8> {
    seq![60u8, 116u8, 97u8, 98u8, 108u8, 101u8, 32u8]
}

pub open spec fn pat_table_close() -> Seq<u8> {
    seq![60u8, 47u8, 116u8, 97u8, 98u8, 108u8, 101u8, 62u8]
}

pub open spec fn pat_field_open() -> Seq<u8> {
    seq![60u8, 102u8, 105u8, 101u8, 108u8, 100u8, 32u8]
}

pub open spec fn pat_tag_end() -> Seq<u8> {
    seq![62u8]
}

pub open spec fn pat_self_close() -> Seq<u8> {
    seq![47u8, 62u8]
}

pub open spec fn key_shortname() -> Seq<u8> {
    seq![115u8, 104u8, 111u8, 114u8, 116u8, 110u8, 97u8, 109u8, 101u8]
}

pub open spec fn key_name() -> Seq<u8> {
    seq![110u8, 97u8, 109u8, 101u8]
}

pub open spec fn key_rangelow() -> Seq<u8> {
    seq![114u8, 97u8, 110u8, 103u8, 101u8, 108u8, 111u8, 119u8]
}

/// The text of an attribute's value, or the empty text when the attribute is missing.
pub open spec fn attr_text(b: Seq<u8>, v: Option<(int, int)>) -> Seq<char> {
    match v {
        Some((s, e)) => utf8_text(b.subrange(s, e)),
        None => Seq::empty(),
    }
}

/// The `rangelow` of a field tag: its attribute read as an `i64`, or 0.
pub open spec fn attr_rangelow(b: Seq<u8>, v: Option<(int, int)>) -> i64 {
    match v {
        Some((s, e)) => match spec_parse_int(b.subrange(s, e), i64::MIN as int, i64::MAX as int) {
            Some(x) => x as i64,
            None => 0,
        },
        None => 0,
    }
}

/// The fields described by the `<field .../>` tags of `b[fc..limit]`, inserted into `acc`
/// in order. A tag without `shortname` is skipped.
pub open spec fn fields_from(b: Seq<u8>, fc: int, limit: int, acc: Map<Seq<char>, FieldDesc>) -> Map<
    Seq<char>,
    FieldDesc,
>
    decreases limit - fc,
{
    match find_pat(b, pat_field_open(), fc, limit) {
        None => acc,
        Some(p) => {
            let ts = p + 7;
            match find_pat(b, pat_self_close(), ts, limit) {
                None => acc,
                Some(te) => {
                    proof {
                        lemma_find_pat_bounds(b, pat_field_open(), fc, limit);
                        lemma_find_pat_bounds(b, pat_self_close(), ts, limit);
                    }
                    let acc2 = match attr_lookup(b, ts, te, key_shortname(), None) {
                        None => acc,
                        Some((ss, se)) => acc.insert(
                            utf8_text(b.subrange(ss, se)),
                            (
                                attr_text(b, attr_lookup(b, ts, te, key_name(), None)),
                                attr_rangelow(b, attr_lookup(b, ts, te, key_rangelow(), None)),
                            ),
                        ),
                    };
                    fields_from(b, te + 2, limit, acc2)
                },
            }
        },
    }
}

/// The tables described by the `<table ...>...</table>` elements of `b[cursor..]`, inserted
/// into `acc` in order. An element without `shortname` is skipped.
pub open spec fn tables_from(b: Seq<u8>, cursor: int, acc: Map<Seq<char>, TableDesc>) -> Map<
    Seq<char>,
    TableDesc,
>
    decreases b.len() - cursor,
{
    match find_pat(b, pat_table_open(), cursor, b.len() as int) {
        None => acc,
        Some(p) => {
            let ts = p + 7;
            match find_pat(b, pat_tag_end(), ts, b.len() as int) {
                None => acc,
                Some(te) => match find_pat(b, pat_table_close(), te, b.len() as int) {
                    None => acc,
                    Some(be) => {
                        proof {
                            lemma_find_pat_bounds(b, pat_table_open(), cursor, b.len() as int);
                            lemma_find_pat_bounds(b, pat_tag_end(), ts, b.len() as int);
                            lemma_find_pat_bounds(b, pat_table_close(), te, b.len() as int);
                        }
                        let acc2 = match attr_lookup(b, ts, te, key_shortname(), None) {
                            None => acc,
                            Some((ss, se)) => acc.insert(
                                utf8_text(b.subrange(ss, se)),
                                (
                                    attr_text(b, attr_lookup(b, ts, te, key_name(), None)),
                                    fields_from(b, te + 1, be, Map::empty()),
                                ),
                            ),
                        };
                        tables_from(b, be + 8, acc2)
                    },
                },
            }
        },
    }
}

/// The fields of a table's schema entry are those of a description.
pub open spec fn fields_match(m: Map<Seq<char>, FieldMeta>, d: Map<Seq<char>, FieldDesc>) -> bool {
    &&& m.dom() == d.dom()
    &&& forall|k: Seq<char>| #[trigger]
        d.contains_key(k) ==> m[k].name@ == d[k].0 && m[k].rangelow == d[k].1
}

/// A schema is the one a description gives.
pub open spec fn meta_matches(m: Map<Seq<char>, TableMeta>, d: Map<Seq<char>, TableDesc>) -> bool {
    &&& m.dom() == d.dom()
    &&& forall|k: Seq<char>| #[trigger]
        d.contains_key(k) ==> m[k].name@ == d[k].0 && fields_match(m[k].fields@, d[k].1)
}

/// The schema that `parse_meta_xml` reads from `bytes`.
pub open spec fn spec_meta(bytes: Seq<u8>) -> Map<Seq<char>, TableDesc> {
    tables_from(bytes, 0, Map::empty())
}

fn find_pat_exec(b: &[u8], pat: &[u8], from: usize, limit: usize) -> (r: Option<usize>)
    requires
        limit <= b@.len(),
    ensures
        r matches Some(p) ==> find_pat(b@, pat@, from as int, limit as int) == Some(p as int),
        r is None ==> find_pat(b@, pat@, from as int, limit as int) is None,
{
    let mut p = from;
    while p <= limit && pat.len() <= limit - p
        invariant
            from <= p,
            limit <= b@.len(),
            find_pat(b@, pat@, from as int, limit as int) == find_pat(b@, pat@, p as int, limit as int),
        decreases limit - p + 1,
    {
        let mut k: usize = 0;
        while k < pat.len() && b[p + k] == pat[k]
            invariant
                k <= pat@.len(),
                p + pat@.len() <= limit <= b@.len(),
                b@.subrange(p as int, p + k) == pat@.subrange(0, k as int),
            decreases pat@.len() - k,
        {
            assert(b@.subrange(p as int, p + k + 1) =~= b@.subrange(p as int, p + k).push(b@[p + k]));
            assert(pat@.subrange(0, k + 1) =~= pat@.subrange(0, k as int).push(pat@[k as int]));
            k = k + 1;
        }
        if k == pat.len() {
            assert(pat@.subrange(0, k as int) =~= pat@);
            return Some(p);
        }
        assert(b@.subrange(p as int, p + pat@.len())[k as int] != pat@[k as int]);
        p = p + 1;
    }
    None
}

fn skip_ws_exec(b: &[u8], i: usize, end: usize) -> (r: usize)
    requires
        i <= end <= b@.len(),
    ensures
        r == skip_ws(b@, i as int, end as int),
    decreases end - i,
{
    if i < end && (b[i] == 32 || b[i] == 9 || b[i] == 10 || b[i] == 12 || b[i] == 13) {
        skip_ws_exec(b, i + 1, end)
    } else {
        i
    }
}

fn scan_key_exec(b: &[u8], i: usize, end: usize) -> (r: usize)
    requires
        i <= end <= b@.len(),
    ensures
        r == scan_key(b@, i as int, end as int),
    decreases end - i,
{
    if i < end && b[i] != 61 && !(b[i] == 32 || b[i] == 9 || b[i] == 10 || b[i] == 12 || b[i] == 13) {
        scan_key_exec(b, i + 1, end)
    } else {
        i
    }
}

fn scan_quote_exec(b: &[u8], i: usize, end: usize) -> (r: usize)
    requires
        i <= end <= b@.len(),
    ensures
        r == scan_quote(b@, i as int, end as int),
    decreases end - i,
{
    if i < end && b[i] != 34 {
        scan_quote_exec(b, i + 1, end)
    } else {
        i
    }
}

/// The value range of the last attribute named `key` in the tag text `b[start..end]`.
fn find_attr(b: &[u8], start: usize, end: usize, key: &[u8]) -> (r: Option<(usize, usize)>)
    requires
        start <= end <= b@.len(),
    ensures
        r matches Some((s, e)) ==> attr_lookup(b@, start as int, end as int, key@, None) == Some(
            (s as int, e as int),
        ) && s <= e <= end,
        r is None ==> attr_lookup(b@, start as int, end as int, key@, None) is None,
{
    let mut acc: Option<(usize, usize)> = None;
    let mut i = start;
    loop
        invariant
            start <= i <= end <= b@.len(),
            attr_lookup(b@, start as int, end as int, key@, None) == attr_lookup(
                b@,
                i as int,
                end as int,
                key@,
                match acc {
                    Some((s, e)) => Some((s as int, e as int)),
                    None => None,
                },
            ),
            acc matches Some((s, e)) ==> s <= e <= end,
        ensures
            attr_lookup(b@, start as int, end as int, key@, None) == match acc {
                Some((s, e)) => Some((s as int, e as int)),
                None => None,
            },
            acc matches Some((s, e)) ==> s <= e <= end,
        decreases end - i,
    {
        if i >= end {
            break;
        }
        proof {
            lemma_scans(b@, i as int, end as int);
        }
        let ks = skip_ws_exec(b, i, end);
        proof {
            lemma_scans(b@, ks as int, end as int);
        }
        let ke = scan_key_exec(b, ks, end);
        if ks == ke || ke >= end || b[ke] != 61 {
            break;
        }
        if ke + 1 >= end || b[ke + 1] != 34 {
            break;
        }
        let vs = ke + 2;
        proof {
            lemma_scans(b@, vs as int, end as int);
        }
        let ve = scan_quote_exec(b, vs, end);
        if ve >= end {
            break;
        }
        if crate::text::bytes_eq(&b[ks..ke], key) {
            acc = Some((vs, ve));
        }
        i = ve + 1;
    }
    acc
}

/// Reads table and field names from the schema XML. It never fails: elements it cannot read
/// are skipped, and reading stops at the first unterminated element.
pub fn parse_meta_xml(content: &str) -> (r: Result<MetaMap>)
    ensures
        r matches Ok(m) && meta_matches(m@, spec_meta(content.spec_bytes())),
{
    let b = content.as_bytes();
    let table_open: [u8; 7] = [60, 116, 97, 98, 108, 101, 32];
    let table_close: [u8; 8] = [60, 47, 116, 97, 98, 108, 101, 62];
    let field_open: [u8; 7] = [60, 102, 105, 101, 108, 100, 32];
    let tag_end: [u8; 1] = [62];
    let self_close: [u8; 2] = [47, 62];
    let k_short: [u8; 9] = [115, 104, 111, 114, 116, 110, 97, 109, 101];
    let k_name: [u8; 4] = [110, 97, 109, 101];
    let k_range: [u8; 8] = [114, 97, 110, 103, 101, 108, 111, 119];
    assert(table_open@ == pat_table_open());
    assert(table_close@ == pat_table_close());
    assert(field_open@ == pat_field_open());
    assert(tag_end@ == pat_tag_end());
    assert(self_close@ == pat_self_close());
    assert(k_short@ == key_shortname());
    assert(k_name@ == key_name());
    assert(k_range@ == key_rangelow());
    let ghost bs = b@;
    let mut tables: MetaMap = StrMap::new();
    let ghost mut desc: Map<Seq<char>, TableDesc> = Map::empty();
    let mut cursor: usize = 0;
    let _n = b.len();
    loop
        invariant
            bs == b@,
            b@.len() <= usize::MAX,
            cursor <= b@.len(),
            table_open@ == pat_table_open(),
            table_close@ == pat_table_close(),
            field_open@ == pat_field_open(),
            tag_end@ == pat_tag_end(),
            self_close@ == pat_self_close(),
            k_short@ == key_shortname(),
            k_name@ == key_name(),
            k_range@ == key_rangelow(),
            spec_meta(bs) == tables_from(bs, cursor as int, desc),
            meta_matches(tables@, desc),
        ensures
            spec_meta(bs) == desc,
            meta_matches(tables@, desc),
        decreases b@.len() - cursor,
    {
        let p = match find_pat_exec(b, &table_open, cursor, b.len()) {
            Some(p) => p,
            None => break,
        };
        proof {
            lemma_find_pat_bounds(bs, pat_table_open(), cursor as int, bs.len() as int);
        }
        let ts = p + 7;
        let te = match find_pat_exec(b, &tag_end, ts, b.len()) {
            Some(te) => te,
            None => break,
        };
        proof {
            lemma_find_pat_bounds(bs, pat_tag_end(), ts as int, bs.len() as int);
        }
        let be = match find_pat_exec(b, &table_close, te, b.len()) {
            Some(be) => be,
            None => break,
        };
        proof {
            lemma_find_pat_bounds(bs, pat_table_close(), te as int, bs.len() as int);
        }
        let next = be + 8;
        match find_attr(b, ts, te, &k_short) {
            None => {},
            Some((ss, se)) => {
                let key = lossy_string(&b[ss..se]);
                let name = match find_attr(b, ts, te, &k_name) {
                    Some((ns, ne)) => lossy_string(&b[ns..ne]),
                    None => String::new(),
                };
                let (fields, Ghost(fdesc)) = parse_fields(b, te + 1, be, &field_open, &self_close, &k_short, &k_name, &k_range);
                proof {
                    desc = desc.insert(key@, (name@, fdesc));
                }
                tables.insert(key, TableMeta { name, fields });
            },
        }
        cursor = next;
    }
    Ok(tables)
}

fn parse_fields(
    b: &[u8],
    start: usize,
    limit: usize,
    field_open: &[u8; 7],
    self_close: &[u8; 2],
    k_short: &[u8; 9],
    k_name: &[u8; 4],
    k_range: &[u8; 8],
) -> (r: (StrMap<FieldMeta>, Ghost<Map<Seq<char>, FieldDesc>>))
    requires
        start <= limit <= b@.len(),
        field_open@ == pat_field_open(),
        self_close@ == pat_self_close(),
        k_short@ == key_shortname(),
        k_name@ == key_name(),
        k_range@ == key_rangelow(),
    ensures
        r.1@ == fields_from(b@, start as int, limit as int, Map::empty()),
        fields_match(r.0@, r.1@),
{
    let mut fields: StrMap<FieldMeta> = StrMap::new();
    let ghost mut desc: Map<Seq<char>, FieldDesc> = Map::empty();
    let mut fc = start;
    let _n = b.len();
    loop
        invariant
            start <= fc,
            limit <= b@.len(),
            b@.len() <= usize::MAX,
            field_open@ == pat_field_open(),
            self_close@ == pat_self_close(),
            k_short@ == key_shortname(),
            k_name@ == key_name(),
            k_range@ == key_rangelow(),
            fields_from(b@, start as int, limit as int, Map::empty()) == fields_from(
                b@,
                fc as int,
                limit as int,
                desc,
            ),
            fields_match(fields@, desc),
        ensures
            fields_from(b@, start as int, limit as int, Map::empty()) == desc,
            fields_match(fields@, desc),
        decreases limit - fc,
    {
        let p = match find_pat_exec(b, field_open, fc, limit) {
            Some(p) => p,
            None => break,
        };
        proof {
            lemma_find_pat_bounds(b@, pat_field_open(), fc as int, limit as int);
        }
        let ts = p + 7;
        let te = match find_pat_exec(b, self_close, ts, limit) {
            Some(te) => te,
            None => break,
        };
        proof {
            lemma_find_pat_bounds(b@, pat_self_close(), ts as int, limit as int);
        }
        match find_attr(b, ts, te, k_short) {
            None => {},
            Some((ss, se)) => {
                let key = lossy_string(&b[ss..se]);
                let name = match find_attr(b, ts, te, k_name) {
                    Some((ns, ne)) => lossy_string(&b[ns..ne]),
                    None => String::new(),
                };
                let rangelow: i64 = match find_attr(b, ts, te, k_range) {
                    Some((rs, re)) => match parse_i64_bytes(&b[rs..re]) {
                        Some(v) => v,
                        None => 0,
                    },
                    None => 0,
                };
                proof {
                    desc = desc.insert(key@, (name@, rangelow));
                }
                fields.insert(key, FieldMeta { name, rangelow });
            },
        }
        fc = te + 2;
    }
    (fields, Ghost(desc))
}

} // verus!
