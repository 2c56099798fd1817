//! Locating the database in a save, reading its table directory and each table's layout.
use vstd::prelude::*;

use crate::crc::{compute_crc_db11, spec_crc_db11};
use crate::error::{Result, SquadError};
use crate::meta::{MetaMap, TableMeta};
use crate::model::{spec_field_type, FieldDescriptor, FieldType, TableInfo};
use crate::text::{lossy_string, nat_decimal, utf8_text, push_str, push_u64, to_owned_string};

verus! {

/// Size of a table header.
pub const HEADER_SIZE: usize = 40;

/// Size of one field descriptor.
pub const FIELD_DESC_SIZE: usize = 16;

/// The little-endian `u32` at `p`.
pub open spec fn u32le(b: Seq<u8>, p: int) -> u32 {
    (b[p] as int + 256 * (b[p + 1] as int) + 65536 * (b[p + 2] as int) + 16777216 * (
    b[p + 3] as int)) as u32
}

/// The little-endian `u16` at `p`.
pub open spec fn u16le(b: Seq<u8>, p: int) -> u16 {
    (b[p] as int + 256 * (b[p + 1] as int)) as u16
}

/// The little-endian `i32` at `p`.
pub open spec fn i32le(b: Seq<u8>, p: int) -> i32 {
    u32le(b, p) as i32
}

pub(crate) fn read_u32le(buf: &[u8], pos: usize) -> (r: u32)
    requires
        pos + 4 <= buf@.len(),
    ensures
        r == u32le(buf@, pos as int),
{
    let b0 = buf[pos] as u32;
    let b1 = buf[pos + 1] as u32;
    let b2 = buf[pos + 2] as u32;
    let b3 = buf[pos + 3] as u32;
    assert(b0 | (b1 << 8u32) | (b2 << 16u32) | (b3 << 24u32) == b0 + 256 * b1 + 65536 * b2
        + 16777216 * b3) by (bit_vector)
        requires
            b0 < 256 && b1 < 256 && b2 < 256 && b3 < 256,
    ;
    b0 | (b1 << 8u32) | (b2 << 16u32) | (b3 << 24u32)
}

pub(crate) fn read_i32le(buf: &[u8], pos: usize) -> (r: i32)
    requires
        pos + 4 <= buf@.len(),
    ensures
        r == i32le(buf@, pos as int),
{
    read_u32le(buf, pos) as i32
}

pub(crate) fn read_u16le(buf: &[u8], pos: usize) -> (r: u16)
    requires
        pos + 2 <= buf@.len(),
    ensures
        r == u16le(buf@, pos as int),
{
    let b0 = buf[pos] as u16;
    let b1 = buf[pos + 1] as u16;
    assert(b0 | (b1 << 8u16) == b0 + 256 * b1) by (bit_vector)
        requires
            b0 < 256 && b1 < 256,
    ;
    b0 | (b1 << 8u16)
}

/// The database signature `DB\0\x08`, followed after one free byte by three zero bytes,
/// stands at `pos`.
pub open spec fn sig_at(b: Seq<u8>, pos: int) -> bool {
    &&& b[pos] == 68u8
    &&& b[pos + 1] == 66u8
    &&& b[pos + 2] == 0u8
    &&& b[pos + 3] == 8u8
    &&& b[pos + 5] == 0u8
    &&& b[pos + 6] == 0u8
    &&& b[pos + 7] == 0u8
}

/// The signature stands at `p`, and at no earlier position.
pub open spec fn first_sig_at(b: Seq<u8>, p: int) -> bool {
    0 <= p < b.len() - 8 && sig_at(b, p) && forall|q: int| 0 <= q < p ==> !#[trigger] sig_at(b, q)
}

/// The first position before `len - 8` where the signature stands.
pub open spec fn spec_signature_pos(b: Seq<u8>) -> Option<int> {
    if exists|p: int| #[trigger] first_sig_at(b, p) {
        Some(choose|p: int| #[trigger] first_sig_at(b, p))
    } else {
        None
    }
}

/// Finds the database signature: the first position `p < len - 8` holding it.
pub fn find_inner_db_signature(buf: &[u8]) -> (r: Result<usize>)
    ensures
        match r {
            Ok(p) => p + 8 < buf@.len() && sig_at(buf@, p as int) && forall|q: int|
                0 <= q < p ==> !#[trigger] sig_at(buf@, q),
            Err(e) => e is SignatureNotFound && forall|q: int|
                0 <= q < buf@.len() - 8 ==> !#[trigger] sig_at(buf@, q),
        },
{
    let limit = buf.len().saturating_sub(8);
    let mut pos: usize = 0;
    while pos < limit
        invariant
            limit == if buf@.len() >= 8 { buf@.len() - 8 } else { 0 },
            pos <= limit,
            forall|q: int| 0 <= q < pos ==> !#[trigger] sig_at(buf@, q),
        decreases limit - pos,
    {
        if buf[pos] == 68 && buf[pos + 1] == 66 && buf[pos + 2] == 0 && buf[pos + 3] == 8 && buf[pos
            + 5] == 0 && buf[pos + 6] == 0 && buf[pos + 7] == 0 {
            return Ok(pos);
        }
        pos = pos + 1;
    }
    Err(SquadError::SignatureNotFound)
}

/// An ASCII letter or digit.
pub open spec fn is_alnum(c: u8) -> bool {
    (48 <= c <= 57) || (65 <= c <= 90) || (97 <= c <= 122)
}

/// Four letters or digits at `o`.
pub open spec fn valid_dir_name(b: Seq<u8>, o: int) -> bool {
    is_alnum(b[o]) && is_alnum(b[o + 1]) && is_alnum(b[o + 2]) && is_alnum(b[o + 3])
}

/// The directory entry at `o` continues the list after an entry with offset `last`.
pub open spec fn dir_entry_ok(b: Seq<u8>, o: int, last: int) -> bool {
    &&& o + 8 <= b.len()
    &&& valid_dir_name(b, o)
    &&& u32le(b, o + 4) as int >= last
}

/// The position after the last directory entry, for a list that continues at `o`.
pub open spec fn dir_end(b: Seq<u8>, o: int, last: int) -> int
    decreases b.len() - o,
{
    if 0 <= o && dir_entry_ok(b, o, last) {
        dir_end(b, o + 8, u32le(b, o + 4) as int)
    } else {
        o
    }
}

/// The four characters of the name at `o`.
pub open spec fn dir_name(b: Seq<u8>, o: int) -> Seq<char> {
    seq![b[o] as char, b[o + 1] as char, b[o + 2] as char, b[o + 3] as char]
}

/// The directory entries, as names and offsets, of a list that continues at `o`.
pub open spec fn dir_entries(b: Seq<u8>, o: int, last: int) -> Seq<(Seq<char>, u32)>
    decreases b.len() - o,
{
    if 0 <= o && dir_entry_ok(b, o, last) {
        seq![(dir_name(b, o), u32le(b, o + 4))] + dir_entries(b, o + 8, u32le(b, o + 4) as int)
    } else {
        Seq::empty()
    }
}

/// Where the database and its directory are.
pub struct ParsedDirectory {
    pub sig_pos: usize,
    pub dir_start: usize,
    pub base: usize,
    pub entries: Vec<(String, u32)>,
}

/// The names and offsets of a list of directory entries.
pub open spec fn entries_view(e: Seq<(String, u32)>) -> Seq<(Seq<char>, u32)> {
    e.map_values(|x: (String, u32)| (x.0@, x.1))
}

/// A buffer short enough that offsets read from it, plus a 32-bit offset, fit in `usize`.
pub open spec fn buf_len_ok(n: int) -> bool {
    n + 0x1_0000_0000 + 256 <= usize::MAX
}

fn is_alnum_exec(c: u8) -> (r: bool)
    ensures
        r == is_alnum(c),
{
    (48 <= c && c <= 57) || (65 <= c && c <= 90) || (97 <= c && c <= 122)
}

/// Finds the signature and reads the directory that starts 24 bytes after it. The list
/// ends at the first entry whose name is not four letters or digits, or whose offset is
/// smaller than the previous one.
pub fn parse_directory(buf: &[u8]) -> (r: Result<ParsedDirectory>)
    ensures
        !buf_len_ok(buf@.len() as int) ==> (r matches Err(SquadError::MalformedFile(m)) && m@
            == "file too large to read"@),
        buf_len_ok(buf@.len() as int) ==> match r {
            Ok(d) => spec_signature_pos(buf@) == Some(d.sig_pos as int) && d.dir_start == d.sig_pos
                + 24 && d.base == dir_end(buf@, d.dir_start as int, -1) && entries_view(d.entries@)
                == dir_entries(buf@, d.dir_start as int, -1) && d.base <= buf@.len() + 24,
            Err(e) => e is SignatureNotFound && spec_signature_pos(buf@) is None,
        },
{
    if !len_in_reach(buf) {
        return Err(too_large());
    }
    let sig_pos = match find_inner_db_signature(buf) {
        Ok(p) => p,
        Err(e) => {
            proof {
                assert(!exists|p: int| #[trigger] first_sig_at(buf@, p));
            }
            return Err(e);
        },
    };
    proof {
        let ghost p = sig_pos as int;
        assert(first_sig_at(buf@, p));
        let c = choose|q: int| #[trigger] first_sig_at(buf@, q);
        assert(first_sig_at(buf@, c));
        if c < p {
            assert(!sig_at(buf@, c));
        }
        if p < c {
            assert(!sig_at(buf@, p));
        }
    }
    let dir_start = sig_pos + 24;
    let mut entries: Vec<(String, u32)> = Vec::new();
    let mut o = dir_start;
    let mut last: i64 = -1;
    let _n = buf.len();
    loop
        invariant
            buf_len_ok(buf@.len() as int),
            dir_start <= o <= buf@.len() || o == dir_start,
            -1 <= last <= u32::MAX,
            dir_end(buf@, dir_start as int, -1) == dir_end(buf@, o as int, last as int),
            dir_entries(buf@, dir_start as int, -1) == entries_view(entries@) + dir_entries(
                buf@,
                o as int,
                last as int,
            ),
            o <= buf@.len() + 24,
        ensures
            dir_end(buf@, dir_start as int, -1) == o,
            dir_entries(buf@, dir_start as int, -1) == entries_view(entries@),
            o <= buf@.len() + 24,
        decreases buf@.len() + 24 - o,
    {
        if o > buf.len() || buf.len() - o < 8 {
            proof {
                assert(dir_entries(buf@, o as int, last as int) =~= Seq::empty());
                assert(entries_view(entries@) + Seq::empty() =~= entries_view(entries@));
            }
            break;
        }
        let off = read_u32le(buf, o + 4);
        if !(is_alnum_exec(buf[o]) && is_alnum_exec(buf[o + 1]) && is_alnum_exec(buf[o + 2])
            && is_alnum_exec(buf[o + 3])) || (off as i64) < last {
            proof {
                assert(dir_entries(buf@, o as int, last as int) =~= Seq::empty());
                assert(entries_view(entries@) + Seq::empty() =~= entries_view(entries@));
            }
            break;
        }
        let mut name = String::new();
        crate::text::push_char(&mut name, buf[o] as char);
        crate::text::push_char(&mut name, buf[o + 1] as char);
        crate::text::push_char(&mut name, buf[o + 2] as char);
        crate::text::push_char(&mut name, buf[o + 3] as char);
        let ghost before = entries@;
        proof {
            assert(name@ =~= dir_name(buf@, o as int));
        }
        entries.push((name, off));
        proof {
            assert(entries_view(entries@) =~= entries_view(before).push((dir_name(buf@, o as int), off)));
            assert(dir_entries(buf@, o as int, last as int) == seq![(dir_name(buf@, o as int), off)]
                + dir_entries(buf@, o + 8, off as int));
            assert(entries_view(before) + dir_entries(buf@, o as int, last as int) =~= entries_view(
                entries@,
            ) + dir_entries(buf@, o + 8, off as int));
        }
        last = off as i64;
        o = o + 8;
    }
    Ok(ParsedDirectory { sig_pos, dir_start, base: o, entries })
}

/// `x` capped at `u32::MAX`.
pub open spec fn sat_u32(x: int) -> int {
    if x > u32::MAX {
        u32::MAX as int
    } else {
        x
    }
}

/// How many bytes of the record a field needs: four from its byte offset for floats and
/// compressed strings, otherwise enough to hold all its bits.
pub open spec fn needed_bytes(ft: FieldType, bo: u32, depth: u32) -> int {
    match ft {
        FieldType::Float | FieldType::ShortCompressedString | FieldType::LongCompressedString => bo
            as int / 8 + 4,
        _ => sat_u32(sat_u32(bo + depth) + 7) / 8,
    }
}

pub open spec fn th_rec_bytes(b: Seq<u8>, s: int) -> int {
    u32le(b, s + 8) as int
}

pub open spec fn th_n_slots(b: Seq<u8>, s: int) -> int {
    u16le(b, s + 20) as int
}

pub open spec fn th_n_fields(b: Seq<u8>, s: int) -> int {
    b[s + 28] as int
}

pub open spec fn th_data_start(b: Seq<u8>, s: int) -> int {
    s + 40 + 16 * th_n_fields(b, s)
}

pub open spec fn th_data_end(b: Seq<u8>, s: int) -> int {
    th_data_start(b, s) + th_rec_bytes(b, s) * th_n_slots(b, s)
}

/// Where descriptor `f` of the table at `s` begins.
pub open spec fn field_desc_pos(s: int, f: int) -> int {
    s + 40 + 16 * f
}

/// Descriptor `f` of the table at `s` fits in the record.
pub open spec fn field_fits(b: Seq<u8>, s: int, f: int) -> bool {
    let p = field_desc_pos(s, f);
    needed_bytes(spec_field_type(i32le(b, p)), i32le(b, p + 4) as u32, i32le(b, p + 12) as u32)
        <= th_rec_bytes(b, s)
}

/// The table at `start`, bounded by `end`, has a readable header, its descriptors and records
/// lie inside the file and the table, and every field fits in a record.
pub open spec fn table_ok(b: Seq<u8>, start: int, end: int) -> bool {
    &&& start + 40 <= b.len()
    &&& th_data_start(b, start) <= b.len()
    &&& th_data_end(b, start) <= end
    &&& th_data_end(b, start) <= b.len()
    &&& forall|f: int| 0 <= f < th_n_fields(b, start) ==> #[trigger] field_fits(b, start, f)
}

/// The schema entry of table `sn`, if there is a schema and it has one.
pub open spec fn meta_table(meta: Option<&MetaMap>, sn: Seq<char>) -> Option<TableMeta> {
    match meta {
        Some(m) => if m@.contains_key(sn) {
            Some(m@[sn])
        } else {
            None
        },
        None => None,
    }
}

/// `fd` is the descriptor stored at `p`, named by the schema entry `tm` when it knows the field.
pub open spec fn desc_matches(fd: FieldDescriptor, b: Seq<u8>, p: int, tm: Option<TableMeta>) -> bool {
    let sn = utf8_text(b.subrange(p + 8, p + 12));
    &&& fd.shortname@ == sn
    &&& fd.field_type == spec_field_type(i32le(b, p))
    &&& fd.bit_offset == i32le(b, p + 4) as u32
    &&& fd.depth == i32le(b, p + 12) as u32
    &&& match tm {
        Some(t) => if t.fields@.contains_key(sn) {
            fd.name@ == t.fields@[sn].name@ && fd.rangelow == t.fields@[sn].rangelow
        } else {
            fd.name@ == sn && fd.rangelow == 0
        },
        None => fd.name@ == sn && fd.rangelow == 0,
    }
}

/// Where `x` goes in `s`: after the last element whose bit offset is not larger.
pub open spec fn insert_pos(s: Seq<FieldDescriptor>, x: FieldDescriptor) -> int
    decreases s.len(),
{
    if s.len() == 0 {
        0
    } else if s.last().bit_offset <= x.bit_offset {
        s.len() as int
    } else {
        insert_pos(s.drop_last(), x)
    }
}

/// `s` stably sorted by bit offset.
pub open spec fn sort_by_offset(s: Seq<FieldDescriptor>) -> Seq<FieldDescriptor>
    decreases s.len(),
{
    if s.len() == 0 {
        s
    } else {
        let t = sort_by_offset(s.drop_last());
        t.insert(insert_pos(t, s.last()), s.last())
    }
}

/// The stored checksum at `pos` matches the checksum of the bytes from `fds` to `pos`.
pub open spec fn crc_matches_at(b: Seq<u8>, fds: int, pos: int) -> bool {
    &&& fds <= pos
    &&& pos + 4 <= b.len()
    &&& spec_crc_db11(b.subrange(fds, pos)) as u32 == u32le(b, pos)
}

/// Where a table's checksum is found: right after its records, or at its end.
pub open spec fn spec_crc_pos(b: Seq<u8>, fds: int, data_end: int, end: int) -> Option<int> {
    if crc_matches_at(b, fds, data_end) {
        Some(data_end)
    } else if crc_matches_at(b, fds, end) {
        Some(end)
    } else {
        None
    }
}

/// `t` is what `parse_table` reads for the table `sn` at `start..end`.
#[verifier::opaque]
pub open spec fn table_parsed(
    b: Seq<u8>,
    start: int,
    end: int,
    sn: Seq<char>,
    meta: Option<&MetaMap>,
    t: TableInfo,
) -> bool {
    let nf = th_n_fields(b, start);
    let tm = meta_table(meta, sn);
    let data_end = th_data_end(b, start);
    let crc_pos = spec_crc_pos(b, start + 40, data_end, end);
    &&& t.shortname@ == sn
    &&& match tm {
        Some(m) => t.name matches Some(n) && n@ == m.name@,
        None => t.name is None,
    }
    &&& t.start == start
    &&& t.end == end
    &&& t.rec_bytes == th_rec_bytes(b, start)
    &&& t.rec_bits == u32le(b, start + 12)
    &&& t.compressed_string_length == u32le(b, start + 16)
    &&& t.n_records_slot == th_n_slots(b, start)
    &&& t.n_written_records == if u16le(b, start + 22) < th_n_slots(b, start) {
        u16le(b, start + 22) as int
    } else {
        th_n_slots(b, start)
    }
    &&& t.field_desc_start == start + 40
    &&& t.data_start == th_data_start(b, start)
    &&& t.data_end == data_end
    &&& t.record_crc_pos == match crc_pos {
        Some(p) => Some(p as usize),
        None => None,
    }
    &&& t.has_record_crc == crc_pos is Some
    &&& t.has_index_block == match crc_pos {
        Some(p) => p > data_end,
        None => true,
    }
    &&& exists|raw: Seq<FieldDescriptor>|
        {
            &&& raw.len() == nf
            &&& forall|f: int|
                0 <= f < nf ==> #[trigger] desc_matches(raw[f], b, field_desc_pos(start, f), tm)
            &&& t.fields@ == sort_by_offset(raw)
        }
}

proof fn lemma_insert_pos_scan(s: Seq<FieldDescriptor>, x: FieldDescriptor, k: int)
    requires
        0 < k <= s.len(),
        s[k - 1].bit_offset > x.bit_offset,
    ensures
        insert_pos(s.take(k), x) == insert_pos(s.take(k - 1), x),
{
    assert(s.take(k).drop_last() =~= s.take(k - 1));
}

proof fn lemma_insert_pos_stop(s: Seq<FieldDescriptor>, x: FieldDescriptor, k: int)
    requires
        0 < k <= s.len(),
        s[k - 1].bit_offset <= x.bit_offset,
    ensures
        insert_pos(s.take(k), x) == k,
{
}

pub proof fn lemma_insert_pos_bound(s: Seq<FieldDescriptor>, x: FieldDescriptor)
    ensures
        0 <= insert_pos(s, x) <= s.len(),
    decreases s.len(),
{
    if s.len() > 0 && s.last().bit_offset > x.bit_offset {
        lemma_insert_pos_bound(s.drop_last(), x);
    }
}

/// Sorts field descriptors by bit offset, keeping the order of equal offsets.
fn sort_fields(raw: Vec<FieldDescriptor>) -> (out: Vec<FieldDescriptor>)
    ensures
        out@ == sort_by_offset(raw@),
{
    let ghost raw_view = raw@;
    let mut rest = raw;
    let mut pending: Vec<FieldDescriptor> = Vec::new();
    // Take the descriptors out in reverse so that they can be inserted in their order.
    while rest.len() > 0
        invariant
            raw_view == rest@ + pending@.reverse(),
        decreases rest@.len(),
    {
        let x = rest.pop().unwrap();
        let ghost before = pending@;
        pending.push(x);
        proof {
            assert(pending@.reverse() =~= seq![x] + before.reverse());
        }
    }
    let mut out: Vec<FieldDescriptor> = Vec::new();
    let ghost mut done: Seq<FieldDescriptor> = Seq::empty();
    proof {
        assert(raw_view =~= pending@.reverse());
    }
    while pending.len() > 0
        invariant
            raw_view == done + pending@.reverse(),
            out@ == sort_by_offset(done),
        decreases pending@.len(),
    {
        let x = pending.pop().unwrap();
        let ghost old_pending = pending@;
        proof {
            assert(old_pending.push(x).reverse() =~= seq![x] + old_pending.reverse());
        }
        let mut k = out.len();
        proof {
            assert(out@.take(k as int) =~= out@);
        }
        while k > 0 && out[k - 1].bit_offset > x.bit_offset
            invariant
                k <= out@.len(),
                insert_pos(out@, x) == insert_pos(out@.take(k as int), x),
            decreases k,
        {
            proof {
                lemma_insert_pos_scan(out@, x, k as int);
            }
            k = k - 1;
        }
        proof {
            if k > 0 {
                lemma_insert_pos_stop(out@, x, k as int);
            }
            let nd = done.push(x);
            assert(nd.drop_last() =~= done);
            assert(raw_view =~= nd + pending@.reverse());
            done = nd;
        }
        out.insert(k, x);
    }
    proof {
        assert(done =~= raw_view);
    }
    out
}

/// The first descriptor from `f` on of the table at `s` whose field does not fit in a record,
/// or the number of descriptors.
pub open spec fn first_unfit_field(b: Seq<u8>, s: int, f: int) -> int
    decreases th_n_fields(b, s) - f,
{
    if f < 0 || f >= th_n_fields(b, s) {
        th_n_fields(b, s)
    } else if !field_fits(b, s, f) {
        f
    } else {
        first_unfit_field(b, s, f + 1)
    }
}

/// When the descriptors before `f` fit and descriptor `f` does not, it is the first that does
/// not.
proof fn lemma_first_unfit_field(b: Seq<u8>, s: int, k: int, f: int)
    requires
        0 <= k <= f < th_n_fields(b, s),
        forall|j: int| 0 <= j < f ==> #[trigger] field_fits(b, s, j),
        !field_fits(b, s, f),
    ensures
        first_unfit_field(b, s, k) == f,
    decreases f - k,
{
    if k < f {
        assert(field_fits(b, s, k));
        lemma_first_unfit_field(b, s, k + 1, f);
    }
}

/// What is wrong with descriptor `f` of the table at `s`: its short name, bit offset and
/// depth, the bytes it needs, and the record size.
pub open spec fn field_fault(b: Seq<u8>, s: int, f: int) -> Seq<char> {
    let p = field_desc_pos(s, f);
    let bo = i32le(b, p + 4) as u32;
    let depth = i32le(b, p + 12) as u32;
    " field '"@ + utf8_text(b.subrange(p + 8, p + 12)) + "' (bit_offset="@ + nat_decimal(bo as nat) + ", depth="@
        + nat_decimal(depth as nat) + ") needs "@ + nat_decimal(
        needed_bytes(spec_field_type(i32le(b, p)), bo, depth) as nat,
    ) + " bytes but record is "@ + nat_decimal(th_rec_bytes(b, s) as nat)
}

/// What is wrong with the table at `start`, bounded by `end`, in the order the reader checks
/// it: the header, the field descriptors, the size and end of the record data, the table's
/// bounds, then the fields.
pub open spec fn table_fault(b: Seq<u8>, start: int, end: int) -> Seq<char> {
    if start + 40 > b.len() {
        " header at offset "@ + nat_decimal(start as nat) + " extends beyond file ("@ + nat_decimal(b.len()) + " bytes)"@
    } else if th_data_start(b, start) > b.len() {
        " field descriptors ("@ + nat_decimal((16 * th_n_fields(b, start)) as nat) + " bytes) extend beyond file"@
    } else if th_rec_bytes(b, start) * th_n_slots(b, start) > usize::MAX {
        " record data size overflows"@
    } else if th_data_end(b, start) > usize::MAX {
        " record data end overflows"@
    } else if th_data_end(b, start) > end || th_data_end(b, start) > b.len() {
        " record data ("@ + nat_decimal(th_n_slots(b, start) as nat) + " records \u{d7} "@ + nat_decimal(
            th_rec_bytes(b, start) as nat,
        ) + " bytes = "@ + nat_decimal((th_rec_bytes(b, start) * th_n_slots(b, start)) as nat)
            + " bytes) extends beyond table boundary"@
    } else {
        field_fault(b, start, first_unfit_field(b, start, 0))
    }
}

/// The message of the `MalformedFile` error about the table `sn` at `start..end`.
pub open spec fn table_error_text(b: Seq<u8>, start: int, end: int, sn: Seq<char>) -> Seq<char> {
    "table '"@ + sn + "'"@ + table_fault(b, start, end)
}

/// The message of a `MalformedFile` error about table `shortname`.
fn table_error(shortname: &str, detail: String) -> (e: SquadError)
    ensures
        e matches SquadError::MalformedFile(m) && m@ == "table '"@ + shortname@ + "'"@ + detail@,
{
    let mut m = to_owned_string("table '");
    push_str(&mut m, shortname);
    push_str(&mut m, "'");
    push_str(&mut m, detail.as_str());
    SquadError::MalformedFile(m)
}

/// A detail text with no number in it.
fn plain_detail(t: &str) -> (r: String)
    ensures
        r@ == t@,
{
    to_owned_string(t)
}

/// The buffer leaves room above it for every offset a table header can name.
fn len_in_reach(buf: &[u8]) -> (r: bool)
    ensures
        r == buf_len_ok(buf@.len() as int),
{
    (buf.len() as u128) + 0x1_0000_0100u128 <= usize::MAX as u128
}

/// The error for a buffer too close to the top of the address space to be read.
fn too_large() -> (e: SquadError)
    ensures
        e matches SquadError::MalformedFile(m) && m@ == "file too large to read"@,
{
    SquadError::MalformedFile(to_owned_string("file too large to read"))
}

/// Reads the header and field descriptors of the table `shortname` that starts at `start`
/// and is bounded by `end`, naming fields from the schema when one is given.
pub fn parse_table(buf: &[u8], start: usize, end: usize, shortname: &str, meta: Option<&MetaMap>) -> (r:
    Result<TableInfo>)
    requires
        start + 40 <= usize::MAX,
        end + 4 <= usize::MAX,
    ensures
        !buf_len_ok(buf@.len() as int) ==> (r matches Err(SquadError::MalformedFile(m)) && m@
            == "file too large to read"@),
        buf_len_ok(buf@.len() as int) ==> match r {
            Ok(t) => table_ok(buf@, start as int, end as int) && table_parsed(
                buf@,
                start as int,
                end as int,
                shortname@,
                meta,
                t,
            ),
            Err(e) => !table_ok(buf@, start as int, end as int) && (e matches SquadError::MalformedFile(m)
                && m@ == table_error_text(buf@, start as int, end as int, shortname@)),
        },
{
    if !len_in_reach(buf) {
        return Err(too_large());
    }
    let blen = buf.len();
    if start > blen || blen - start < HEADER_SIZE {
        let mut d = to_owned_string(" header at offset ");
        push_u64(&mut d, start as u64);
        push_str(&mut d, " extends beyond file (");
        push_u64(&mut d, blen as u64);
        push_str(&mut d, " bytes)");
        return Err(table_error(shortname, d));
    }
    let rec_bytes = read_u32le(buf, start + 8) as usize;
    let rec_bits = read_u32le(buf, start + 12);
    let compressed_string_length = read_u32le(buf, start + 16);
    let n_records_slot = read_u16le(buf, start + 20) as usize;
    let n_written_records_raw = read_u16le(buf, start + 22) as usize;
    let n_fields = buf[start + 28] as usize;
    let field_desc_start = start + HEADER_SIZE;
    let field_desc_area = n_fields * FIELD_DESC_SIZE;
    let data_start = field_desc_start + field_desc_area;
    if data_start > blen {
        let mut d = to_owned_string(" field descriptors (");
        push_u64(&mut d, field_desc_area as u64);
        push_str(&mut d, " bytes) extend beyond file");
        return Err(table_error(shortname, d));
    }
    let record_data_bytes = match rec_bytes.checked_mul(n_records_slot) {
        Some(v) => v,
        None => {
            proof {
                assert(rec_bytes * n_records_slot >= 0) by (nonlinear_arith)
                    requires
                        rec_bytes >= 0,
                        n_records_slot >= 0,
                ;
            }
            return Err(table_error(shortname, plain_detail(" record data size overflows")));
        },
    };
    let data_end = match data_start.checked_add(record_data_bytes) {
        Some(v) => v,
        None => return Err(table_error(shortname, plain_detail(" record data end overflows"))),
    };
    let table_limit = if end < blen {
        end
    } else {
        blen
    };
    if data_end > table_limit {
        let mut d = to_owned_string(" record data (");
        push_u64(&mut d, n_records_slot as u64);
        push_str(&mut d, " records \u{d7} ");
        push_u64(&mut d, rec_bytes as u64);
        push_str(&mut d, " bytes = ");
        push_u64(&mut d, record_data_bytes as u64);
        push_str(&mut d, " bytes) extends beyond table boundary");
        return Err(table_error(shortname, d));
    }
    let n_written_records = if n_written_records_raw < n_records_slot {
        n_written_records_raw
    } else {
        n_records_slot
    };
    let table_meta: Option<&TableMeta> = match meta {
        Some(m) => m.get(shortname),
        None => None,
    };
    let ghost tm = meta_table(meta, shortname@);
    assert(match table_meta {
        Some(t) => tm == Some(*t),
        None => tm is None,
    });
    assert(table_fault(buf@, start as int, end as int) == field_fault(buf@, start as int, first_unfit_field(buf@, start as int, 0)));
    let mut raw: Vec<FieldDescriptor> = Vec::new();
    let mut f: usize = 0;
    while f < n_fields
        invariant
            buf_len_ok(buf@.len() as int),
            table_fault(buf@, start as int, end as int) == field_fault(buf@, start as int, first_unfit_field(buf@, start as int, 0)),
            f <= n_fields,
            n_fields == th_n_fields(buf@, start as int),
            rec_bytes == th_rec_bytes(buf@, start as int),
            field_desc_start == start + 40,
            data_start == th_data_start(buf@, start as int),
            data_start <= buf@.len(),
            match table_meta {
                Some(t) => tm == Some(*t),
                None => tm is None,
            },
            raw@.len() == f,
            forall|k: int| 0 <= k < f ==> #[trigger] field_fits(buf@, start as int, k),
            forall|k: int|
                0 <= k < f ==> #[trigger] desc_matches(
                    raw@[k],
                    buf@,
                    field_desc_pos(start as int, k),
                    tm,
                ),
        decreases n_fields - f,
    {
        let p = field_desc_start + f * FIELD_DESC_SIZE;
        let raw_type = read_i32le(buf, p);
        let bit_offset = read_i32le(buf, p + 4) as u32;
        let field_shortname = lossy_string(&buf[p + 8..p + 12]);
        let depth = read_i32le(buf, p + 12) as u32;
        let field_type = FieldType::from_raw(raw_type);
        let needed_bytes: usize = match field_type {
            FieldType::Float | FieldType::ShortCompressedString | FieldType::LongCompressedString => (
            (bit_offset / 8) as usize).saturating_add(4),
            _ => (bit_offset.saturating_add(depth).saturating_add(7) / 8) as usize,
        };
        if needed_bytes > rec_bytes {
            proof {
                assert(!field_fits(buf@, start as int, f as int));
                lemma_first_unfit_field(buf@, start as int, 0, f as int);
            }
            let mut d = to_owned_string(" field '");
            push_str(&mut d, field_shortname.as_str());
            push_str(&mut d, "' (bit_offset=");
            push_u64(&mut d, bit_offset as u64);
            push_str(&mut d, ", depth=");
            push_u64(&mut d, depth as u64);
            push_str(&mut d, ") needs ");
            push_u64(&mut d, needed_bytes as u64);
            push_str(&mut d, " bytes but record is ");
            push_u64(&mut d, rec_bytes as u64);
            return Err(table_error(shortname, d));
        }
        let (name, rangelow) = match table_meta {
            Some(t) => match t.fields.get(field_shortname.as_str()) {
                Some(fm) => (fm.name.clone(), fm.rangelow),
                None => (field_shortname.clone(), 0i64),
            },
            None => (field_shortname.clone(), 0i64),
        };
        let ghost before = raw@;
        raw.push(
            FieldDescriptor {
                shortname: field_shortname,
                name,
                field_type,
                bit_offset,
                depth,
                rangelow,
            },
        );
        proof {
            assert forall|k: int| 0 <= k < f + 1 implies #[trigger] desc_matches(
                raw@[k],
                buf@,
                field_desc_pos(start as int, k),
                tm,
            ) by {
                if k < f {
                    assert(raw@[k] == before[k]);
                }
            }
        }
        f = f + 1;
    }
    let ghost raw_view = raw@;
    let fields = sort_fields(raw);
    let crc_at_data_end = record_crc_matches(buf, field_desc_start, data_end);
    let record_crc_pos: Option<usize> = if crc_at_data_end {
        Some(data_end)
    } else if record_crc_matches(buf, field_desc_start, end) {
        Some(end)
    } else {
        None
    };
    let has_record_crc = record_crc_pos.is_some();
    let has_index_block = match record_crc_pos {
        Some(pos) => pos > data_end,
        None => true,
    };
    let name: Option<String> = match table_meta {
        Some(t) => Some(t.name.clone()),
        None => None,
    };
    let t = TableInfo {
        shortname: to_owned_string(shortname),
        name,
        start,
        end,
        rec_bytes,
        rec_bits,
        n_records_slot,
        n_written_records,
        field_desc_start,
        data_start,
        data_end,
        has_record_crc,
        record_crc_pos,
        has_index_block,
        compressed_string_length,
        fields,
    };
    proof {
        reveal(table_parsed);
        assert(table_parsed(buf@, start as int, end as int, shortname@, meta, t)) by {
            assert(raw_view.len() == n_fields);
            assert(t.fields@ == sort_by_offset(raw_view));
        }
    }
    Ok(t)
}

/// The checksum stored at `pos` matches the bytes from `fds` to `pos`.
fn record_crc_matches(buf: &[u8], fds: usize, pos: usize) -> (r: bool)
    requires
        pos + 4 <= usize::MAX,
    ensures
        r == crc_matches_at(buf@, fds as int, pos as int),
{
    if pos >= fds && pos + 4 <= buf.len() {
        let c = compute_crc_db11(&buf[fds..pos]);
        c as u32 == read_u32le(buf, pos)
    } else {
        false
    }
}

/// Where the database directory starts in `b`, if the signature is there.
pub open spec fn spec_dir_start(b: Seq<u8>) -> int {
    spec_signature_pos(b).unwrap() + 24
}

/// The directory entries of `b`.
pub open spec fn spec_entries(b: Seq<u8>) -> Seq<(Seq<char>, u32)> {
    dir_entries(b, spec_dir_start(b), -1)
}

/// The base that table offsets are relative to.
pub open spec fn spec_base(b: Seq<u8>) -> int {
    dir_end(b, spec_dir_start(b), -1)
}

/// Where table `i` starts.
pub open spec fn spec_table_start(b: Seq<u8>, i: int) -> int {
    spec_base(b) + spec_entries(b)[i].1
}

/// Where table `i` ends: at the start of the next table, or at the end of the file.
pub open spec fn spec_table_end(b: Seq<u8>, i: int) -> int {
    if i + 1 < spec_entries(b).len() {
        spec_base(b) + spec_entries(b)[i + 1].1
    } else {
        b.len() as int
    }
}

/// Every table of the directory reads without error.
pub open spec fn all_tables_ok(b: Seq<u8>) -> bool {
    forall|i: int|
        0 <= i < spec_entries(b).len() ==> #[trigger] table_ok(
            b,
            spec_table_start(b, i),
            spec_table_end(b, i),
        )
}

/// `tables` are the tables of the directory of `b`, in directory order.
pub open spec fn tables_parsed(b: Seq<u8>, meta: Option<&MetaMap>, tables: Seq<TableInfo>) -> bool {
    &&& tables.len() == spec_entries(b).len()
    &&& forall|i: int|
        0 <= i < tables.len() ==> #[trigger] table_parsed(
            b,
            spec_table_start(b, i),
            spec_table_end(b, i),
            spec_entries(b)[i].0,
            meta,
            tables[i],
        )
}

pub proof fn lemma_dir_entries_len(b: Seq<u8>, o: int, last: int)
    ensures
        dir_end(b, o, last) == o + 8 * dir_entries(b, o, last).len(),
        o >= 0 ==> dir_end(b, o, last) >= o,
        dir_entries(b, o, last).len() > 0 ==> dir_end(b, o, last) <= b.len(),
    decreases b.len() - o,
{
    if 0 <= o && dir_entry_ok(b, o, last) {
        lemma_dir_entries_len(b, o + 8, u32le(b, o + 4) as int);
    }
}

/// The first table from `k` on in the directory of `b` that does not read without error.
pub open spec fn first_bad_table(b: Seq<u8>, k: int) -> Option<int>
    decreases spec_entries(b).len() - k,
{
    if k < 0 || k >= spec_entries(b).len() {
        None
    } else if !table_ok(b, spec_table_start(b, k), spec_table_end(b, k)) {
        Some(k)
    } else {
        first_bad_table(b, k + 1)
    }
}

/// The message of the `MalformedFile` error that reading `b` gives: about the first table of
/// its directory that does not read.
pub open spec fn malformed_text(b: Seq<u8>) -> Seq<char> {
    match first_bad_table(b, 0) {
        Some(i) => table_error_text(b, spec_table_start(b, i), spec_table_end(b, i), spec_entries(b)[i].0),
        None => Seq::empty(),
    }
}

/// When the tables before `i` read and table `i` does not, table `i` is the first that does
/// not.
proof fn lemma_first_bad_table(b: Seq<u8>, k: int, i: int)
    requires
        0 <= k <= i < spec_entries(b).len(),
        forall|j: int| 0 <= j < i ==> #[trigger] table_ok(b, spec_table_start(b, j), spec_table_end(b, j)),
        !table_ok(b, spec_table_start(b, i), spec_table_end(b, i)),
    ensures
        first_bad_table(b, k) == Some(i),
    decreases i - k,
{
    if k < i {
        assert(table_ok(b, spec_table_start(b, k), spec_table_end(b, k)));
        lemma_first_bad_table(b, k + 1, i);
    }
}

/// Reads the directory and then every table it lists. Table `i` runs from its offset to the
/// offset of table `i + 1`, the last one to the end of the file.
#[verifier::rlimit(60)]
pub fn parse_all_tables(buf: &[u8], meta: Option<&MetaMap>) -> (r: Result<(ParsedDirectory, Vec<TableInfo>)>)
    ensures
        !buf_len_ok(buf@.len() as int) ==> (r matches Err(SquadError::MalformedFile(m)) && m@
            == "file too large to read"@),
        buf_len_ok(buf@.len() as int) ==> match r {
            Ok((d, tables)) => spec_signature_pos(buf@) == Some(d.sig_pos as int) && d.dir_start
                == spec_dir_start(buf@) && d.base == spec_base(buf@) && entries_view(d.entries@)
                == spec_entries(buf@) && all_tables_ok(buf@) && tables_parsed(buf@, meta, tables@),
            Err(e) => (e is SignatureNotFound && spec_signature_pos(buf@) is None) || (
            spec_signature_pos(buf@) is Some && !all_tables_ok(buf@) && (e matches SquadError::MalformedFile(m)
                && m@ == malformed_text(buf@))),
        },
{
    if !len_in_reach(buf) {
        return Err(too_large());
    }
    let dir = match parse_directory(buf) {
        Ok(d) => d,
        Err(e) => return Err(e),
    };
    proof {
        lemma_dir_entries_len(buf@, dir.dir_start as int, -1);
    }
    let ghost entries = entries_view(dir.entries@);
    let mut tables: Vec<TableInfo> = Vec::with_capacity(dir.entries.len());
    let mut i: usize = 0;
    while i < dir.entries.len()
        invariant
            buf_len_ok(buf@.len() as int),
            spec_signature_pos(buf@) == Some(dir.sig_pos as int),
            dir.dir_start == spec_dir_start(buf@),
            dir.base == spec_base(buf@),
            dir.base <= buf@.len() + 24,
            entries == entries_view(dir.entries@),
            entries == spec_entries(buf@),
            i <= dir.entries@.len(),
            tables@.len() == i,
            forall|k: int|
                0 <= k < i ==> #[trigger] table_ok(
                    buf@,
                    spec_table_start(buf@, k),
                    spec_table_end(buf@, k),
                ),
            forall|k: int|
                0 <= k < i ==> #[trigger] table_parsed(
                    buf@,
                    spec_table_start(buf@, k),
                    spec_table_end(buf@, k),
                    spec_entries(buf@)[k].0,
                    meta,
                    tables@[k],
                ),
        decreases dir.entries@.len() - i,
    {
        let start = dir.base + dir.entries[i].1 as usize;
        let end = if i + 1 < dir.entries.len() {
            dir.base + dir.entries[i + 1].1 as usize
        } else {
            buf.len()
        };
        assert(entries[i as int] == (dir.entries@[i as int].0@, dir.entries@[i as int].1));
        let t = match parse_table(buf, start, end, dir.entries[i].0.as_str(), meta) {
            Ok(t) => t,
            Err(e) => {
                proof {
                    assert(!table_ok(buf@, spec_table_start(buf@, i as int), spec_table_end(buf@, i as int)));
                    lemma_first_bad_table(buf@, 0, i as int);
                }
                return Err(e);
            },
        };
        let ghost before = tables@;
        tables.push(t);
        proof {
            assert forall|k: int|
                0 <= k < i + 1 implies #[trigger] table_parsed(
                buf@,
                spec_table_start(buf@, k),
                spec_table_end(buf@, k),
                spec_entries(buf@)[k].0,
                meta,
                tables@[k],
            ) by {
                if k < i {
                    assert(tables@[k] == before[k]);
                }
            }
        }
        i = i + 1;
    }
    Ok((dir, tables))
}

} // verus!
