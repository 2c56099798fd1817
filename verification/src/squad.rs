//! A loaded squad file: its bytes and the layout of its tables.
use vstd::prelude::*;

use crate::error::{Result, SquadError};
use crate::meta::MetaMap;
use crate::model::{FieldDescriptor, TableInfo};
use crate::parse::{
    all_tables_ok, buf_len_ok, desc_matches, dir_entries, field_desc_pos, field_fits, insert_pos,
    lemma_dir_entries_len, lemma_insert_pos_bound, meta_table, needed_bytes, parse_all_tables,
    first_sig_at, sig_at, sort_by_offset, spec_base, spec_dir_start, spec_entries, spec_signature_pos,
    spec_table_end, spec_table_start, table_ok, table_parsed, tables_parsed, th_n_fields,
};
use crate::text::str_eq;

verus! {

/// A squad save held in memory, with the directory and table layouts read from it.
pub struct SquadFile {
    pub buf: Vec<u8>,
    pub sig_pos: usize,
    pub dir_start: usize,
    pub base: usize,
    pub tables: Vec<TableInfo>,
}

/// The layout facts of a table that reading and writing records rely on.
pub open spec fn table_wf(t: TableInfo, len: int) -> bool {
    &&& t.field_desc_start == t.start + 40
    &&& t.start + 40 <= len
    &&& t.start + 64 <= usize::MAX
    &&& t.end + 8 <= usize::MAX
    &&& t.data_start == t.field_desc_start + 16 * t.fields@.len()
    &&& t.data_end == t.data_start + t.rec_bytes * t.n_records_slot
    &&& t.data_end <= len
    &&& t.data_end <= t.end
    &&& t.n_written_records <= t.n_records_slot <= 65535
    &&& forall|i: int|
        0 <= i < t.fields@.len() ==> needed_bytes(
            #[trigger] t.fields@[i].field_type,
            t.fields@[i].bit_offset,
            t.fields@[i].depth,
        ) <= t.rec_bytes
    &&& t.record_crc_pos matches Some(p) ==> t.field_desc_start <= p && p + 4 <= len && t.data_end <= p
}

/// The index of the last table before `upto` whose short name is `sn`.
pub open spec fn last_table_index(tables: Seq<TableInfo>, sn: Seq<char>, upto: int) -> Option<int>
    decreases upto,
{
    if upto <= 0 {
        None
    } else if tables[upto - 1].shortname@ == sn {
        Some(upto - 1)
    } else {
        last_table_index(tables, sn, upto - 1)
    }
}

/// The index of the first table from `from` on whose schema name is `name`.
pub open spec fn first_named_table(tables: Seq<TableInfo>, name: Seq<char>, from: int) -> Option<int>
    decreases tables.len() - from,
{
    if from < 0 || from >= tables.len() {
        None
    } else if tables[from].name matches Some(n) && n@ == name {
        Some(from)
    } else {
        first_named_table(tables, name, from + 1)
    }
}

/// The short name of a table in the list finds a table.
pub proof fn lemma_table_found(tables: Seq<TableInfo>, sn: Seq<char>, i: int)
    requires
        0 <= i < tables.len(),
        tables[i].shortname@ == sn,
    ensures
        last_table_index(tables, sn, tables.len() as int) matches Some(j) && i <= j < tables.len()
            && tables[j].shortname@ == sn,
{
    lemma_last_found(tables, sn, i, tables.len() as int);
}

proof fn lemma_last_found(tables: Seq<TableInfo>, sn: Seq<char>, i: int, upto: int)
    requires
        0 <= i < upto <= tables.len(),
        tables[i].shortname@ == sn,
    ensures
        last_table_index(tables, sn, upto) matches Some(j) && i <= j < upto && tables[j].shortname@ == sn,
    decreases upto,
{
    if tables[upto - 1].shortname@ != sn {
        lemma_last_found(tables, sn, i, upto - 1);
    }
}

/// A table found by name lies in the list.
pub proof fn lemma_first_named_bounds(tables: Seq<TableInfo>, name: Seq<char>, from: int)
    requires
        0 <= from,
    ensures
        first_named_table(tables, name, from) matches Some(i) ==> from <= i < tables.len(),
    decreases tables.len() - from,
{
    if from < tables.len() {
        lemma_first_named_bounds(tables, name, from + 1);
    }
}

/// A table found by short name lies in the list and has that short name.
pub proof fn lemma_last_table_bounds(tables: Seq<TableInfo>, sn: Seq<char>, upto: int)
    requires
        upto <= tables.len(),
    ensures
        last_table_index(tables, sn, upto) matches Some(i) ==> 0 <= i < upto && tables[i].shortname@ == sn,
    decreases upto,
{
    if upto > 0 {
        lemma_last_table_bounds(tables, sn, upto - 1);
    }
}

proof fn lemma_sort_members(s: Seq<FieldDescriptor>)
    ensures
        sort_by_offset(s).len() == s.len(),
        forall|i: int|
            0 <= i < s.len() ==> exists|j: int| 0 <= j < s.len() && #[trigger] sort_by_offset(s)[i] == s[j],
    decreases s.len(),
{
    if s.len() > 0 {
        let t = sort_by_offset(s.drop_last());
        lemma_sort_members(s.drop_last());
        let k = insert_pos(t, s.last());
        lemma_insert_pos_bound(t, s.last());
        let u = t.insert(k, s.last());
        assert forall|i: int| 0 <= i < s.len() implies exists|j: int|
            0 <= j < s.len() && #[trigger] sort_by_offset(s)[i] == s[j] by {
            if i < k {
                let j = choose|j: int| 0 <= j < s.len() - 1 && #[trigger] t[i] == s.drop_last()[j];
                assert(sort_by_offset(s)[i] == s[j]);
            } else if i == k {
                assert(sort_by_offset(s)[i] == s[s.len() - 1]);
            } else {
                let j = choose|j: int| 0 <= j < s.len() - 1 && #[trigger] t[i - 1] == s.drop_last()[j];
                assert(sort_by_offset(s)[i] == s[j]);
            }
        }
    }
}

proof fn lemma_parsed_wf(b: Seq<u8>, start: int, end: int, sn: Seq<char>, meta: Option<&MetaMap>, t: TableInfo)
    requires
        table_ok(b, start, end),
        table_parsed(b, start, end, sn, meta, t),
        start + 64 <= usize::MAX,
        end + 8 <= usize::MAX,
    ensures
        table_wf(t, b.len() as int),
{
    reveal(table_parsed);
    let nf = th_n_fields(b, start);
    let tm = meta_table(meta, sn);
    let raw = choose|raw: Seq<FieldDescriptor>|
        {
            &&& raw.len() == nf
            &&& forall|f: int|
                0 <= f < nf ==> #[trigger] desc_matches(raw[f], b, field_desc_pos(start, f), tm)
            &&& t.fields@ == sort_by_offset(raw)
        };
    lemma_sort_members(raw);
    assert forall|i: int| 0 <= i < t.fields@.len() implies needed_bytes(
        #[trigger] t.fields@[i].field_type,
        t.fields@[i].bit_offset,
        t.fields@[i].depth,
    ) <= t.rec_bytes by {
        let j = choose|j: int| 0 <= j < raw.len() && #[trigger] sort_by_offset(raw)[i] == raw[j];
        assert(desc_matches(raw[j], b, field_desc_pos(start, j), tm));
        assert(field_fits(b, start, j));
    }
}

impl SquadFile {
    /// The layout read at load time still describes the buffer.
    pub open spec fn wf(&self) -> bool {
        &&& buf_len_ok(self.buf@.len() as int)
        &&& self.sig_pos + 8 < self.buf@.len()
        &&& self.dir_start == self.sig_pos + 24
        &&& forall|i: int|
            0 <= i < self.tables@.len() ==> #[trigger] table_wf(self.tables@[i], self.buf@.len() as int)
        &&& self.tables@.len() > 0 ==> self.dir_start <= self.tables@[0].start
    }

    /// The table that `table(sn)` finds: the last one with that short name.
    pub open spec fn spec_table_index(&self, sn: Seq<char>) -> Option<int> {
        last_table_index(self.tables@, sn, self.tables@.len() as int)
    }

    /// Reads a squad file from its bytes: the directory, then every table it lists. Offsets in
    /// the file reach up to 4 GiB and 256 bytes past the end of the data, so a buffer too close
    /// to the top of the address space is refused before anything is read.
    pub fn load_from_bytes(buf: Vec<u8>, meta: Option<&MetaMap>) -> (r: Result<Self>)
        ensures
            !buf_len_ok(buf@.len() as int) ==> (r matches Err(SquadError::MalformedFile(m)) && m@
                == "file too large to read"@),
            buf_len_ok(buf@.len() as int) ==> match r {
                Ok(s) => s.wf() && s.buf@ == buf@ && spec_signature_pos(buf@) == Some(
                    s.sig_pos as int,
                ) && s.dir_start == spec_dir_start(buf@) && s.base == spec_base(buf@)
                    && all_tables_ok(buf@) && tables_parsed(buf@, meta, s.tables@),
                Err(e) => (e is SignatureNotFound && spec_signature_pos(buf@) is None) || (
                spec_signature_pos(buf@) is Some && !all_tables_ok(buf@) && (e matches SquadError::MalformedFile(m)
                    && m@ == crate::parse::malformed_text(buf@))),
            },
    {
        let (dir, tables) = match parse_all_tables(buf.as_slice(), meta) {
            Ok(x) => x,
            Err(e) => return Err(e),
        };
        let s = SquadFile {
            buf,
            sig_pos: dir.sig_pos,
            dir_start: dir.dir_start,
            base: dir.base,
            tables,
        };
        proof {
            lemma_loaded_wf(s.buf@, meta, s.tables@);
        }
        Ok(s)
    }

    /// The table with the given short name (the last one, if the directory repeats it).
    pub fn table(&self, shortname: &str) -> (r: Option<&TableInfo>)
        ensures
            match self.spec_table_index(shortname@) {
                Some(i) => r == Some(&self.tables@[i]),
                None => r is None,
            },
    {
        match self.table_position(shortname) {
            Some(i) => {
                assert(self.spec_table_index(shortname@) == Some(i as int));
                Some(&self.tables[i])
            },
            None => None,
        }
    }

    /// The position in `tables` of the table with the given short name.
    pub fn table_position(&self, shortname: &str) -> (r: Option<usize>)
        ensures
            match self.spec_table_index(shortname@) {
                Some(i) => r matches Some(k) && k as int == i && 0 <= i < self.tables@.len(),
                None => r is None,
            },
    {
        let mut i = self.tables.len();
        while i > 0
            invariant
                i <= self.tables@.len(),
                self.spec_table_index(shortname@) == last_table_index(self.tables@, shortname@, i as int),
            decreases i,
        {
            if str_eq(self.tables[i - 1].shortname.as_str(), shortname) {
                return Some(i - 1);
            }
            i = i - 1;
        }
        None
    }

    /// The first table whose schema name is `name`.
    pub fn table_by_name(&self, name: &str) -> (r: Option<&TableInfo>)
        ensures
            match first_named_table(self.tables@, name@, 0) {
                Some(i) => r == Some(&self.tables@[i]),
                None => r is None,
            },
    {
        let mut i: usize = 0;
        while i < self.tables.len()
            invariant
                i <= self.tables@.len(),
                first_named_table(self.tables@, name@, 0) == first_named_table(self.tables@, name@, i as int),
            decreases self.tables@.len() - i,
        {
            match &self.tables[i].name {
                Some(n) => {
                    if str_eq(n.as_str(), name) {
                        return Some(&self.tables[i]);
                    }
                },
                None => {},
            }
            i = i + 1;
        }
        None
    }

    /// The indices of the live records of a table: `0..n_written_records`, or none for an
    /// unknown table.
    pub fn written_record_indices(&self, table_shortname: &str) -> (r: Vec<usize>)
        ensures
            match self.spec_table_index(table_shortname@) {
                Some(i) => r@.len() == self.tables@[i].n_written_records && forall|k: int|
                    0 <= k < r@.len() ==> #[trigger] r@[k] == k,
                None => r@.len() == 0,
            },
    {
        let table = match self.table(table_shortname) {
            Some(t) => t,
            None => return Vec::new(),
        };
        let mut v: Vec<usize> = Vec::new();
        let mut k: usize = 0;
        while k < table.n_written_records
            invariant
                k <= table.n_written_records,
                v@.len() == k,
                forall|j: int| 0 <= j < k ==> #[trigger] v@[j] == j,
            decreases table.n_written_records - k,
        {
            v.push(k);
            k = k + 1;
        }
        v
    }
}

proof fn lemma_sig_bound(b: Seq<u8>)
    requires
        spec_signature_pos(b) is Some,
    ensures
        0 <= spec_signature_pos(b).unwrap() < b.len() - 8,
{
    let c = choose|p: int| #[trigger] first_sig_at(b, p);
    assert(first_sig_at(b, c));
}

proof fn lemma_one_table_wf(b: Seq<u8>, meta: Option<&MetaMap>, tables: Seq<TableInfo>, i: int)
    requires
        buf_len_ok(b.len() as int),
        spec_signature_pos(b) is Some,
        spec_signature_pos(b).unwrap() + 8 < b.len(),
        0 <= i < tables.len(),
        tables.len() == spec_entries(b).len(),
        table_ok(b, spec_table_start(b, i), spec_table_end(b, i)),
        table_parsed(b, spec_table_start(b, i), spec_table_end(b, i), spec_entries(b)[i].0, meta, tables[i]),
    ensures
        table_wf(tables[i], b.len() as int),
{
    lemma_dir_bounds(b, i);
    lemma_parsed_wf(b, spec_table_start(b, i), spec_table_end(b, i), spec_entries(b)[i].0, meta, tables[i]);
}

proof fn lemma_loaded_wf(b: Seq<u8>, meta: Option<&MetaMap>, tables: Seq<TableInfo>)
    requires
        buf_len_ok(b.len() as int),
        spec_signature_pos(b) is Some,
        all_tables_ok(b),
        tables_parsed(b, meta, tables),
    ensures
        spec_signature_pos(b).unwrap() + 8 < b.len(),
        forall|i: int| 0 <= i < tables.len() ==> #[trigger] table_wf(tables[i], b.len() as int),
        tables.len() > 0 ==> spec_dir_start(b) <= tables[0].start,
{
    lemma_sig_bound(b);
    lemma_dir_entries_len(b, spec_dir_start(b), -1);
    if tables.len() > 0 {
        reveal(table_parsed);
        assert(table_parsed(b, spec_table_start(b, 0), spec_table_end(b, 0), spec_entries(b)[0].0, meta, tables[0]));
    }
    assert forall|i: int| 0 <= i < tables.len() implies #[trigger] table_wf(tables[i], b.len() as int) by {
        lemma_one_table_wf(b, meta, tables, i);
    }
}

proof fn lemma_dir_bounds(b: Seq<u8>, i: int)
    requires
        buf_len_ok(b.len() as int),
        spec_signature_pos(b) is Some,
        0 <= i < spec_entries(b).len(),
        spec_signature_pos(b).unwrap() + 8 < b.len(),
    ensures
        spec_table_start(b, i) + 64 <= usize::MAX,
        spec_table_end(b, i) + 8 <= usize::MAX,
{
    lemma_dir_entries_len(b, spec_dir_start(b), -1);
}

} // verus!
