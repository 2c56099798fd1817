//! The container checksum, validation of every checksum before saving, and the save name.
use vstd::prelude::*;
use vstd::utf8::encode_utf8;

use crate::codec::{nul_padded, until_nul};
use crate::crc::{compute_crc32, compute_crc_db11, spec_crc32, spec_crc_db11};
use crate::edit::{le4, splice, write_u32le};
use crate::editor::joined;
use crate::error::{Result, SquadError};
use crate::model::TableInfo;
use crate::parse::{read_u32le, u32le};
use crate::squad::{table_wf, SquadFile};
use crate::text::{lossy_string, nat_decimal, utf8_text, push_str, push_u64, to_owned_string, usize_to_string};

verus! {

/// Where the save name starts.
pub const SAVE_NAME_OFFSET: usize = 18;

/// The container checksum field and the start of the payload it covers: 36 and 4 bytes
/// before the database signature, when both lie inside the file.
pub open spec fn spec_file_crc_layout(buf: Seq<u8>, sig_pos: int) -> Option<(int, int)> {
    if sig_pos < 36 || sig_pos - 36 + 4 > buf.len() || sig_pos - 4 >= buf.len() {
        None
    } else {
        Some((sig_pos - 36, sig_pos - 4))
    }
}

/// The checksum that `b` holds for the bytes `from..to` starts at `to`.
pub open spec fn region_crc_valid(b: Seq<u8>, from: int, to: int) -> bool {
    u32le(b, to) == spec_crc_db11(b.subrange(from, to)) as u32
}

/// The label of a table in the list of broken checksums: its schema name, else its short name.
pub open spec fn table_label(t: TableInfo) -> Seq<char> {
    match t.name {
        Some(n) => n@,
        None => t.shortname@,
    }
}

/// The labels of the tables before `k` whose checksum does not match.
pub open spec fn broken_tables(b: Seq<u8>, tables: Seq<TableInfo>, k: int) -> Seq<Seq<char>>
    decreases k,
{
    if k <= 0 {
        Seq::empty()
    } else {
        let prev = broken_tables(b, tables, k - 1);
        let t = tables[k - 1];
        if t.end + 4 <= b.len() && !region_crc_valid(b, t.field_desc_start as int, t.end as int) {
            prev.push(table_label(t))
        } else {
            prev
        }
    }
}

pub open spec fn label_directory() -> Seq<char> {
    seq!['d', 'i', 'r', 'e', 'c', 't', 'o', 'r', 'y']
}

pub open spec fn label_container() -> Seq<char> {
    seq!['c', 'o', 'n', 't', 'a', 'i', 'n', 'e', 'r', ' ', 'c', 'h', 'e', 'c', 'k', 's', 'u', 'm']
}

/// The stored container checksum, when the layout is found.
pub open spec fn spec_stored_file_crc(buf: Seq<u8>, sig_pos: int) -> Option<u32> {
    match spec_file_crc_layout(buf, sig_pos) {
        Some((f, _)) => Some(u32le(buf, f)),
        None => None,
    }
}

/// The container checksum of the payload, when the layout is found.
pub open spec fn spec_computed_file_crc(buf: Seq<u8>, sig_pos: int) -> Option<u32> {
    match spec_file_crc_layout(buf, sig_pos) {
        Some((_, p)) => Some(spec_crc32(buf.skip(p))),
        None => None,
    }
}

/// Why a save is refused: how many checksums do not match, and where.
pub open spec fn save_refusal(broken: Seq<Seq<char>>) -> Seq<char> {
    "invalid checksums in "@ + nat_decimal(broken.len()) + " tables ("@ + joined(broken)
        + "): save aborted rather than write a file the game would reject"@
}

/// What `validate_crc_chain` reports: the directory checksum, every table checksum that has
/// a slot inside the file, then the container checksum.
pub open spec fn spec_broken(s: SquadFile) -> Seq<Seq<char>> {
    let b = s.buf@;
    let tables = s.tables@;
    if tables.len() == 0 {
        Seq::empty()
    } else {
        let first = tables[0];
        let dir = if first.start + 4 <= b.len() && !region_crc_valid(b, s.dir_start as int, first.start as int) {
            seq![label_directory()]
        } else {
            Seq::empty()
        };
        let container = if spec_stored_file_crc(b, s.sig_pos as int) != spec_computed_file_crc(b, s.sig_pos as int) {
            seq![label_container()]
        } else {
            Seq::empty()
        };
        dir + broken_tables(b, tables, tables.len() as int) + container
    }
}

/// The save name slot: its length is the run of non-NUL bytes at the name offset plus the run
/// of NUL bytes after it; there is none when the offset lies outside the file or no NUL follows.
pub open spec fn run_end(b: Seq<u8>, i: int, zero: bool) -> int
    decreases b.len() - i,
{
    if 0 <= i < b.len() && ((b[i] == 0) == zero) {
        run_end(b, i + 1, zero)
    } else {
        i
    }
}

pub open spec fn spec_save_name_slot(b: Seq<u8>) -> Option<(int, int)> {
    let o = SAVE_NAME_OFFSET as int;
    if o >= b.len() {
        None
    } else {
        let used_end = run_end(b, o, false);
        let pad_end = run_end(b, used_end, true);
        if pad_end == used_end {
            None
        } else {
            Some((o, pad_end - o))
        }
    }
}

proof fn lemma_run_end_bounds(b: Seq<u8>, i: int, zero: bool)
    requires
        0 <= i <= b.len(),
    ensures
        i <= run_end(b, i, zero) <= b.len(),
        forall|k: int| i <= k < run_end(b, i, zero) ==> ((#[trigger] b[k] == 0) == zero),
        run_end(b, i, zero) < b.len() ==> ((b[run_end(b, i, zero)] == 0) != zero),
    decreases b.len() - i,
{
    if i < b.len() && ((b[i] == 0) == zero) {
        lemma_run_end_bounds(b, i + 1, zero);
    }
}

fn run_end_exec(b: &[u8], i: usize, zero: bool) -> (r: usize)
    requires
        i <= b@.len(),
    ensures
        r == run_end(b@, i as int, zero),
{
    let mut k = i;
    while k < b.len() && ((b[k] == 0) == zero)
        invariant
            i <= k <= b@.len(),
            run_end(b@, i as int, zero) == run_end(b@, k as int, zero),
        decreases b@.len() - k,
    {
        k = k + 1;
    }
    k
}

impl SquadFile {
    fn file_crc_layout(&self) -> (r: Option<(usize, usize)>)
        requires
            self.wf(),
        ensures
            match spec_file_crc_layout(self.buf@, self.sig_pos as int) {
                Some((f, p)) => r == Some((f as usize, p as usize)),
                None => r is None,
            },
    {
        let field = match self.sig_pos.checked_sub(36) {
            Some(f) => f,
            None => return None,
        };
        let payload = self.sig_pos - 4;
        if field + 4 > self.buf.len() || payload >= self.buf.len() {
            return None;
        }
        Some((field, payload))
    }

    /// The container checksum stored at offset `sig_pos - 36`.
    pub fn stored_file_crc(&self) -> (r: Option<u32>)
        requires
            self.wf(),
        ensures
            r == spec_stored_file_crc(self.buf@, self.sig_pos as int),
    {
        let (field, _) = match self.file_crc_layout() {
            Some(x) => x,
            None => return None,
        };
        Some(read_u32le(self.buf.as_slice(), field))
    }

    /// The CRC-32 of everything from `sig_pos - 4` to the end of the file.
    pub fn computed_file_crc(&self) -> (r: Option<u32>)
        requires
            self.wf(),
        ensures
            r == spec_computed_file_crc(self.buf@, self.sig_pos as int),
    {
        let (_, payload) = match self.file_crc_layout() {
            Some(x) => x,
            None => return None,
        };
        let n = self.buf.len();
        Some(compute_crc32(&self.buf.as_slice()[payload..n]))
    }

    /// Writes the container checksum for the current payload.
    pub fn recompute_file_crc(&mut self)
        requires
            old(self).wf(),
        ensures
            final(self).wf(),
            final(self).tables == old(self).tables,
            final(self).sig_pos == old(self).sig_pos,
            final(self).dir_start == old(self).dir_start,
            final(self).base == old(self).base,
            final(self).buf@ == match spec_file_crc_layout(old(self).buf@, old(self).sig_pos as int) {
                Some((f, p)) => splice(old(self).buf@, f, le4(spec_crc32(old(self).buf@.skip(p)))),
                None => old(self).buf@,
            },
    {
        let (field, payload) = match self.file_crc_layout() {
            Some(x) => x,
            None => return,
        };
        let n = self.buf.len();
        let value = compute_crc32(&self.buf.as_slice()[payload..n]);
        proof {
            assert(self.buf@.subrange(payload as int, n as int) =~= self.buf@.skip(payload as int));
        }
        write_u32le(&mut self.buf, field, value);
    }

    /// The labels of every checksum that does not match: "directory", the tables' names, and
    /// "container checksum".
    pub fn validate_crc_chain(&self) -> (r: Vec<String>)
        requires
            self.wf(),
        ensures
            r@.map_values(|s: String| s@) == spec_broken(*self),
    {
        let mut broken: Vec<String> = Vec::new();
        if self.tables.len() == 0 {
            proof {
                assert(broken@.map_values(|s: String| s@) =~= spec_broken(*self));
            }
            return broken;
        }
        let buf = self.buf.as_slice();
        let ghost b = buf@;
        assert(table_wf(self.tables@[0], b.len() as int));
        let first_start = self.tables[0].start;
        if first_start + 4 <= buf.len() {
            let c = compute_crc_db11(&buf[self.dir_start..first_start]);
            if c as u32 != read_u32le(buf, first_start) {
                broken.push(to_owned_string("directory"));
                proof {
                    reveal_strlit("directory");
                    assert("directory"@ =~= label_directory());
                    assert(broken@.map_values(|s: String| s@) =~= seq![label_directory()]);
                }
            }
        }
        let ghost dir_part = broken@.map_values(|s: String| s@);
        assert(dir_part =~= if first_start + 4 <= b.len() && !region_crc_valid(b, self.dir_start as int, first_start as int) {
            seq![label_directory()]
        } else {
            Seq::empty()
        });
        let mut i: usize = 0;
        while i < self.tables.len()
            invariant
                self.wf(),
                b == self.buf@,
                buf@ == b,
                i <= self.tables@.len(),
                broken@.map_values(|s: String| s@) == dir_part + broken_tables(b, self.tables@, i as int),
            decreases self.tables@.len() - i,
        {
            let t = &self.tables[i];
            assert(table_wf(*t, b.len() as int));
            if t.end + 4 <= buf.len() {
                let c = compute_crc_db11(&buf[t.field_desc_start..t.end]);
                if c as u32 != read_u32le(buf, t.end) {
                    let label = match &t.name {
                        Some(n) => n.clone(),
                        None => t.shortname.clone(),
                    };
                    let ghost before = broken@;
                    broken.push(label);
                    proof {
                        assert(broken@.map_values(|s: String| s@) =~= before.map_values(|s: String| s@).push(table_label(*t)));
                    }
                }
            }
            i = i + 1;
        }
        if self.stored_file_crc() != self.computed_file_crc() {
            let ghost before = broken@;
            broken.push(to_owned_string("container checksum"));
            proof {
                reveal_strlit("container checksum");
                assert("container checksum"@ =~= label_container());
                assert(broken@.map_values(|s: String| s@) =~= before.map_values(|s: String| s@).push(label_container()));
            }
        }
        proof {
            assert(broken@.map_values(|s: String| s@) =~= spec_broken(*self));
        }
        broken
    }

    /// Refreshes the container checksum, then checks every checksum. Saving is refused when
    /// one does not match, so that no file the game would reject gets written.
    pub fn prepare_for_save(&mut self) -> (r: Result<()>)
        requires
            old(self).wf(),
        ensures
            final(self).wf(),
            final(self).tables == old(self).tables,
            final(self).sig_pos == old(self).sig_pos,
            final(self).buf@ == match spec_file_crc_layout(old(self).buf@, old(self).sig_pos as int) {
                Some((f, p)) => splice(old(self).buf@, f, le4(spec_crc32(old(self).buf@.skip(p)))),
                None => old(self).buf@,
            },
            match r {
                Ok(()) => spec_broken(*final(self)).len() == 0,
                Err(e) => spec_broken(*final(self)).len() > 0 && (e matches SquadError::MalformedFile(m)
                    && m@ == save_refusal(spec_broken(*final(self)))),
            },
    {
        self.recompute_file_crc();
        let broken = self.validate_crc_chain();
        if broken.len() > 0 {
            let mut msg = to_owned_string("invalid checksums in ");
            push_u64(&mut msg, broken.len() as u64);
            push_str(&mut msg, " tables (");
            let ghost names = broken@.map_values(|s: String| s@);
            let ghost head = msg@;
            let mut i: usize = 0;
            while i < broken.len()
                invariant
                    i <= broken@.len(),
                    names == broken@.map_values(|s: String| s@),
                    msg@ == head + joined(names.take(i as int)),
                decreases broken@.len() - i,
            {
                if i > 0 {
                    push_str(&mut msg, ", ");
                }
                push_str(&mut msg, broken[i].as_str());
                proof {
                    assert(names.take(i + 1).drop_last() =~= names.take(i as int));
                    assert(names.take(i + 1).last() == broken@[i as int]@);
                    if i == 0 {
                        assert(names.take(1) =~= seq![names[0]]);
                    }
                }
                assert(msg@ =~= head + joined(names.take(i + 1)));
                i = i + 1;
            }
            assert(names.take(i as int) =~= names);
            push_str(&mut msg, "): save aborted rather than write a file the game would reject");
            assert(msg@ =~= save_refusal(spec_broken(*self)));
            return Err(SquadError::MalformedFile(msg));
        }
        proof {
            assert(broken@.map_values(|s: String| s@).len() == broken@.len());
        }
        Ok(())
    }

    /// Where the save name starts and how many bytes its slot holds.
    fn save_name_slot(&self) -> (r: Option<(usize, usize)>)
        ensures
            match spec_save_name_slot(self.buf@) {
                Some((o, c)) => r matches Some((a, n)) && a as int == o && n as int == c && 0 < c
                    && o + c <= self.buf@.len(),
                None => r is None,
            },
    {
        proof {
            lemma_slot_bounds(self.buf@);
        }
        let buf = self.buf.as_slice();
        if SAVE_NAME_OFFSET >= buf.len() {
            return None;
        }
        proof {
            lemma_run_end_bounds(buf@, SAVE_NAME_OFFSET as int, false);
        }
        let used_end = run_end_exec(buf, SAVE_NAME_OFFSET, false);
        proof {
            lemma_run_end_bounds(buf@, used_end as int, true);
        }
        let pad_end = run_end_exec(buf, used_end, true);
        if pad_end == used_end {
            return None;
        }
        Some((SAVE_NAME_OFFSET, pad_end - SAVE_NAME_OFFSET))
    }

    /// The name shown in the game's load menu: the text before the first NUL of the slot.
    pub fn save_name(&self) -> (r: Option<String>)
        ensures
            match spec_save_name_slot(self.buf@) {
                Some((o, c)) => r matches Some(s) && s@ == utf8_text(until_nul(self.buf@.subrange(o, o + c))),
                None => r is None,
            },
    {
        let (offset, capacity) = match self.save_name_slot() {
            Some(x) => x,
            None => return None,
        };
        proof {
            lemma_slot_bounds(self.buf@);
        }
        let buf = self.buf.as_slice();
        let _n = buf.len();
        Some(crate::codec::read_null_padded_string(&buf[offset..offset + capacity]))
    }

    /// The longest name that fits: the slot less one byte for the terminating NUL.
    pub fn save_name_max_len(&self) -> (r: usize)
        ensures
            r == match spec_save_name_slot(self.buf@) {
                Some((o, c)) => c - 1,
                None => 0,
            },
    {
        match self.save_name_slot() {
            Some((_, capacity)) => capacity - 1,
            None => 0,
        }
    }

    /// Writes a new save name into the slot, NUL-padded to the slot's length. A name longer
    /// than the slot less one byte is refused.
    pub fn set_save_name(&mut self, name: &str) -> (r: Result<()>)
        requires
            old(self).wf(),
        ensures
            final(self).wf(),
            final(self).tables == old(self).tables,
            final(self).sig_pos == old(self).sig_pos,
            final(self).dir_start == old(self).dir_start,
            final(self).base == old(self).base,
            match spec_save_name_slot(old(self).buf@) {
                None => r matches Err(SquadError::MalformedFile(m)) && m@ == "save name slot not found"@
                    && final(self).buf@ == old(self).buf@,
                Some((o, c)) => if encode_utf8(name@).len() > c - 1 {
                    r matches Err(SquadError::MalformedFile(m)) && m@ == "save name is "@ + nat_decimal(
                        encode_utf8(name@).len(),
                    ) + " bytes but only "@ + nat_decimal((c - 1) as nat) + " fit in the file"@
                        && final(self).buf@ == old(self).buf@
                } else {
                    r is Ok && final(self).buf@ == splice(old(self).buf@, o, nul_padded(encode_utf8(name@), c))
                },
            },
    {
        let (offset, capacity) = match self.save_name_slot() {
            Some(x) => x,
            None => return Err(SquadError::MalformedFile(to_owned_string("save name slot not found"))),
        };
        proof {
            lemma_slot_bounds(self.buf@);
        }
        let bytes = name.as_bytes();
        if bytes.len() > capacity - 1 {
            let mut msg = to_owned_string("save name is ");
            push_u64(&mut msg, bytes.len() as u64);
            push_str(&mut msg, " bytes but only ");
            push_u64(&mut msg, (capacity - 1) as u64);
            push_str(&mut msg, " fit in the file");
            return Err(SquadError::MalformedFile(msg));
        }
        crate::edit::write_padded_at(&mut self.buf, offset, capacity, bytes);
        Ok(())
    }
}

proof fn lemma_slot_bounds(b: Seq<u8>)
    ensures
        spec_save_name_slot(b) matches Some((o, c)) ==> o == 18 && 0 < c && o + c <= b.len(),
{
    let o = SAVE_NAME_OFFSET as int;
    if o < b.len() {
        lemma_run_end_bounds(b, o, false);
        lemma_run_end_bounds(b, run_end(b, o, false), true);
    }
}

} // verus!
