//! The editing history of a session: the undo and redo stacks, the change log, the recently
//! viewed players and the favourites.
use std::collections::VecDeque;

use vstd::prelude::*;

use crate::edit::{can_write_in, crc_refreshed, spec_write, table_index_in, write_error};
use crate::editor::{read_value, value_as, value_in};
use crate::fields::can_read_in;
use crate::guards::{cell_can_be_read, field_can_be_written};
use crate::error::SquadError;
use crate::listing::{display_text, format_value, lemma_display_as};
use crate::model::{FieldType, FieldValue, TableInfo};
use crate::tsv::{cell_value, formats, int_text_value, parse_cell_value, parses, same_layout, str_text, str_value, table_importable};
use crate::fifa_history::{card_updates, int_updates, text_map, HistoricalDatabase, first_card_of_version, CardView};
use crate::editor::{field_updates_view, first_record_with, readable};
use crate::squad::SquadFile;
use crate::text::{push_str, push_u64, to_owned_string};

verus! {

/// The most entries the undo stack keeps; the oldest goes first.
pub const MAX_UNDO: usize = 200;

/// The most players the recently viewed list keeps.
pub const MAX_RECENT: usize = 8;

/// The most lines the change log keeps.
pub const MAX_LOG: usize = 50;

/// The value a field had before a change, so that the change can be undone.
#[derive(Debug)]
pub struct FieldChange {
    pub table: String,
    pub record_index: usize,
    pub field_name: String,
    pub old_value: FieldValue,
}

/// A change taken by its table, record, field and value.
pub type ChangeView = (Seq<char>, int, Seq<char>, FieldValue);

/// The view of a change.
pub open spec fn change_view(c: FieldChange) -> ChangeView {
    (c.table@, c.record_index as int, c.field_name@, c.old_value)
}

/// The views of the changes of an entry.
pub open spec fn entry_view(e: Seq<FieldChange>) -> Seq<ChangeView> {
    e.map_values(|c: FieldChange| change_view(c))
}

/// The undo and redo stacks, the change log (newest line first), the recently viewed players
/// (most recent first) and the favourite players of an editing session.
pub struct History {
    pub undo_stack: Vec<Vec<FieldChange>>,
    pub redo_stack: Vec<Vec<FieldChange>>,
    pub change_log: Vec<String>,
    pub recent_players: VecDeque<i64>,
    pub favorites: Vec<i64>,
}

/// The undo stack after `entry` is pushed: the oldest entry is dropped beyond [`MAX_UNDO`].
pub open spec fn undo_after_push<T>(stack: Seq<T>, entry: T) -> Seq<T> {
    let s = stack.push(entry);
    if s.len() > MAX_UNDO {
        s.drop_first()
    } else {
        s
    }
}

/// At most the first `n` of a list.
pub open spec fn at_most<T>(s: Seq<T>, n: int) -> Seq<T> {
    if s.len() <= n {
        s
    } else {
        s.take(n)
    }
}

/// The change log after `line` is added in front, keeping the newest [`MAX_LOG`] lines.
pub open spec fn log_after(log: Seq<Seq<char>>, line: Seq<char>) -> Seq<Seq<char>> {
    at_most(seq![line] + log, MAX_LOG as int)
}

/// The list without any occurrence of `id`.
pub open spec fn without(s: Seq<i64>, id: i64) -> Seq<i64>
    decreases s.len(),
{
    if s.len() == 0 {
        s
    } else if s.last() == id {
        without(s.drop_last(), id)
    } else {
        without(s.drop_last(), id).push(s.last())
    }
}

/// The recently viewed players after `id` is viewed: it moves to the front, once, and the list
/// keeps [`MAX_RECENT`] players.
pub open spec fn recent_after(recent: Seq<i64>, id: i64) -> Seq<i64> {
    at_most(seq![id] + without(recent, id), MAX_RECENT as int)
}

/// The first position from `from` on where `id` occurs.
pub open spec fn position_of(s: Seq<i64>, id: i64, from: int) -> Option<int>
    decreases s.len() - from,
{
    if from < 0 || from >= s.len() {
        None
    } else if s[from] == id {
        Some(from)
    } else {
        position_of(s, id, from + 1)
    }
}

/// The favourites after `id` is toggled: removed where it is, else added at the end.
pub open spec fn favorites_after(favorites: Seq<i64>, id: i64) -> Seq<i64> {
    match position_of(favorites, id, 0) {
        Some(p) => favorites.remove(p),
        None => favorites.push(id),
    }
}

/// The text of each line of a list.
pub open spec fn lines_view(v: Seq<String>) -> Seq<Seq<char>> {
    v.map_values(|s: String| s@)
}

impl History {
    /// An empty history.
    pub fn new() -> (h: Self)
        ensures
            h.undo_stack@.len() == 0,
            h.redo_stack@.len() == 0,
            h.change_log@.len() == 0,
            h.recent_players@.len() == 0,
            h.favorites@.len() == 0,
    {
        History {
            undo_stack: Vec::new(),
            redo_stack: Vec::new(),
            change_log: Vec::new(),
            recent_players: VecDeque::new(),
            favorites: Vec::new(),
        }
    }

    /// Records a change that can be undone: an empty entry is ignored; otherwise it goes on the
    /// undo stack, which keeps [`MAX_UNDO`] entries, and the redo stack is cleared.
    pub fn push_undo(&mut self, entry: Vec<FieldChange>)
        ensures
            entry@.len() == 0 ==> *final(self) == *old(self),
            entry@.len() > 0 ==> {
                &&& final(self).undo_stack@ == undo_after_push(old(self).undo_stack@, entry)
                &&& final(self).redo_stack@.len() == 0
                &&& final(self).change_log == old(self).change_log
                &&& final(self).recent_players == old(self).recent_players
                &&& final(self).favorites == old(self).favorites
            },
    {
        if entry.len() == 0 {
            return;
        }
        self.undo_stack.push(entry);
        if self.undo_stack.len() > MAX_UNDO {
            self.undo_stack.remove(0);
        }
        self.redo_stack.clear();
    }

    /// Adds a line at the top of the change log, which keeps [`MAX_LOG`] lines.
    pub fn push_log(&mut self, line: String)
        ensures
            lines_view(final(self).change_log@) == log_after(lines_view(old(self).change_log@), line@),
            final(self).undo_stack == old(self).undo_stack,
            final(self).redo_stack == old(self).redo_stack,
            final(self).recent_players == old(self).recent_players,
            final(self).favorites == old(self).favorites,
    {
        let ghost before = self.change_log@;
        self.change_log.insert(0, line);
        self.change_log.truncate(MAX_LOG);
        proof {
            let full = seq![line@] + lines_view(before);
            assert(lines_view(before.insert(0, line)) =~= full);
            if full.len() <= MAX_LOG {
                assert(lines_view(self.change_log@) =~= full);
            } else {
                assert(lines_view(self.change_log@) =~= full.take(MAX_LOG as int));
            }
        }
    }

    /// Puts a player at the front of the recently viewed list, once, keeping [`MAX_RECENT`].
    pub fn push_recent(&mut self, player_id: i64)
        ensures
            final(self).recent_players@ == recent_after(old(self).recent_players@, player_id),
            final(self).undo_stack == old(self).undo_stack,
            final(self).redo_stack == old(self).redo_stack,
            final(self).change_log == old(self).change_log,
            final(self).favorites == old(self).favorites,
    {
        let ghost before = self.recent_players@;
        let mut kept: VecDeque<i64> = VecDeque::new();
        kept.push_back(player_id);
        let mut i: usize = 0;
        while i < self.recent_players.len()
            invariant
                *self == *old(self),
                self.recent_players@ == before,
                i <= before.len(),
                kept@ == seq![player_id] + without(before.take(i as int), player_id),
            decreases before.len() - i,
        {
            let x = self.recent_players[i];
            proof {
                assert(before.take(i + 1).drop_last() =~= before.take(i as int));
                assert(before.take(i + 1).last() == x);
            }
            if x != player_id {
                kept.push_back(x);
                assert(kept@ =~= seq![player_id] + without(before.take(i + 1), player_id));
            }
            i = i + 1;
        }
        assert(before.take(i as int) =~= before);
        let ghost full = kept@;
        kept.truncate(MAX_RECENT);
        proof {
            if full.len() <= MAX_RECENT {
                assert(kept@ =~= full);
            } else {
                assert(kept@ =~= full.take(MAX_RECENT as int));
            }
        }
        self.recent_players = kept;
    }

    /// Adds a player to the favourites, or removes it where it already is.
    pub fn toggle_favorite(&mut self, player_id: i64)
        ensures
            final(self).favorites@ == favorites_after(old(self).favorites@, player_id),
            final(self).undo_stack == old(self).undo_stack,
            final(self).redo_stack == old(self).redo_stack,
            final(self).change_log == old(self).change_log,
            final(self).recent_players == old(self).recent_players,
    {
        let mut i: usize = 0;
        while i < self.favorites.len()
            invariant
                *self == *old(self),
                i <= self.favorites@.len(),
                position_of(self.favorites@, player_id, 0) == position_of(self.favorites@, player_id, i as int),
            decreases self.favorites@.len() - i,
        {
            if self.favorites[i] == player_id {
                self.favorites.remove(i);
                return;
            }
            i = i + 1;
        }
        self.favorites.push(player_id);
    }
}

// ---------------------------------------------------------------------------------------
// Taking and restoring values
// ---------------------------------------------------------------------------------------

/// The value of field `name` of record `idx` of table `ts`, taken before a change; none when
/// it cannot be read.
pub fn snapshot(squad: &SquadFile, table: &str, record_index: usize, field_name: &str) -> (r: Option<FieldChange>)
    requires
        squad.wf(),
        squad.can_read(table@, record_index as int, field_name@),
    ensures
        match value_in(squad.tables@, squad.buf@, table@, record_index as int, field_name@) {
            Some(sv) => r matches Some(c) && c.table@ == table@ && c.record_index == record_index
                && c.field_name@ == field_name@ && value_as(c.old_value, sv),
            None => r is None,
        },
{
    proof {
        assert forall|ts: Seq<char>, idx: int, name: Seq<char>| #[trigger] squad.can_read(ts, idx, name) || !(ts == table@ && idx == record_index && name == field_name@) by {}
    }
    match squad.get_field(table, record_index, field_name) {
        Ok(v) => Some(FieldChange {
            table: to_owned_string(table),
            record_index,
            field_name: to_owned_string(field_name),
            old_value: v,
        }),
        Err(_) => None,
    }
}

/// The values that the fields of the first `k` writes of `ups` to table `ts` have in `buf`,
/// where they can be read, taken before the writes.
pub open spec fn pre_snapshots(tables: Seq<TableInfo>, buf: Seq<u8>, ts: Seq<char>, ups: Seq<(int, Seq<char>, FieldValue)>, k: int) -> Seq<ChangeView>
    decreases k,
{
    if k <= 0 {
        Seq::empty()
    } else {
        let p = pre_snapshots(tables, buf, ts, ups, k - 1);
        let u = ups[k - 1];
        match value_in(tables, buf, ts, u.0, u.1) {
            Some(sv) => p.push((ts, u.0, u.1, sv)),
            None => p,
        }
    }
}

/// A restored change is the one taken: same table, record and field, and a value that stands
/// for the one read.
pub open spec fn views_as(e: Seq<FieldChange>, s: Seq<ChangeView>) -> bool {
    &&& e.len() == s.len()
    &&& forall|i: int| 0 <= i < e.len() ==> {
        &&& (#[trigger] e[i]).table@ == s[i].0
        &&& e[i].record_index as int == s[i].1
        &&& e[i].field_name@ == s[i].2
        &&& value_as(e[i].old_value, s[i].3)
    }
}

/// Restoring the first `k` changes of `es`, in order, to bytes `buf` laid out as `tables`
/// describes: the bytes after, and the value each field had just before its own change (a
/// field that cannot be read is left out). A change to a field that cannot be written is
/// skipped; an accepted one refreshes its table's checksum.
pub open spec fn restore_fold(tables: Seq<TableInfo>, buf: Seq<u8>, es: Seq<ChangeView>, k: int) -> (Seq<u8>, Seq<ChangeView>)
    decreases k,
{
    if k <= 0 {
        (buf, Seq::empty())
    } else {
        let (b, snaps) = restore_fold(tables, buf, es, k - 1);
        let c = es[k - 1];
        let snaps2 = if can_read_in(tables, b, c.0, c.1, c.2) {
            match value_in(tables, b, c.0, c.1, c.2) {
                Some(v) => snaps.push((c.0, c.1, c.2, v)),
                None => snaps,
            }
        } else {
            snaps
        };
        let b2 = if can_write_in(tables, c.0, c.2) {
            let w = spec_write(tables, b, c.0, c.1, c.2, c.3);
            if w.0 {
                crc_refreshed(w.1, tables[table_index_in(tables, c.0).unwrap()])
            } else {
                b
            }
        } else {
            b
        };
        (b2, snaps2)
    }
}

/// Writes back the values of an entry, in order, and gives the entry that undoes this: the
/// values the fields had just before.
pub fn restore(squad: &mut SquadFile, entry: Vec<FieldChange>) -> (r: Vec<FieldChange>)
    requires
        old(squad).wf(),
    ensures
        final(squad).wf(),
        final(squad).tables == old(squad).tables,
        final(squad).sig_pos == old(squad).sig_pos,
        final(squad).dir_start == old(squad).dir_start,
        final(squad).base == old(squad).base,
        ({
            let f = restore_fold(old(squad).tables@, old(squad).buf@, entry_view(entry@), entry@.len() as int);
            &&& final(squad).buf@ == f.0
            &&& views_as(r@, f.1)
        }),
{
    let ghost es = entry_view(entry@);
    let ghost tables = squad.tables@;
    let ghost buf0 = squad.buf@;
    let mut rest = entry;
    let mut out: Vec<FieldChange> = Vec::new();
    let ghost mut k: int = 0;
    while rest.len() > 0
        invariant
            squad.wf(),
            squad.tables@ == tables,
            squad.tables == old(squad).tables,
            squad.sig_pos == old(squad).sig_pos,
            squad.dir_start == old(squad).dir_start,
            squad.base == old(squad).base,
            tables == old(squad).tables@,
            buf0 == old(squad).buf@,
            0 <= k <= es.len(),
            rest@.len() == es.len() - k,
            forall|j: int| 0 <= j < rest@.len() ==> change_view(#[trigger] rest@[j]) == es[k + j],
            squad.buf@ == restore_fold(tables, buf0, es, k).0,
            views_as(out@, restore_fold(tables, buf0, es, k).1),
        decreases rest@.len(),
    {
        let c = rest.remove(0);
        assert(change_view(c) == es[k]);
        let ghost before = out@;
        if cell_can_be_read(squad, c.table.as_str(), c.record_index, c.field_name.as_str()) {
            let now = snapshot(squad, c.table.as_str(), c.record_index, c.field_name.as_str());
            if let Some(x) = now {
                out.push(x);
            }
        }
        if field_can_be_written(squad, c.table.as_str(), c.field_name.as_str()) {
            let _ = squad.set_field(c.table.as_str(), c.record_index, c.field_name.as_str(), c.old_value);
        }
        proof {
            let f = restore_fold(tables, buf0, es, k + 1);
            assert(views_as(out@, f.1)) by {
                assert forall|i: int| 0 <= i < out@.len() implies {
                    &&& (#[trigger] out@[i]).table@ == f.1[i].0
                    &&& out@[i].record_index as int == f.1[i].1
                    &&& out@[i].field_name@ == f.1[i].2
                    &&& value_as(out@[i].old_value, f.1[i].3)
                } by {
                    if i < before.len() {
                        assert(out@[i] == before[i]);
                    }
                }
            }
            k = k + 1;
        }
    }
    out
}

/// The text `prefix`, the number `n`, then `suffix`.
fn counted_line(prefix: &str, n: usize, suffix: &str) -> (r: String)
    ensures
        r@ == prefix@ + crate::text::nat_decimal(n as nat) + suffix@,
{
    let mut s = String::new();
    push_str(&mut s, prefix);
    push_u64(&mut s, n as u64);
    push_str(&mut s, suffix);
    assert(s@ =~= prefix@ + crate::text::nat_decimal(n as nat) + suffix@);
    s
}

impl History {
    /// Undoes the newest entry of the undo stack: writes its values back and moves to the redo
    /// stack the entry that redoes it; logs the step. Gives how many changes the entry held,
    /// none when there is nothing to undo.
    pub fn undo(&mut self, squad: &mut SquadFile) -> (r: Option<usize>)
        requires
            old(squad).wf(),
        ensures
            final(squad).wf(),
            final(squad).tables == old(squad).tables,
            final(squad).sig_pos == old(squad).sig_pos,
            old(self).undo_stack@.len() == 0 ==> r is None && *final(self) == *old(self) && final(squad).buf@ == old(squad).buf@,
            old(self).undo_stack@.len() > 0 ==> {
                let e = old(self).undo_stack@.last();
                let f = restore_fold(old(squad).tables@, old(squad).buf@, entry_view(e@), e@.len() as int);
                &&& r == Some(e@.len() as usize)
                &&& final(squad).buf@ == f.0
                &&& final(self).undo_stack@ == old(self).undo_stack@.drop_last()
                &&& final(self).redo_stack@.drop_last() == old(self).redo_stack@
                &&& final(self).redo_stack@.len() == old(self).redo_stack@.len() + 1
                &&& views_as(final(self).redo_stack@.last()@, f.1)
                &&& lines_view(final(self).change_log@) == log_after(
                    lines_view(old(self).change_log@),
                    "Undo: "@ + crate::text::nat_decimal(e@.len()) + " fields restored"@,
                )
                &&& final(self).recent_players == old(self).recent_players
                &&& final(self).favorites == old(self).favorites
            },
    {
        if self.undo_stack.len() == 0 {
            return None;
        }
        let entry = match self.undo_stack.pop() {
            Some(e) => e,
            None => return None,
        };
        let n = entry.len();
        let redo_entry = restore(squad, entry);
        self.redo_stack.push(redo_entry);
        self.push_log(counted_line("Undo: ", n, " fields restored"));
        Some(n)
    }

    /// Redoes the newest entry of the redo stack: writes its values back and moves to the undo
    /// stack the entry that undoes it again; logs the step. Gives how many changes the entry
    /// held, none when there is nothing to redo.
    pub fn redo(&mut self, squad: &mut SquadFile) -> (r: Option<usize>)
        requires
            old(squad).wf(),
        ensures
            final(squad).wf(),
            final(squad).tables == old(squad).tables,
            final(squad).sig_pos == old(squad).sig_pos,
            old(self).redo_stack@.len() == 0 ==> r is None && *final(self) == *old(self) && final(squad).buf@ == old(squad).buf@,
            old(self).redo_stack@.len() > 0 ==> {
                let e = old(self).redo_stack@.last();
                let f = restore_fold(old(squad).tables@, old(squad).buf@, entry_view(e@), e@.len() as int);
                &&& r == Some(e@.len() as usize)
                &&& final(squad).buf@ == f.0
                &&& final(self).redo_stack@ == old(self).redo_stack@.drop_last()
                &&& final(self).undo_stack@.drop_last() == old(self).undo_stack@
                &&& final(self).undo_stack@.len() == old(self).undo_stack@.len() + 1
                &&& views_as(final(self).undo_stack@.last()@, f.1)
                &&& lines_view(final(self).change_log@) == log_after(
                    lines_view(old(self).change_log@),
                    "Ripeti: "@ + crate::text::nat_decimal(e@.len()) + " campi riapplicati"@,
                )
                &&& final(self).recent_players == old(self).recent_players
                &&& final(self).favorites == old(self).favorites
            },
    {
        if self.redo_stack.len() == 0 {
            return None;
        }
        let entry = match self.redo_stack.pop() {
            Some(e) => e,
            None => return None,
        };
        let n = entry.len();
        let undo_entry = restore(squad, entry);
        self.undo_stack.push(undo_entry);
        self.push_log(counted_line("Ripeti: ", n, " campi riapplicati"));
        Some(n)
    }
}

// ---------------------------------------------------------------------------------------
// Committing a typed value
// ---------------------------------------------------------------------------------------

/// What committing a typed value to a field did.
#[derive(Debug)]
pub enum CommitOutcome {
    /// The table or the field does not exist; nothing changed.
    NoSuchField,
    /// The text is not a value of the field's type; nothing changed.
    Invalid,
    /// The file refused the value; nothing changed.
    Failed(SquadError),
    /// The value was written.
    Committed,
}

/// The storage type of field `name` of table `ts`.
pub open spec fn field_type_of(squad: SquadFile, ts: Seq<char>, name: Seq<char>) -> Option<FieldType> {
    match squad.spec_table_index(ts) {
        Some(ti) => {
            let t = squad.tables@[ti];
            match t.spec_field_index(name) {
                Some(fi) => Some(t.fields@[fi].field_type),
                None => None,
            }
        },
        None => None,
    }
}

/// The text typed into field `name` of table `ts` can be committed with no write outside the
/// record: the field refuses the value the text stands for, or the field can be written.
pub open spec fn text_writable(squad: SquadFile, ts: Seq<char>, name: Seq<char>, text: Seq<char>) -> bool {
    match field_type_of(squad, ts, name) {
        Some(FieldType::Integer) => match int_text_value(text) {
            Some(v) => squad.can_write_value(ts, name, v),
            None => true,
        },
        Some(FieldType::String) => squad.can_write_value(ts, name, str_value(text)),
        _ => true,
    }
}

/// The value typed text stands for in a field of type `ft`: the text itself for a string
/// field, else what [`cell_value`] reads.
pub open spec fn typed_value(ft: FieldType, text: Seq<char>, h: spec_fn(Seq<char>) -> Option<u32>) -> Option<FieldValue> {
    if ft == FieldType::String {
        Some(str_value(text))
    } else {
        cell_value(ft, text, h)
    }
}

/// The log line of a committed change: "table #record field: before → after".
pub open spec fn commit_line(ts: Seq<char>, idx: int, name: Seq<char>, before: Seq<char>, after: Seq<char>) -> Seq<char> {
    ts + " #"@ + crate::text::nat_decimal(idx as nat) + " "@ + name + ": "@ + before + " → "@ + after
}

fn commit_line_exec(ts: &str, idx: usize, name: &str, before: &str, after: &str) -> (r: String)
    ensures
        r@ == commit_line(ts@, idx as int, name@, before@, after@),
{
    let mut s = String::new();
    push_str(&mut s, ts);
    push_str(&mut s, " #");
    push_u64(&mut s, idx as u64);
    push_str(&mut s, " ");
    push_str(&mut s, name);
    push_str(&mut s, ": ");
    push_str(&mut s, before);
    push_str(&mut s, " → ");
    push_str(&mut s, after);
    assert(s@ =~= commit_line(ts@, idx as int, name@, before@, after@));
    s
}

/// Commits the text typed into a cell: reads it as a value of the field's type (a trimmed
/// integer, a trimmed float read by `parse_float`, or the text itself for a string field) and
/// writes it. When the write is accepted and the old value could be read, the old value goes on
/// the undo stack and the change is logged, values shown with `float_text` for floats.
pub fn commit_cell<P: Fn(&str) -> Option<u32>, F: Fn(u32) -> String>(
    history: &mut History,
    squad: &mut SquadFile,
    table_shortname: &str,
    record_index: usize,
    field_name: &str,
    text_value: &str,
    parse_float: &P,
    float_text: &F,
) -> (r: CommitOutcome)
    requires
        old(squad).wf(),
        text_writable(*old(squad), table_shortname@, field_name@, text_value@),
        old(squad).can_read(table_shortname@, record_index as int, field_name@),
        forall|s: &str| call_requires(*parse_float, (s,)),
        forall|b: u32| call_requires(*float_text, (b,)),
    ensures
        final(squad).wf(),
        final(squad).tables == old(squad).tables,
        final(squad).sig_pos == old(squad).sig_pos,
        !(r is Committed) ==> final(squad).buf@ == old(squad).buf@ && *final(history) == *old(history),
        match field_type_of(*old(squad), table_shortname@, field_name@) {
            None => r is NoSuchField,
            Some(ft) => forall|h: spec_fn(Seq<char>) -> Option<u32>| #[trigger] parses(parse_float, h) ==> match typed_value(ft, text_value@, h) {
                None => r is Invalid,
                Some(v) => {
                    let w = spec_write(old(squad).tables@, old(squad).buf@, table_shortname@, record_index as int, field_name@, v);
                    &&& (r is Committed) == w.0
                    &&& r matches CommitOutcome::Failed(e) ==> write_error(old(squad).tables@, table_shortname@, record_index as int, field_name@, v, e)
                    &&& (r is Committed) ==> final(squad).buf@ == crc_refreshed(
                        w.1,
                        old(squad).tables@[old(squad).spec_table_index(table_shortname@).unwrap()],
                    )
                    &&& (r is Committed) ==> match value_in(old(squad).tables@, old(squad).buf@, table_shortname@, record_index as int, field_name@) {
                        Some(sv) => {
                            &&& final(history).undo_stack@ == undo_after_push(old(history).undo_stack@, final(history).undo_stack@.last())
                            &&& views_as(final(history).undo_stack@.last()@, seq![(table_shortname@, record_index as int, field_name@, sv)])
                            &&& final(history).redo_stack@.len() == 0
                            &&& forall|g: spec_fn(u32) -> Seq<char>| #[trigger] formats(float_text, g) ==> lines_view(final(history).change_log@) == log_after(
                                lines_view(old(history).change_log@),
                                commit_line(table_shortname@, record_index as int, field_name@, display_text(sv, g), display_text(v, g)),
                            )
                        },
                        None => *final(history) == *old(history),
                    }
                },
            },
        },
{
    let ft = match squad.table(table_shortname) {
        Some(t) => match t.field(field_name) {
            Some(f) => f.field_type,
            None => return CommitOutcome::NoSuchField,
        },
        None => return CommitOutcome::NoSuchField,
    };
    let value = match parse_cell_value(ft, text_value, parse_float) {
        Some(v) => v,
        None => return CommitOutcome::Invalid,
    };
    let ghost v0 = value;
    proof {
        assert forall|h: spec_fn(Seq<char>) -> Option<u32>| #[trigger] parses(parse_float, h) implies crate::editor::value_as(v0, typed_value(ft, text_value@, h).unwrap()) && typed_value(ft, text_value@, h) is Some by {
            if ft == FieldType::String {
                assert(crate::tsv::str_text(v0) == Some(text_value@));
            }
        }
    }
    let before = snapshot(squad, table_shortname, record_index, field_name);
    let ghost before_g = before;
    let line = match &before {
        Some(c) => {
            let b = format_value(&c.old_value, float_text);
            let a = format_value(&value, float_text);
            Some(commit_line_exec(table_shortname, record_index, field_name, b.as_str(), a.as_str()))
        },
        None => None,
    };
    let ghost line_g = line;
    let ghost old_tables = squad.tables@;
    let ghost old_buf = squad.buf@;
    let ghost old_hist = *history;
    proof {
        if ft == FieldType::String {
            assert(str_text(value) == Some(text_value@));
            assert(str_text(str_value(text_value@)) == Some(text_value@));
        }
    }
    assert(squad.can_write_value(table_shortname@, field_name@, value));
    let r = match squad.set_field(table_shortname, record_index, field_name, value) {
        Ok(()) => {
            if let (Some(b), Some(l)) = (before, line) {
                let mut entry: Vec<FieldChange> = Vec::new();
                entry.push(b);
                history.push_undo(entry);
                history.push_log(l);
            }
            CommitOutcome::Committed
        },
        Err(e) => CommitOutcome::Failed(e),
    };
    proof {
        let ts = table_shortname@;
        let idx = record_index as int;
        let name = field_name@;
        assert forall|h: spec_fn(Seq<char>) -> Option<u32>| #[trigger] parses(parse_float, h) implies (match typed_value(ft, text_value@, h) {
            None => r is Invalid,
            Some(v) => {
                let w = spec_write(old_tables, old_buf, ts, idx, name, v);
                &&& (r is Committed) == w.0
                &&& r matches CommitOutcome::Failed(e) ==> write_error(old_tables, ts, idx, name, v, e)
                &&& (r is Committed) ==> squad.buf@ == crc_refreshed(w.1, old_tables[old(squad).spec_table_index(ts).unwrap()])
                &&& (r is Committed) ==> match value_in(old_tables, old_buf, ts, idx, name) {
                    Some(sv) => {
                        &&& history.undo_stack@ == undo_after_push(old_hist.undo_stack@, history.undo_stack@.last())
                        &&& views_as(history.undo_stack@.last()@, seq![(ts, idx, name, sv)])
                        &&& history.redo_stack@.len() == 0
                        &&& forall|g: spec_fn(u32) -> Seq<char>| #[trigger] formats(float_text, g) ==> lines_view(history.change_log@) == log_after(
                            lines_view(old_hist.change_log@),
                            commit_line(ts, idx, name, display_text(sv, g), display_text(v, g)),
                        )
                    },
                    None => *history == old_hist,
                }
            },
        }) by {
            let tv = typed_value(ft, text_value@, h).unwrap();
            if ft == FieldType::String {
                crate::tsv::lemma_write_str_view(old_tables, old_buf, ts, idx, name, v0, text_value@);
            }
            assert(spec_write(old_tables, old_buf, ts, idx, name, tv) == spec_write(old_tables, old_buf, ts, idx, name, v0));
            if ft == FieldType::String {
                assert(str_text(tv) == str_text(v0));
            }
            if r is Committed {
                match value_in(old_tables, old_buf, ts, idx, name) {
                    Some(sv) => {
                        let c = before_g.unwrap();
                        assert(history.undo_stack@.last()@ =~= seq![c]);
                        assert(views_as(seq![c], seq![(ts, idx, name, sv)]));
                        assert forall|g: spec_fn(u32) -> Seq<char>| #[trigger] formats(float_text, g) implies lines_view(history.change_log@) == log_after(
                            lines_view(old_hist.change_log@),
                            commit_line(ts, idx, name, display_text(sv, g), display_text(tv, g)),
                        ) by {
                            lemma_display_as(c.old_value, sv, g);
                            lemma_display_as(v0, tv, g);
                        }
                    },
                    None => {},
                }
            }
        }
    }
    r
}

// ---------------------------------------------------------------------------------------
// Writing a record's fields with undo
// ---------------------------------------------------------------------------------------

/// Setting the first `k` of `updates` (a name, and a value or none where there was nothing to
/// write) in record `idx` of table `ts` (whose layout is `t`), in order: the bytes after, the
/// writes accepted and refused, and for each accepted write the value its field had just
/// before (where that could be read).
pub open spec fn set_undo_fold(tables: Seq<TableInfo>, buf: Seq<u8>, ts: Seq<char>, t: TableInfo, idx: int, updates: Seq<(Seq<char>, Option<FieldValue>)>, k: int) -> (Seq<u8>, int, int, Seq<ChangeView>)
    decreases k,
{
    if k <= 0 {
        (buf, 0, 0, Seq::empty())
    } else {
        let p = set_undo_fold(tables, buf, ts, t, idx, updates, k - 1);
        let name = updates[k - 1].0;
        match updates[k - 1].1 {
            Some(v) => {
                let w = spec_write(tables, p.0, ts, idx, name, v);
                if w.0 {
                    let snaps = if can_read_in(tables, p.0, ts, idx, name) {
                        match value_in(tables, p.0, ts, idx, name) {
                            Some(sv) => p.3.push((ts, idx, name, sv)),
                            None => p.3,
                        }
                    } else {
                        p.3
                    };
                    (crc_refreshed(w.1, t), p.1 + 1, p.2, snaps)
                } else {
                    (p.0, p.1, p.2 + 1, p.3)
                }
            },
            None => (p.0, p.1, p.2 + 1, p.3),
        }
    }
}

/// `a` is a value to write that stands for `b`.
pub open spec fn opt_value_as(a: Option<FieldValue>, b: Option<FieldValue>) -> bool {
    match (a, b) {
        (Some(x), Some(y)) => value_as(x, y),
        (None, None) => true,
        _ => false,
    }
}

/// Sets each update in record `idx` of table `ts`, refreshing the checksum after each accepted
/// write, and gives the writes accepted and refused with the entry that undoes them.
fn set_with_undo(
    squad: &mut SquadFile,
    ts: &str,
    idx: usize,
    updates: Vec<(String, Option<FieldValue>)>,
    Ghost(spec_ups): Ghost<Seq<(Seq<char>, Option<FieldValue>)>>,
) -> (r: (usize, usize, Vec<FieldChange>))
    requires
        old(squad).wf(),
        table_importable(*old(squad), ts@),
        old(squad).spec_table_index(ts@) is Some,
        updates@.len() == spec_ups.len(),
        forall|i: int| 0 <= i < updates@.len() ==> (#[trigger] updates@[i]).0@ == spec_ups[i].0 && opt_value_as(updates@[i].1, spec_ups[i].1),
    ensures
        same_layout(*final(squad), *old(squad)),
        ({
            let t = old(squad).tables@[old(squad).spec_table_index(ts@).unwrap()];
            let f = set_undo_fold(old(squad).tables@, old(squad).buf@, ts@, t, idx as int, spec_ups, spec_ups.len() as int);
            &&& final(squad).buf@ == f.0
            &&& r.0 == f.1
            &&& r.1 == f.2
            &&& views_as(r.2@, f.3)
        }),
{
    let ghost tables = squad.tables@;
    let ghost buf0 = squad.buf@;
    let ghost t = tables[squad.spec_table_index(ts@).unwrap()];
    let mut applied: usize = 0;
    let mut failed: usize = 0;
    let mut entry: Vec<FieldChange> = Vec::new();
    let mut rest = updates;
    let total: usize = rest.len();
    assert(spec_ups.len() == total);
    let ghost mut k: int = 0;
    proof {
        crate::squad::lemma_last_table_bounds(tables, ts@, tables.len() as int);
    }
    while rest.len() > 0
        invariant
            same_layout(*squad, *old(squad)),
            table_importable(*squad, ts@),
            squad.tables@ == tables,
            tables == old(squad).tables@,
            buf0 == old(squad).buf@,
            squad.spec_table_index(ts@) is Some,
            t == tables[squad.spec_table_index(ts@).unwrap()],
            0 <= squad.spec_table_index(ts@).unwrap() < tables.len(),
            0 <= k <= spec_ups.len(),
            spec_ups.len() <= usize::MAX,
            rest@.len() == spec_ups.len() - k,
            forall|j: int| 0 <= j < rest@.len() ==> (#[trigger] rest@[j]).0@ == spec_ups[k + j].0 && opt_value_as(rest@[j].1, spec_ups[k + j].1),
            applied + failed == k,
            ({
                let f = set_undo_fold(tables, buf0, ts@, t, idx as int, spec_ups, k);
                &&& squad.buf@ == f.0
                &&& applied == f.1
                &&& failed == f.2
                &&& views_as(entry@, f.3)
            }),
        decreases rest@.len(),
    {
        let (name, value) = rest.remove(0);
        let ghost sv = spec_ups[k].1;
        let ghost before_entry = entry@;
        let ghost before_buf = squad.buf@;
        match value {
            Some(v) => {
                proof {
                    match t.spec_field_index(name@) {
                        Some(fi) => {
                            crate::model::lemma_first_field_bounds(t.fields@, name@, 0);
                            assert(crate::edit::field_writable(t, t.fields@[fi]));
                        },
                        None => {},
                    }
                    if v != sv.unwrap() {
                        crate::tsv::lemma_write_str_view(tables, before_buf, ts@, idx as int, name@, v, crate::tsv::str_text(v).unwrap());
                    }
                }
                let readable_now = cell_can_be_read(squad, ts, idx, name.as_str());
                let before = if readable_now {
                    snapshot(squad, ts, idx, name.as_str())
                } else {
                    None
                };
                match squad.set_field(ts, idx, name.as_str(), v) {
                    Ok(()) => {
                        applied = applied + 1;
                        if let Some(b) = before {
                            entry.push(b);
                        }
                    },
                    Err(_) => failed = failed + 1,
                }
            },
            None => {
                failed = failed + 1;
            },
        }
        proof {
            let f = set_undo_fold(tables, buf0, ts@, t, idx as int, spec_ups, k + 1);
            assert forall|i: int| 0 <= i < entry@.len() implies {
                &&& (#[trigger] entry@[i]).table@ == f.3[i].0
                &&& entry@[i].record_index as int == f.3[i].1
                &&& entry@[i].field_name@ == f.3[i].2
                &&& value_as(entry@[i].old_value, f.3[i].3)
            } by {
                if i < before_entry.len() {
                    assert(entry@[i] == before_entry[i]);
                }
            }
            k = k + 1;
        }
    }
    (applied, failed, entry)
}

// ---------------------------------------------------------------------------------------
// Importing a historical card
// ---------------------------------------------------------------------------------------

/// What importing a historical card into a player did.
#[derive(Debug, PartialEq, Eq, Structural)]
pub enum CardImport {
    /// The history has no card of that version for the player; nothing changed.
    NoCard,
    /// The squad has no record of the player; nothing changed.
    NoPlayer,
    /// The card's values were written into player record `player_index`: `applied` accepted,
    /// `failed` refused, `skipped` missing from the card.
    Applied { player_index: usize, applied: usize, failed: usize, skipped: usize },
}

/// The card of version `v` of player `p`, if the history has one.
pub open spec fn card_of(db: HistoricalDatabase, p: i64, v: i32) -> Option<CardView> {
    if db.spec_cards().contains_key(p) {
        match first_card_of_version(db.spec_cards()[p], v, 0) {
            Some(i) => Some(db.spec_cards()[p][i]),
            None => None,
        }
    } else {
        None
    }
}

/// The field values a card gives.
pub open spec fn card_field_values(c: CardView) -> Seq<(Seq<char>, Option<FieldValue>)> {
    field_updates_view_spec(int_updates(card_updates(c.1).0))
}

/// The updates as names and values to write.
pub open spec fn field_updates_view_spec(v: Seq<(Seq<char>, FieldValue)>) -> Seq<(Seq<char>, Option<FieldValue>)> {
    v.map_values(|u: (Seq<char>, FieldValue)| (u.0, Some(u.1)))
}

/// The players table.
pub open spec fn players_table() -> Seq<char> {
    "CZUM"@
}

/// The log line of an imported card.
pub open spec fn card_line(player_index: int, fifa_version: i32, applied: int) -> Seq<char> {
    "CZUM #"@ + crate::text::nat_decimal(player_index as nat) + ": imported FIFA "@ + crate::text::int_decimal(fifa_version as int)
        + " card ("@ + crate::text::nat_decimal(applied as nat) + " fields)"@
}

impl History {
    /// Writes the values of the FIFA `fifa_version` card of player `player_id` into the player's
    /// record (the first record of the players table with that `playerid`), logs the import,
    /// and records the values replaced so that it can be undone.
    pub fn apply_historical_card(&mut self, squad: &mut SquadFile, db: &HistoricalDatabase, player_id: i64, fifa_version: i32) -> (r: CardImport)
        requires
            old(squad).wf(),
            readable(*old(squad)),
            table_importable(*old(squad), players_table()),
        ensures
            same_layout(*final(squad), *old(squad)),
            match card_of(*db, player_id, fifa_version) {
                None => r == CardImport::NoCard && final(squad).buf@ == old(squad).buf@ && *final(self) == *old(self),
                Some(c) => match crate::listing::found_record(*old(squad), players_table(), "playerid"@, player_id) {
                    None => r == CardImport::NoPlayer && final(squad).buf@ == old(squad).buf@ && *final(self) == *old(self),
                    Some(p) => {
                        let ti = old(squad).spec_table_index(players_table()).unwrap();
                        let ups = card_field_values(c);
                        let f = set_undo_fold(old(squad).tables@, old(squad).buf@, players_table(), old(squad).tables@[ti], p, ups, ups.len() as int);
                        &&& r == CardImport::Applied {
                            player_index: p as usize,
                            applied: f.1 as usize,
                            failed: f.2 as usize,
                            skipped: card_updates(c.1).1 as usize,
                        }
                        &&& final(squad).buf@ == f.0
                        &&& lines_view(final(self).change_log@) == log_after(lines_view(old(self).change_log@), card_line(p, fifa_version, f.1))
                        &&& f.3.len() == 0 ==> final(self).undo_stack == old(self).undo_stack && final(self).redo_stack == old(self).redo_stack
                        &&& f.3.len() > 0 ==> final(self).undo_stack@ == undo_after_push(old(self).undo_stack@, final(self).undo_stack@.last())
                            && views_as(final(self).undo_stack@.last()@, f.3) && final(self).redo_stack@.len() == 0
                    },
                },
            },
    {
        let card = match db.card_for(player_id, fifa_version) {
            Some(c) => c,
            None => return CardImport::NoCard,
        };
        let (updates, report) = crate::fifa_history::apply_card_to_field_values(card);
        let player_index = match crate::editor::find_record_by_int_field(squad, "CZUM", "playerid", player_id) {
            Some(i) => i,
            None => return CardImport::NoPlayer,
        };
        let ghost spec_ups = card_field_values(crate::fifa_history::card_view(*card));
        let mut ups: Vec<(String, Option<FieldValue>)> = Vec::new();
        let mut rest = updates;
        let ghost all = crate::fifa_history::updates_view(rest@);
        let ghost mut k: int = 0;
        while rest.len() > 0
            invariant
                0 <= k <= all.len(),
                rest@.len() == all.len() - k,
                forall|j: int| 0 <= j < rest@.len() ==> ((#[trigger] rest@[j]).0@, rest@[j].1) == all[k + j],
                ups@.len() == k,
                forall|j: int| 0 <= j < k ==> (#[trigger] ups@[j]).0@ == all[j].0 && ups@[j].1 == Some(all[j].1),
            decreases rest@.len(),
        {
            let (name, value) = rest.remove(0);
            ups.push((name, Some(value)));
            proof {
                k = k + 1;
            }
        }
        proof {
            crate::squad::lemma_last_table_bounds(squad.tables@, "CZUM"@, squad.tables@.len() as int);
            assert(spec_ups.len() == all.len());
            assert forall|i: int| 0 <= i < ups@.len() implies (#[trigger] ups@[i]).0@ == spec_ups[i].0 && opt_value_as(ups@[i].1, spec_ups[i].1) by {
                assert(all[i] == int_updates(card_updates(crate::fifa_history::card_view(*card).1).0)[i]);
            }
        }
        let (applied, failed, entry) = set_with_undo(squad, "CZUM", player_index, ups, Ghost(spec_ups));
        let mut line = String::new();
        push_str(&mut line, "CZUM #");
        push_u64(&mut line, player_index as u64);
        push_str(&mut line, ": imported FIFA ");
        crate::text::push_i64(&mut line, fifa_version as i64);
        push_str(&mut line, " card (");
        push_u64(&mut line, applied as u64);
        push_str(&mut line, " fields)");
        assert(line@ =~= card_line(player_index as int, fifa_version, applied as int));
        self.push_log(line);
        self.push_undo(entry);
        CardImport::Applied { player_index, applied, failed, skipped: report.skipped }
    }
}

// ---------------------------------------------------------------------------------------
// Cloning a player from a reference file
// ---------------------------------------------------------------------------------------

/// What cloning a record from a reference file did.
#[derive(Debug, PartialEq, Eq, Structural)]
pub enum CloneOutcome {
    /// The source id is not an integer; nothing changed.
    InvalidSourceId,
    /// The reference file has no such table; nothing changed.
    NoSourceTable,
    /// No record of the reference table has that `playerid`; nothing changed.
    SourceNotFound(i64),
    /// The squad has no such table; nothing changed.
    NoTable,
    /// The record was copied field by field: `copied` fields written, `failed` not.
    Cloned { source_playerid: i64, copied: usize, failed: usize },
}

/// The log line of a clone.
pub open spec fn clone_line(ts: Seq<char>, dest: int, source: i64, copied: int) -> Seq<char> {
    ts + " #"@ + crate::text::nat_decimal(dest as nat) + ": cloned from playerid "@ + crate::text::int_decimal(source as int) + " ("@
        + crate::text::nat_decimal(copied as nat) + " fields)"@
}

/// The id typed as the clone's source, if it is an integer.
pub open spec fn source_id(text: Seq<char>) -> Option<i64> {
    match crate::text::spec_parse_int(vstd::utf8::encode_utf8(crate::text::trimmed(text)), i64::MIN as int, i64::MAX as int) {
        Some(v) => Some(v as i64),
        None => None,
    }
}

impl History {
    /// Copies the record of `reference` whose `playerid` is the integer typed in
    /// `source_id_text` into record `dest_index` of the same table of `squad`, field by field
    /// over `squad`'s fields; logs the clone and records the values replaced so that it can be
    /// undone.
    pub fn clone_player_record(&mut self, squad: &mut SquadFile, reference: &SquadFile, table_shortname: &str, source_id_text: &str, dest_index: usize) -> (r: CloneOutcome)
        requires
            old(squad).wf(),
            table_importable(*old(squad), table_shortname@),
            reference.wf(),
            readable(*reference),
        ensures
            same_layout(*final(squad), *old(squad)),
            !(r is Cloned) ==> final(squad).buf@ == old(squad).buf@ && *final(self) == *old(self),
            match source_id(source_id_text@) {
                None => r == CloneOutcome::InvalidSourceId,
                Some(id) => if reference.spec_table_index(table_shortname@) is None {
                    r == CloneOutcome::NoSourceTable
                } else {
                    match crate::listing::found_record(*reference, table_shortname@, "playerid"@, id) {
                        None => r == CloneOutcome::SourceNotFound(id),
                        Some(src) => match old(squad).spec_table_index(table_shortname@) {
                            None => r == CloneOutcome::NoTable,
                            Some(ti) => {
                                let t = old(squad).tables@[ti];
                                let ups = crate::editor::reference_values(*reference, table_shortname@, src, t.fields@);
                                let f = set_undo_fold(old(squad).tables@, old(squad).buf@, table_shortname@, t, dest_index as int, ups, ups.len() as int);
                                &&& r == CloneOutcome::Cloned { source_playerid: id, copied: f.1 as usize, failed: f.2 as usize }
                                &&& final(squad).buf@ == f.0
                                &&& lines_view(final(self).change_log@) == log_after(
                                    lines_view(old(self).change_log@),
                                    clone_line(table_shortname@, dest_index as int, id, f.1),
                                )
                                &&& f.3.len() == 0 ==> final(self).undo_stack == old(self).undo_stack && final(self).redo_stack == old(self).redo_stack
                                &&& f.3.len() > 0 ==> final(self).undo_stack@ == undo_after_push(old(self).undo_stack@, final(self).undo_stack@.last())
                                    && views_as(final(self).undo_stack@.last()@, f.3) && final(self).redo_stack@.len() == 0
                            },
                        },
                    }
                },
            },
    {
        let source_playerid = match crate::text::parse_i64_bytes(crate::text::trim(source_id_text).as_bytes()) {
            Some(v) => v,
            None => return CloneOutcome::InvalidSourceId,
        };
        if reference.table(table_shortname).is_none() {
            return CloneOutcome::NoSourceTable;
        }
        let source_index = match crate::editor::find_record_by_int_field(reference, table_shortname, "playerid", source_playerid) {
            Some(i) => i,
            None => return CloneOutcome::SourceNotFound(source_playerid),
        };
        let ti = match squad.table_position(table_shortname) {
            Some(i) => i,
            None => return CloneOutcome::NoTable,
        };
        let ghost t = squad.tables@[ti as int];
        let ghost spec_ups = crate::editor::reference_values(*reference, table_shortname@, source_index as int, t.fields@);
        let mut ups: Vec<(String, Option<FieldValue>)> = Vec::new();
        let nf = squad.tables[ti].fields.len();
        let mut j: usize = 0;
        while j < nf
            invariant
                ti < squad.tables@.len(),
                t == squad.tables@[ti as int],
                nf == t.fields@.len(),
                reference.wf(),
                readable(*reference),
                spec_ups == crate::editor::reference_values(*reference, table_shortname@, source_index as int, t.fields@),
                j <= nf,
                ups@.len() == j,
                forall|i: int| 0 <= i < j ==> (#[trigger] ups@[i]).0@ == spec_ups[i].0 && opt_value_as(ups@[i].1, spec_ups[i].1),
            decreases nf - j,
        {
            let name = &squad.tables[ti].fields[j].name;
            let v = read_value(reference, table_shortname, source_index, name.as_str());
            ups.push((name.clone(), v));
            j = j + 1;
        }
        proof {
            crate::squad::lemma_last_table_bounds(squad.tables@, table_shortname@, squad.tables@.len() as int);
        }
        let (copied, failed, entry) = set_with_undo(squad, table_shortname, dest_index, ups, Ghost(spec_ups));
        let mut line = String::new();
        push_str(&mut line, table_shortname);
        push_str(&mut line, " #");
        push_u64(&mut line, dest_index as u64);
        push_str(&mut line, ": cloned from playerid ");
        crate::text::push_i64(&mut line, source_playerid);
        push_str(&mut line, " (");
        push_u64(&mut line, copied as u64);
        push_str(&mut line, " fields)");
        assert(line@ =~= clone_line(table_shortname@, dest_index as int, source_playerid, copied as int));
        self.push_log(line);
        self.push_undo(entry);
        CloneOutcome::Cloned { source_playerid, copied, failed }
    }
}

// ---------------------------------------------------------------------------------------
// Applying a formation preset to a team
// ---------------------------------------------------------------------------------------

/// What applying a formation preset to a team did.
#[derive(Debug)]
pub enum PresetOutcome {
    /// The team has no formation to replace; nothing changed.
    NoFormation,
    /// The preset was copied onto the team's formation: `applied` writes accepted, `failed`
    /// refused, `name` the preset's name (empty when it has none).
    Applied { applied: usize, failed: usize, name: String },
}

/// The log line of an applied preset.
pub open spec fn preset_line(ts: Seq<char>, target: int, name: Seq<char>) -> Seq<char> {
    ts + " #"@ + crate::text::nat_decimal(target as nat) + ": modulo "@ + name + " applicato"@
}

impl History {
    /// Copies formation preset `preset_index` onto the formation of team `team_id` in one batch
    /// (see [`crate::editor::apply_formation_preset`]), logs it, and records the values the
    /// written fields had so that it can be undone.
    pub fn apply_formation_preset(&mut self, squad: &mut SquadFile, team_id: i64, preset_index: usize) -> (r: PresetOutcome)
        requires
            old(squad).wf(),
            readable(*old(squad)),
            crate::editor::spec_team_record(*old(squad), "formations"@, team_id) matches Some((ts, _)) ==> table_importable(*old(squad), ts),
        ensures
            same_layout(*final(squad), *old(squad)),
            match crate::editor::spec_team_record(*old(squad), "formations"@, team_id) {
                None => r is NoFormation && final(squad).buf@ == old(squad).buf@ && *final(self) == *old(self),
                Some((ts, target)) => {
                    let ups = crate::editor::all_preset_writes(*old(squad), ts, preset_index as int, target);
                    let b = crate::editor::batch_result(*old(squad), ts, ups);
                    let snaps = pre_snapshots(old(squad).tables@, old(squad).buf@, ts, ups, ups.len() as int);
                    let name = match crate::editor::preset_name(*old(squad), ts, preset_index as int) {
                        Some(n) => n,
                        None => Seq::empty(),
                    };
                    &&& r matches PresetOutcome::Applied { applied, failed, name: n } && applied == b.1 && applied + failed == ups.len() && n@ == name
                    &&& final(squad).buf@ == b.0
                    &&& lines_view(final(self).change_log@) == log_after(lines_view(old(self).change_log@), preset_line(ts, target, name))
                    &&& snaps.len() == 0 ==> final(self).undo_stack == old(self).undo_stack && final(self).redo_stack == old(self).redo_stack
                    &&& snaps.len() > 0 ==> final(self).undo_stack@ == undo_after_push(old(self).undo_stack@, final(self).undo_stack@.last())
                        && views_as(final(self).undo_stack@.last()@, snaps) && final(self).redo_stack@.len() == 0
                },
            },
    {
        let (shortname, target_index) = match crate::editor::find_team_formation(squad, team_id) {
            Some(x) => x,
            None => return PresetOutcome::NoFormation,
        };
        let (applied, failed, name, entry) = crate::editor::apply_formation_preset(squad, shortname.as_str(), preset_index, target_index);
        let mut line = String::new();
        push_str(&mut line, shortname.as_str());
        push_str(&mut line, " #");
        push_u64(&mut line, target_index as u64);
        push_str(&mut line, ": modulo ");
        push_str(&mut line, name.as_str());
        push_str(&mut line, " applicato");
        assert(line@ =~= preset_line(shortname@, target_index as int, name@));
        self.push_log(line);
        self.push_undo(entry);
        PresetOutcome::Applied { applied, failed, name }
    }
}

// ---------------------------------------------------------------------------------------
// Putting a player into a line-up slot
// ---------------------------------------------------------------------------------------

/// What putting a player into a team's line-up did.
#[derive(Debug)]
pub enum SlotAssign {
    /// The team has no saved line-up; nothing changed.
    NoLineup,
    /// The line-up was changed as `change` says; `new_name` is the incoming player's name and
    /// `old_name` that of the player the slot held.
    Assigned { change: crate::editor::SlotChange, new_name: String, old_name: String },
}

/// The name of player `id`, or `fallback` when the squad has no record of it.
pub open spec fn player_label(squad: SquadFile, reference: Option<SquadFile>, id: i64, fallback: Seq<char>) -> Seq<char> {
    match crate::listing::found_record(squad, "CZUM"@, "playerid"@, id) {
        Some(p) => crate::listing::spec_player_name(squad, reference, "CZUM"@, p),
        None => fallback,
    }
}

/// The log line of a slot change.
pub open spec fn slot_line(sheets: Seq<char>, sheet_index: int, slot: int, new_name: Seq<char>) -> Seq<char> {
    sheets + " #"@ + crate::text::nat_decimal(sheet_index as nat) + ": slot "@ + crate::text::nat_decimal(slot as nat) + " -> "@ + new_name
}

fn player_label_exec(squad: &SquadFile, reference: Option<&SquadFile>, id: i64, fallback: String) -> (r: String)
    requires
        squad.wf(),
        readable(*squad),
        crate::listing::reference_ok(reference),
    ensures
        r@ == player_label(*squad, crate::listing::deref_opt(reference), id, fallback@),
{
    match crate::editor::find_record_by_int_field(squad, "CZUM", "playerid", id) {
        Some(i) => crate::listing::resolve_player_name(squad, reference, "CZUM", i),
        None => fallback,
    }
}

impl History {
    /// Puts player `new_player_id` into slot `target_slot` of the saved line-up of team
    /// `team_id` (see [`crate::editor::assign_player_to_slot`]). When the line-up changes, logs
    /// the change and records the values replaced so that it can be undone.
    pub fn assign_player_to_slot(&mut self, squad: &mut SquadFile, reference: Option<&SquadFile>, team_id: i64, target_slot: usize, new_player_id: i64) -> (r: SlotAssign)
        requires
            old(squad).wf(),
            readable(*old(squad)),
            crate::listing::reference_ok(reference),
            crate::editor::spec_team_record(*old(squad), "default_teamsheets"@, team_id) matches Some((ts, _)) ==> table_importable(*old(squad), ts),
        ensures
            same_layout(*final(squad), *old(squad)),
            match crate::editor::spec_team_record(*old(squad), "default_teamsheets"@, team_id) {
                None => r is NoLineup && final(squad).buf@ == old(squad).buf@ && *final(self) == *old(self),
                Some((sheets, idx)) => {
                    let cur = crate::editor::current_slot_player(*old(squad), sheets, idx, target_slot as int);
                    let rf = crate::listing::deref_opt(reference);
                    let new_name = player_label(*old(squad), rf, new_player_id, "#"@ + crate::text::int_decimal(new_player_id as int));
                    let old_name = player_label(*old(squad), rf, cur, "vuoto"@);
                    if cur == new_player_id {
                        &&& r matches SlotAssign::Assigned { change, .. } && change == crate::editor::SlotChange::AlreadyThere
                        &&& final(squad).buf@ == old(squad).buf@
                        &&& *final(self) == *old(self)
                    } else {
                        let ups = crate::editor::slot_writes(*old(squad), sheets, idx, target_slot as int, new_player_id);
                        let b = crate::editor::batch_result(*old(squad), sheets, ups);
                        let snaps = pre_snapshots(old(squad).tables@, old(squad).buf@, sheets, ups, ups.len() as int);
                        &&& r matches SlotAssign::Assigned { change, new_name: n, old_name: o } && n@ == new_name && o@ == old_name
                            && change == match crate::editor::player_other_slot(*old(squad), sheets, idx, target_slot as int, new_player_id) {
                                Some(other) => crate::editor::SlotChange::Swapped { other_slot: other as usize, applied: b.1 as usize, failed: (2 - b.1) as usize },
                                None => crate::editor::SlotChange::Replaced { applied: b.1 as usize, failed: (1 - b.1) as usize },
                            }
                        &&& final(squad).buf@ == b.0
                        &&& lines_view(final(self).change_log@) == log_after(lines_view(old(self).change_log@), slot_line(sheets, idx, target_slot as int, new_name))
                        &&& snaps.len() == 0 ==> final(self).undo_stack == old(self).undo_stack && final(self).redo_stack == old(self).redo_stack
                        &&& snaps.len() > 0 ==> final(self).undo_stack@ == undo_after_push(old(self).undo_stack@, final(self).undo_stack@.last())
                            && views_as(final(self).undo_stack@.last()@, snaps) && final(self).redo_stack@.len() == 0
                    }
                },
            },
    {
        let (sheets, sheet_index) = match crate::editor::find_teamsheet(squad, team_id) {
            Some(x) => x,
            None => return SlotAssign::NoLineup,
        };
        let mut field = String::new();
        push_str(&mut field, "playerid");
        push_u64(&mut field, target_slot as u64);
        assert(field@ =~= crate::editor::numbered("playerid"@, target_slot as nat));
        let current = match crate::editor::int_field(squad, sheets.as_str(), sheet_index, field.as_str()) {
            Some(v) => v,
            None => -1,
        };
        let mut hash = String::new();
        push_str(&mut hash, "#");
        crate::text::push_i64(&mut hash, new_player_id);
        assert(hash@ =~= "#"@ + crate::text::int_decimal(new_player_id as int));
        let new_name = player_label_exec(squad, reference, new_player_id, hash);
        let old_name = player_label_exec(squad, reference, current, to_owned_string("vuoto"));
        let (change, entry) = crate::editor::assign_player_to_slot(squad, sheets.as_str(), sheet_index, target_slot, new_player_id);
        if current == new_player_id {
            return SlotAssign::Assigned { change, new_name, old_name };
        }
        let mut line = String::new();
        push_str(&mut line, sheets.as_str());
        push_str(&mut line, " #");
        push_u64(&mut line, sheet_index as u64);
        push_str(&mut line, ": slot ");
        push_u64(&mut line, target_slot as u64);
        push_str(&mut line, " -> ");
        push_str(&mut line, new_name.as_str());
        assert(line@ =~= slot_line(sheets@, sheet_index as int, target_slot as int, new_name@));
        self.push_log(line);
        self.push_undo(entry);
        SlotAssign::Assigned { change, new_name, old_name }
    }
}

// ---------------------------------------------------------------------------------------
// Small editor decisions
// ---------------------------------------------------------------------------------------

/// The save name as typed, cut to the `max` characters the file's slot holds.
pub fn save_name_input(value: &str, max: usize) -> (r: String)
    ensures
        r@ == at_most(value@, max as int),
{
    let cs = crate::text::chars_of(value);
    let mut out = String::new();
    let mut i: usize = 0;
    while i < cs.len() && i < max
        invariant
            cs@ == value@,
            i <= cs@.len(),
            i <= max,
            out@ == value@.take(i as int),
        decreases cs@.len() - i,
    {
        crate::text::push_char(&mut out, cs[i]);
        assert(value@.take(i + 1) =~= value@.take(i as int).push(cs@[i as int]));
        i = i + 1;
    }
    proof {
        if value@.len() <= max {
            assert(value@.take(i as int) =~= value@);
        }
    }
    out
}

/// The line-up slot being edited after slot `slot` is clicked: clicking the slot being edited
/// stops editing it.
pub fn toggle_slot(editing: Option<usize>, slot: usize) -> (r: Option<usize>)
    ensures
        r == if editing == Some(slot) {
            None
        } else {
            Some(slot)
        },
{
    if editing == Some(slot) {
        None
    } else {
        Some(slot)
    }
}

} // verus!
