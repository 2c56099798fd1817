//! Editing helpers over a squad: integer lookups, line-ups and formations, record cloning,
//! and the messages shown after an import.
use vstd::prelude::*;

use crate::codec::{bits_value, until_nul};
use crate::error::SquadError;
use crate::fields::{compressed_text_bytes, record_start};
use crate::parse::u32le;
use crate::model::{FieldType, FieldValue, TableInfo};
use crate::squad::{first_named_table, SquadFile};
use crate::edit::spec_write;
use crate::text::{nat_decimal, push_str, push_u64, to_owned_string, utf8_text};
use crate::tsv::{same_layout, str_text, str_value, table_importable, texts, ImportReport};
use crate::export::{lemma_writes_fold, same_write, writes_fold};

verus! {

/// Every field of every record can be read without overflow.
pub open spec fn readable(squad: SquadFile) -> bool {
    forall|ts: Seq<char>, idx: int, name: Seq<char>| #[trigger] squad.can_read(ts, idx, name)
}

/// The integer value of field `name` of record `idx` of table `ts`, when that is an integer
/// field of an existing record.
pub open spec fn spec_int_field(squad: SquadFile, ts: Seq<char>, idx: int, name: Seq<char>) -> Option<i64> {
    match squad.spec_table_index(ts) {
        Some(ti) => {
            let t = squad.tables@[ti];
            match t.spec_field_index(name) {
                Some(fi) => {
                    let f = t.fields@[fi];
                    if 0 <= idx < t.n_records_slot && f.field_type == FieldType::Integer {
                        Some(
                            (bits_value(squad.buf@.skip(record_start(t, idx)), f.bit_offset as int, f.depth as nat)
                                + f.rangelow) as i64,
                        )
                    } else {
                        None
                    }
                },
                None => None,
            }
        },
        None => None,
    }
}

/// The value of an integer field, or none for any other field or an error.
pub fn int_field(squad: &SquadFile, table_shortname: &str, record_index: usize, field_name: &str) -> (r: Option<i64>)
    requires
        squad.wf(),
        readable(*squad),
    ensures
        r == spec_int_field(*squad, table_shortname@, record_index as int, field_name@),
{
    assert(squad.can_read(table_shortname@, record_index as int, field_name@));
    match squad.get_field(table_shortname, record_index, field_name) {
        Ok(FieldValue::Int(v)) => Some(v),
        _ => None,
    }
}

/// The first record from `from` on, below `upto`, whose integer field `name` is `value`.
pub open spec fn first_record_with(squad: SquadFile, ts: Seq<char>, name: Seq<char>, value: i64, from: int, upto: int) -> Option<int>
    decreases upto - from,
{
    if from < 0 || from >= upto {
        None
    } else if spec_int_field(squad, ts, from, name) == Some(value) {
        Some(from)
    } else {
        first_record_with(squad, ts, name, value, from + 1, upto)
    }
}

/// The first record slot of a table whose integer field `field_name` is `value`.
pub fn find_record_by_int_field(squad: &SquadFile, table_shortname: &str, field_name: &str, value: i64) -> (r: Option<usize>)
    requires
        squad.wf(),
        readable(*squad),
    ensures
        match squad.spec_table_index(table_shortname@) {
            Some(ti) => opt_int(r) == first_record_with(*squad, table_shortname@, field_name@, value, 0, squad.tables@[ti].n_records_slot as int),
            None => r is None,
        },
{
    let ti = match squad.table_position(table_shortname) {
        Some(t) => t,
        None => return None,
    };
    let n = squad.tables[ti].n_records_slot;
    let mut i: usize = 0;
    while i < n
        invariant
            squad.wf(),
            readable(*squad),
            squad.spec_table_index(table_shortname@) == Some(ti as int),
            ti < squad.tables@.len(),
            n == squad.tables@[ti as int].n_records_slot,
            i <= n,
            first_record_with(*squad, table_shortname@, field_name@, value, 0, n as int) == first_record_with(
                *squad,
                table_shortname@,
                field_name@,
                value,
                i as int,
                n as int,
            ),
        decreases n - i,
    {
        if int_field(squad, table_shortname, i, field_name) == Some(value) {
            return Some(i);
        }
        i = i + 1;
    }
    None
}

pub open spec fn opt_int(r: Option<usize>) -> Option<int> {
    match r {
        Some(x) => Some(x as int),
        None => None,
    }
}

/// The short name of the first table with schema name `real_name`.
pub fn table_shortname_by_name(squad: &SquadFile, real_name: &str) -> (r: Option<String>)
    ensures
        match first_named_table(squad.tables@, real_name@, 0) {
            Some(i) => r matches Some(s) && s@ == squad.tables@[i].shortname@,
            None => r is None,
        },
{
    match squad.table_by_name(real_name) {
        Some(t) => Some(t.shortname.clone()),
        None => None,
    }
}

/// The first live record from `from` on, below `upto`, whose integer field `teamid` is `team_id`.
pub open spec fn first_live_with(squad: SquadFile, ts: Seq<char>, name: Seq<char>, value: i64, from: int, upto: int) -> Option<int>
    decreases upto - from,
{
    first_record_with(squad, ts, name, value, from, upto)
}

/// The table with schema name `real_name` and its first live record whose `teamid` is
/// `team_id`.
pub open spec fn spec_team_record(squad: SquadFile, real_name: Seq<char>, team_id: i64) -> Option<(Seq<char>, int)> {
    match first_named_table(squad.tables@, real_name, 0) {
        Some(i) => {
            let ts = squad.tables@[i].shortname@;
            match squad.spec_table_index(ts) {
                Some(ti) => match first_record_with(squad, ts, "teamid"@, team_id, 0, squad.tables@[ti].n_written_records as int) {
                    Some(k) => Some((ts, k)),
                    None => None,
                },
                None => None,
            }
        },
        None => None,
    }
}

/// The table with schema name `real_name` and its first live record whose `teamid` is
/// `team_id`.
fn find_team_record(squad: &SquadFile, real_name: &str, team_id: i64) -> (r: Option<(String, usize)>)
    requires
        squad.wf(),
        readable(*squad),
    ensures
        match spec_team_record(*squad, real_name@, team_id) {
            Some((ts, k)) => r matches Some((s, i)) && s@ == ts && i as int == k,
            None => r is None,
        },
{
    let shortname = match table_shortname_by_name(squad, real_name) {
        Some(s) => s,
        None => return None,
    };
    proof {
        crate::squad::lemma_first_named_bounds(squad.tables@, real_name@, 0);
        let i = first_named_table(squad.tables@, real_name@, 0).unwrap();
        crate::squad::lemma_table_found(squad.tables@, shortname@, i);
    }
    let indices = squad.written_record_indices(shortname.as_str());
    let ghost n = indices@.len();
    assert(spec_team_record(*squad, real_name@, team_id) == match first_record_with(*squad, shortname@, "teamid"@, team_id, 0, n as int) {
        Some(k) => Some((shortname@, k)),
        None => None,
    });
    let mut k: usize = 0;
    while k < indices.len()
        invariant
            squad.wf(),
            readable(*squad),
            spec_team_record(*squad, real_name@, team_id) == match first_record_with(*squad, shortname@, "teamid"@, team_id, 0, n as int) {
                Some(k) => Some((shortname@, k)),
                None => None,
            },
            k <= indices@.len(),
            n == indices@.len(),
            forall|x: int| 0 <= x < indices@.len() ==> #[trigger] indices@[x] == x,
            first_record_with(*squad, shortname@, "teamid"@, team_id, 0, n as int) == first_record_with(
                *squad,
                shortname@,
                "teamid"@,
                team_id,
                k as int,
                n as int,
            ),
        decreases indices@.len() - k,
    {
        let i = indices[k];
        if int_field(squad, shortname.as_str(), i, "teamid") == Some(team_id) {
            return Some((shortname, i));
        }
        k = k + 1;
    }
    None
}

/// The formation of a team: the `formations` table and the first record whose `teamid` is the
/// team's.
pub fn find_team_formation(squad: &SquadFile, team_id: i64) -> (r: Option<(String, usize)>)
    requires
        squad.wf(),
        readable(*squad),
    ensures
        match spec_team_record(*squad, "formations"@, team_id) {
            Some((ts, k)) => r matches Some((s, i)) && s@ == ts && i as int == k,
            None => r is None,
        },
{
    find_team_record(squad, "formations", team_id)
}

/// The saved line-up of a team: the `default_teamsheets` table and the first record whose
/// `teamid` is the team's.
pub fn find_teamsheet(squad: &SquadFile, team_id: i64) -> (r: Option<(String, usize)>)
    requires
        squad.wf(),
        readable(*squad),
    ensures
        match spec_team_record(*squad, "default_teamsheets"@, team_id) {
            Some((ts, k)) => r matches Some((s, i)) && s@ == ts && i as int == k,
            None => r is None,
        },
{
    find_team_record(squad, "default_teamsheets", team_id)
}

/// The text of an integer-numbered field name: the prefix, then the number.
pub open spec fn numbered(prefix: Seq<char>, n: nat) -> Seq<char> {
    prefix + nat_decimal(n)
}

/// The name `prefix` followed by the decimal `n`, with `suffix` after it.
fn numbered_name(prefix: &str, n: usize, suffix: &str) -> (r: String)
    ensures
        r@ == prefix@ + nat_decimal(n as nat) + suffix@,
{
    let mut s = to_owned_string(prefix);
    push_u64(&mut s, n as u64);
    push_str(&mut s, suffix);
    s
}

/// How many leading line-up slots `playerid0`, `playerid1`, ... (at most 61) a table has.
pub open spec fn spec_slot_count(t: TableInfo, k: int) -> int
    decreases 61 - k,
{
    if k < 0 || k > 60 || t.spec_field_index(numbered("playerid"@, k as nat)) is None {
        0
    } else {
        1 + spec_slot_count(t, k + 1)
    }
}

/// How many line-up slots the table `sheets` has: the fields `playerid0`, `playerid1`, ...
/// that it has without a gap, at most 61.
pub fn teamsheet_slot_count(squad: &SquadFile, sheets: &str) -> (r: usize)
    ensures
        r == match squad.spec_table_index(sheets@) {
            Some(ti) => spec_slot_count(squad.tables@[ti], 0),
            None => 0,
        },
{
    let ti = match squad.table_position(sheets) {
        Some(t) => t,
        None => return 0,
    };
    let table = &squad.tables[ti];
    let mut i: usize = 0;
    while i <= 60
        invariant
            i <= 61,
            squad.spec_table_index(sheets@) == Some(ti as int),
            ti < squad.tables@.len(),
            *table == squad.tables@[ti as int],
            spec_slot_count(*table, 0) == i + spec_slot_count(*table, i as int),
        decreases 61 - i,
    {
        let name = numbered_name("playerid", i, "");
        proof {
            reveal_strlit("");
        }
        assert(name@ == numbered("playerid"@, i as nat));
        if table.field(name.as_str()).is_none() {
            return i;
        }
        i = i + 1;
    }
    i
}

/// Defenders, midfielders and attackers of the first `k` outfield slots `position1`..: a
/// position code 1 to 8 is a defender, 9 to 19 a midfielder, 20 to 27 an attacker.
pub open spec fn shape_counts(squad: SquadFile, ts: Seq<char>, idx: int, k: int) -> (nat, nat, nat)
    decreases k,
{
    if k <= 0 {
        (0, 0, 0)
    } else {
        let p = shape_counts(squad, ts, idx, k - 1);
        match spec_int_field(squad, ts, idx, numbered("position"@, k as nat)) {
            Some(pos) => if 1 <= pos <= 8 {
                (p.0 + 1, p.1, p.2)
            } else if 9 <= pos <= 19 {
                (p.0, p.1 + 1, p.2)
            } else if 20 <= pos <= 27 {
                (p.0, p.1, p.2 + 1)
            } else {
                p
            },
            None => p,
        }
    }
}

/// The shape of a formation, as `defenders-midfielders-attackers` over its ten outfield slots.
pub fn formation_shape(squad: &SquadFile, shortname: &str, index: usize) -> (r: String)
    requires
        squad.wf(),
        readable(*squad),
    ensures
        ({
            let c = shape_counts(*squad, shortname@, index as int, 10);
            r@ == nat_decimal(c.0) + seq!['-'] + nat_decimal(c.1) + seq!['-'] + nat_decimal(c.2)
        }),
{
    let mut defenders: u64 = 0;
    let mut midfielders: u64 = 0;
    let mut attackers: u64 = 0;
    let mut slot: usize = 1;
    while slot <= 10
        invariant
            squad.wf(),
            readable(*squad),
            1 <= slot <= 11,
            defenders + midfielders + attackers <= slot - 1,
            (defenders as nat, midfielders as nat, attackers as nat) == shape_counts(*squad, shortname@, index as int, slot - 1),
        decreases 11 - slot,
    {
        let name = numbered_name("position", slot, "");
        proof {
            reveal_strlit("");
        }
        assert(name@ == numbered("position"@, slot as nat));
        match int_field(squad, shortname, index, name.as_str()) {
            Some(pos) => {
                if 1 <= pos && pos <= 8 {
                    defenders = defenders + 1;
                } else if 9 <= pos && pos <= 19 {
                    midfielders = midfielders + 1;
                } else if 20 <= pos && pos <= 27 {
                    attackers = attackers + 1;
                }
            },
            None => {},
        }
        slot = slot + 1;
    }
    let mut s = String::new();
    push_u64(&mut s, defenders);
    crate::text::push_char(&mut s, '-');
    push_u64(&mut s, midfielders);
    crate::text::push_char(&mut s, '-');
    push_u64(&mut s, attackers);
    assert(s@ =~= nat_decimal(defenders as nat) + seq!['-'] + nat_decimal(midfielders as nat) + seq!['-'] + nat_decimal(attackers as nat));
    s
}

/// The texts joined with `, `.
pub open spec fn joined(names: Seq<Seq<char>>) -> Seq<char>
    decreases names.len(),
{
    if names.len() == 0 {
        Seq::empty()
    } else if names.len() == 1 {
        names[0]
    } else {
        joined(names.drop_last()) + ", "@ + names.last()
    }
}

/// The message shown after an import: the counts, then the unknown columns if there are any.
pub open spec fn import_message(r: ImportReport) -> Seq<char> {
    let counts = "Import complete: "@ + nat_decimal(r.cells_updated as nat) + " cells updated, "@
        + nat_decimal(r.cells_failed as nat) + " failed, "@ + nat_decimal(r.rows_skipped as nat) + " rows skipped"@;
    if r.unknown_columns@.len() == 0 {
        counts
    } else {
        counts + " - unknown columns: "@ + joined(texts(r.unknown_columns@))
    }
}

/// The message shown after an import.
pub fn format_import_report(report: &ImportReport) -> (r: String)
    ensures
        r@ == import_message(*report),
{
    let mut s = to_owned_string("Import complete: ");
    push_u64(&mut s, report.cells_updated as u64);
    push_str(&mut s, " cells updated, ");
    push_u64(&mut s, report.cells_failed as u64);
    push_str(&mut s, " failed, ");
    push_u64(&mut s, report.rows_skipped as u64);
    push_str(&mut s, " rows skipped");
    if report.unknown_columns.len() > 0 {
        push_str(&mut s, " - unknown columns: ");
        let ghost names = texts(report.unknown_columns@);
        let ghost head = s@;
        let mut i: usize = 0;
        while i < report.unknown_columns.len()
            invariant
                i <= report.unknown_columns@.len(),
                names == texts(report.unknown_columns@),
                s@ == head + joined(names.take(i as int)),
            decreases report.unknown_columns@.len() - i,
        {
            if i > 0 {
                push_str(&mut s, ", ");
            }
            push_str(&mut s, report.unknown_columns[i].as_str());
            proof {
                assert(names.take(i + 1).drop_last() =~= names.take(i as int));
                assert(names.take(i + 1).last() == report.unknown_columns@[i as int]@);
                if i == 0 {
                    assert(names.take(1) =~= seq![names[0]]);
                }
            }
            assert(s@ =~= head + joined(names.take(i + 1)));
            i = i + 1;
        }
        assert(names.take(i as int) =~= names);
    }
    s
}

// ---------------------------------------------------------------------------------------
// Line-ups and formations
// ---------------------------------------------------------------------------------------

/// The player id in slot `s` of line-up record `idx`.
pub open spec fn slot_player_id(squad: SquadFile, sheets: Seq<char>, idx: int, s: int) -> Option<i64> {
    spec_int_field(squad, sheets, idx, numbered("playerid"@, s as nat))
}

/// The first slot from `from` on, below `count` and other than `target`, that holds `player`.
pub open spec fn other_slot_of(squad: SquadFile, sheets: Seq<char>, idx: int, target: int, player: i64, from: int, count: int) -> Option<int>
    decreases count - from,
{
    if from < 0 || from >= count {
        None
    } else if from != target && slot_player_id(squad, sheets, idx, from) == Some(player) {
        Some(from)
    } else {
        other_slot_of(squad, sheets, idx, target, player, from + 1, count)
    }
}

/// What putting a player into a line-up slot did.
#[derive(Debug, PartialEq, Eq, Structural)]
pub enum SlotChange {
    /// The player was already in that slot; nothing changed.
    AlreadyThere,
    /// The player replaced the slot's player.
    Replaced { applied: usize, failed: usize },
    /// The player came from another slot, which now holds the slot's former player.
    Swapped { other_slot: usize, applied: usize, failed: usize },
}

/// The slot other than `target` that holds `player`, among the table's line-up slots.
pub open spec fn player_other_slot(squad: SquadFile, sheets: Seq<char>, idx: int, target: int, player: i64) -> Option<int> {
    let count = match squad.spec_table_index(sheets) {
        Some(ti) => spec_slot_count(squad.tables@[ti], 0),
        None => 0,
    };
    other_slot_of(squad, sheets, idx, target, player, 0, count)
}

/// The player in slot `target`, or `-1` when there is none.
pub open spec fn current_slot_player(squad: SquadFile, sheets: Seq<char>, idx: int, target: int) -> i64 {
    match slot_player_id(squad, sheets, idx, target) {
        Some(v) => v,
        None => -1i64,
    }
}

/// The writes that putting `player` into slot `target` asks for: the slot gets the player, and
/// a slot that held the player before gets the slot's former player.
pub open spec fn slot_writes(squad: SquadFile, sheets: Seq<char>, idx: int, target: int, player: i64) -> Seq<(int, Seq<char>, FieldValue)> {
    let first = seq![(idx, numbered("playerid"@, target as nat), FieldValue::Int(player))];
    match player_other_slot(squad, sheets, idx, target, player) {
        Some(o) => first.push((idx, numbered("playerid"@, o as nat), FieldValue::Int(current_slot_player(squad, sheets, idx, target)))),
        None => first,
    }
}

/// The bytes after a batch of writes to table `ts`, with its checksum refreshed if any write
/// was accepted, and how many were accepted.
pub open spec fn batch_result(squad: SquadFile, ts: Seq<char>, ups: Seq<(int, Seq<char>, FieldValue)>) -> (Seq<u8>, int) {
    let b = writes_fold(squad.tables@, squad.buf@, ts, ups, ups.len() as int);
    (if b.1 > 0 { crate::edit::crc_refreshed(b.0, squad.tables@[squad.spec_table_index(ts).unwrap()]) } else { b.0 }, b.1)
}

/// Puts player `new_player_id` into slot `target_slot` of line-up record `sheet_index` of
/// table `sheets`. If the slot already holds the player nothing changes; if another slot holds
/// the player, the two slots swap; otherwise the slot's player is replaced. The writes go in one
/// batch.
pub fn assign_player_to_slot(squad: &mut SquadFile, sheets: &str, sheet_index: usize, target_slot: usize, new_player_id: i64) -> (r: (SlotChange, Vec<crate::session::FieldChange>))
    requires
        old(squad).wf(),
        readable(*old(squad)),
        table_importable(*old(squad), sheets@),
    ensures
        same_layout(*final(squad), *old(squad)),
        ({
            let cur = current_slot_player(*old(squad), sheets@, sheet_index as int, target_slot as int);
            if cur == new_player_id {
                r.0 == SlotChange::AlreadyThere && r.1@.len() == 0 && final(squad).buf@ == old(squad).buf@
            } else {
                let ups = slot_writes(*old(squad), sheets@, sheet_index as int, target_slot as int, new_player_id);
                let b = batch_result(*old(squad), sheets@, ups);
                &&& final(squad).buf@ == b.0
                &&& crate::session::views_as(r.1@, crate::session::pre_snapshots(old(squad).tables@, old(squad).buf@, sheets@, ups, ups.len() as int))
                &&& r.0 == match player_other_slot(*old(squad), sheets@, sheet_index as int, target_slot as int, new_player_id) {
                    Some(o) => SlotChange::Swapped { other_slot: o as usize, applied: b.1 as usize, failed: (2 - b.1) as usize },
                    None => SlotChange::Replaced { applied: b.1 as usize, failed: (1 - b.1) as usize },
                }
            }
        }),
{
    let ghost sq = *squad;
    let slot_count = teamsheet_slot_count(squad, sheets);
    let target_name = numbered_name("playerid", target_slot, "");
    proof {
        reveal_strlit("");
    }
    let current = match int_field(squad, sheets, sheet_index, target_name.as_str()) {
        Some(v) => v,
        None => -1,
    };
    if current == new_player_id {
        return (SlotChange::AlreadyThere, Vec::new());
    }
    let mut existing: Option<usize> = None;
    let mut s: usize = 0;
    while s < slot_count && existing.is_none()
        invariant
            squad.wf(),
            readable(*squad),
            *squad == sq,
            s <= slot_count,
            existing matches Some(o) ==> other_slot_of(sq, sheets@, sheet_index as int, target_slot as int, new_player_id, 0, slot_count as int) == Some(o as int) && o < slot_count,
            existing is None ==> other_slot_of(sq, sheets@, sheet_index as int, target_slot as int, new_player_id, 0, slot_count as int)
                == other_slot_of(sq, sheets@, sheet_index as int, target_slot as int, new_player_id, s as int, slot_count as int),
        decreases slot_count - s,
    {
        if s != target_slot {
            let name = numbered_name("playerid", s, "");
            proof {
                reveal_strlit("");
            }
            assert(name@ == numbered("playerid"@, s as nat));
            if int_field(squad, sheets, sheet_index, name.as_str()) == Some(new_player_id) {
                existing = Some(s);
            }
        }
        s = s + 1;
    }
    assert(existing is None ==> other_slot_of(sq, sheets@, sheet_index as int, target_slot as int, new_player_id, 0, slot_count as int) is None);
    assert(target_name@ == numbered("playerid"@, target_slot as nat));
    let ghost ups = slot_writes(sq, sheets@, sheet_index as int, target_slot as int, new_player_id);
    let mut updates: Vec<(usize, String, FieldValue)> = Vec::new();
    updates.push((sheet_index, target_name, FieldValue::Int(new_player_id)));
    match existing {
        Some(other) => {
            let other_name = numbered_name("playerid", other, "");
            assert(other_name@ == numbered("playerid"@, other as nat));
            updates.push((sheet_index, other_name, FieldValue::Int(current)));
        },
        None => {},
    }
    proof {
        assert(updates@.len() == ups.len());
        assert forall|i: int| 0 <= i < updates@.len() implies #[trigger] same_write(updates@[i], ups[i]) by {}
        lemma_writes_fold(sq.tables@, sq.buf@, sheets@, updates@, ups, ups.len() as int);
        let ti = sq.spec_table_index(sheets@);
        crate::squad::lemma_last_table_bounds(sq.tables@, sheets@, sq.tables@.len() as int);
        assert forall|k: int| 0 <= k < updates@.len() implies squad.can_write(sheets@, #[trigger] updates@[k].1@) by {
            match ti {
                Some(t) => {
                    let tb = sq.tables@[t];
                    match tb.spec_field_index(updates@[k].1@) {
                        Some(fi) => {
                            crate::model::lemma_first_field_bounds(tb.fields@, updates@[k].1@, 0);
                            assert(crate::edit::field_writable(tb, tb.fields@[fi]));
                        },
                        None => {},
                    }
                },
                None => {},
            }
        }
    }
    let mut entry: Vec<crate::session::FieldChange> = Vec::new();
    let mut k: usize = 0;
    while k < updates.len()
        invariant
            squad.wf(),
            readable(*squad),
            *squad == sq,
            k <= updates@.len(),
            updates@.len() == ups.len(),
            forall|i: int| 0 <= i < updates@.len() ==> #[trigger] same_write(updates@[i], ups[i]),
            crate::session::views_as(entry@, crate::session::pre_snapshots(sq.tables@, sq.buf@, sheets@, ups, k as int)),
        decreases updates@.len() - k,
    {
        let idx = updates[k].0;
        let name = updates[k].1.as_str();
        assert(same_write(updates@[k as int], ups[k as int]));
        assert(squad.can_read(sheets@, idx as int, name@));
        let ghost before = entry@;
        if let Some(b) = crate::session::snapshot(squad, sheets, idx, name) {
            entry.push(b);
        }
        proof {
            let f = crate::session::pre_snapshots(sq.tables@, sq.buf@, sheets@, ups, k + 1);
            assert forall|i: int| 0 <= i < entry@.len() implies {
                &&& (#[trigger] entry@[i]).table@ == f[i].0
                &&& entry@[i].record_index as int == f[i].1
                &&& entry@[i].field_name@ == f[i].2
                &&& value_as(entry@[i].old_value, f[i].3)
            } by {
                if i < before.len() {
                    assert(entry@[i] == before[i]);
                }
            }
        }
        k = k + 1;
    }
    let (applied, failed) = squad.set_fields_batch(sheets, updates.as_slice());
    let change = match existing {
        Some(other) => SlotChange::Swapped { other_slot: other, applied, failed },
        None => SlotChange::Replaced { applied, failed },
    };
    (change, entry)
}

/// The value that `get_field` reads from bytes `buf` laid out as `tables` describes, a string
/// taken by its text; none where it fails.
pub open spec fn value_in(tables: Seq<TableInfo>, buf: Seq<u8>, ts: Seq<char>, idx: int, name: Seq<char>) -> Option<FieldValue> {
    match crate::squad::last_table_index(tables, ts, tables.len() as int) {
        Some(ti) => {
            let t = tables[ti];
            match t.spec_field_index(name) {
                Some(fi) => {
                    let f = t.fields@[fi];
                    let rs = record_start(t, idx);
                    let bo8 = f.bit_offset as int / 8;
                    if 0 <= idx < t.n_records_slot {
                        match f.field_type {
                            FieldType::Integer => Some(FieldValue::Int(
                                (bits_value(buf.skip(rs), f.bit_offset as int, f.depth as nat) + f.rangelow) as i64,
                            )),
                            FieldType::Float => Some(FieldValue::Float(u32le(buf, rs + bo8))),
                            FieldType::String => Some(str_value(utf8_text(until_nul(buf.subrange(rs + bo8, rs + bo8 + f.depth as int / 8))))),
                            FieldType::ShortCompressedString | FieldType::LongCompressedString => Some(
                                str_value(utf8_text(compressed_text_bytes(buf, t, f, idx))),
                            ),
                            FieldType::Unknown(_) => None,
                        }
                    } else {
                        None
                    }
                },
                None => None,
            }
        },
        None => None,
    }
}

/// The value that `get_field` reads, a string taken by its text; none where it fails.
pub open spec fn spec_field_value(squad: SquadFile, ts: Seq<char>, idx: int, name: Seq<char>) -> Option<FieldValue> {
    value_in(squad.tables@, squad.buf@, ts, idx, name)
}

/// `v` is the value `sv` stands for: the same value, or a string with the text of `sv`.
pub open spec fn value_as(v: FieldValue, sv: FieldValue) -> bool {
    v == sv || (str_text(v) is Some && sv == str_value(str_text(v).unwrap()))
}

/// The value of a field, or none where `get_field` fails.
pub(crate) fn read_value(squad: &SquadFile, ts: &str, idx: usize, name: &str) -> (r: Option<FieldValue>)
    requires
        squad.wf(),
        readable(*squad),
    ensures
        match spec_field_value(*squad, ts@, idx as int, name@) {
            Some(sv) => r matches Some(v) && value_as(v, sv),
            None => r is None,
        },
{
    assert(squad.can_read(ts@, idx as int, name@));
    match squad.get_field(ts, idx, name) {
        Ok(v) => Some(v),
        Err(_) => None,
    }
}

/// The name of field `j` of the 44 fields a formation preset copies: for each slot 0 to 10 its
/// position, its x and y offsets and its role.
pub open spec fn preset_field(j: int) -> Seq<char> {
    let s = (j / 4) as nat;
    let kind = j % 4;
    if kind == 0 {
        "position"@ + nat_decimal(s) + ""@
    } else if kind == 1 {
        "offset"@ + nat_decimal(s) + "x"@
    } else if kind == 2 {
        "offset"@ + nat_decimal(s) + "y"@
    } else {
        "pos"@ + nat_decimal(s) + "role"@
    }
}

/// The writes that copying the first `k` preset fields of record `preset` to record `target`
/// asks for: every field that can be read.
pub open spec fn preset_writes(squad: SquadFile, ts: Seq<char>, preset: int, target: int, k: int) -> Seq<(int, Seq<char>, FieldValue)>
    decreases k,
{
    if k <= 0 {
        Seq::empty()
    } else {
        let p = preset_writes(squad, ts, preset, target, k - 1);
        match spec_field_value(squad, ts, preset, preset_field(k - 1)) {
            Some(v) => p.push((target, preset_field(k - 1), v)),
            None => p,
        }
    }
}

/// The name of a formation preset when it is text.
pub open spec fn preset_name(squad: SquadFile, ts: Seq<char>, preset: int) -> Option<Seq<char>> {
    match spec_field_value(squad, ts, preset, "formationname"@) {
        Some(v) => str_text(v),
        None => None,
    }
}

/// Every write of a formation preset: its 44 slot fields, then its name when it is text.
pub open spec fn all_preset_writes(squad: SquadFile, ts: Seq<char>, preset: int, target: int) -> Seq<(int, Seq<char>, FieldValue)> {
    let w = preset_writes(squad, ts, preset, target, 44);
    match preset_name(squad, ts, preset) {
        Some(n) => w.push((target, "formationname"@, str_value(n))),
        None => w,
    }
}

/// Copies a formation preset (record `preset_index`) onto a team's formation (record
/// `target_index`) of the formations table `shortname`: the position, offsets and role of each
/// of the 11 slots, and the formation's name, in one batch. Gives the writes accepted and
/// refused, the name copied (empty when the preset has none), and the values the written
/// fields had before, which undo the batch.
pub fn apply_formation_preset(squad: &mut SquadFile, shortname: &str, preset_index: usize, target_index: usize) -> (r: (usize, usize, String, Vec<crate::session::FieldChange>))
    requires
        old(squad).wf(),
        readable(*old(squad)),
        table_importable(*old(squad), shortname@),
    ensures
        same_layout(*final(squad), *old(squad)),
        ({
            let ups = all_preset_writes(*old(squad), shortname@, preset_index as int, target_index as int);
            let b = batch_result(*old(squad), shortname@, ups);
            &&& final(squad).buf@ == b.0
            &&& r.0 == b.1
            &&& r.0 + r.1 == ups.len()
            &&& r.2@ == match preset_name(*old(squad), shortname@, preset_index as int) {
                Some(n) => n,
                None => Seq::empty(),
            }
            &&& crate::session::views_as(r.3@, crate::session::pre_snapshots(old(squad).tables@, old(squad).buf@, shortname@, ups, ups.len() as int))
        }),
{
    let ghost sq = *squad;
    let mut updates: Vec<(usize, String, FieldValue)> = Vec::new();
    let mut j: usize = 0;
    while j < 44
        invariant
            squad.wf(),
            readable(*squad),
            *squad == sq,
            j <= 44,
            updates@.len() == preset_writes(sq, shortname@, preset_index as int, target_index as int, j as int).len(),
            forall|i: int| 0 <= i < updates@.len() ==> #[trigger] same_write(updates@[i], preset_writes(sq, shortname@, preset_index as int, target_index as int, j as int)[i]),
        decreases 44 - j,
    {
        let slot = j / 4;
        let kind = j % 4;
        let name = if kind == 0 {
            numbered_name("position", slot, "")
        } else if kind == 1 {
            numbered_name("offset", slot, "x")
        } else if kind == 2 {
            numbered_name("offset", slot, "y")
        } else {
            numbered_name("pos", slot, "role")
        };
        assert(name@ == preset_field(j as int));
        let ghost prev = preset_writes(sq, shortname@, preset_index as int, target_index as int, j as int);
        match read_value(squad, shortname, preset_index, name.as_str()) {
            Some(v) => {
                updates.push((target_index, name, v));
                proof {
                    let next = preset_writes(sq, shortname@, preset_index as int, target_index as int, j + 1);
                    assert forall|i: int| 0 <= i < updates@.len() implies #[trigger] same_write(updates@[i], next[i]) by {
                        if i < prev.len() {
                            assert(same_write(updates@[i], prev[i]));
                        }
                    }
                }
            },
            None => {},
        }
        j = j + 1;
    }
    let ghost w = preset_writes(sq, shortname@, preset_index as int, target_index as int, 44);
    let mut copied = String::new();
    match read_value(squad, shortname, preset_index, "formationname") {
        Some(FieldValue::Str(n)) => {
            copied = n.clone();
            updates.push((target_index, to_owned_string("formationname"), FieldValue::Str(n)));
            proof {
                let all = all_preset_writes(sq, shortname@, preset_index as int, target_index as int);
                assert forall|i: int| 0 <= i < updates@.len() implies #[trigger] same_write(updates@[i], all[i]) by {
                    if i < w.len() {
                        assert(same_write(updates@[i], w[i]));
                    }
                }
            }
        },
        _ => {},
    }
    let ghost ups = all_preset_writes(sq, shortname@, preset_index as int, target_index as int);
    proof {
        assert(updates@.len() == ups.len());
        lemma_writes_fold(sq.tables@, sq.buf@, shortname@, updates@, ups, ups.len() as int);
        let ti = sq.spec_table_index(shortname@);
        crate::squad::lemma_last_table_bounds(sq.tables@, shortname@, sq.tables@.len() as int);
        assert forall|k: int| 0 <= k < updates@.len() implies squad.can_write(shortname@, #[trigger] updates@[k].1@) by {
            match ti {
                Some(t) => {
                    let tb = sq.tables@[t];
                    match tb.spec_field_index(updates@[k].1@) {
                        Some(fi) => {
                            crate::model::lemma_first_field_bounds(tb.fields@, updates@[k].1@, 0);
                            assert(crate::edit::field_writable(tb, tb.fields@[fi]));
                        },
                        None => {},
                    }
                },
                None => {},
            }
        }
    }
    let mut entry: Vec<crate::session::FieldChange> = Vec::new();
    let mut k: usize = 0;
    while k < updates.len()
        invariant
            squad.wf(),
            readable(*squad),
            *squad == sq,
            k <= updates@.len(),
            updates@.len() == ups.len(),
            forall|i: int| 0 <= i < updates@.len() ==> #[trigger] same_write(updates@[i], ups[i]),
            crate::session::views_as(entry@, crate::session::pre_snapshots(sq.tables@, sq.buf@, shortname@, ups, k as int)),
        decreases updates@.len() - k,
    {
        let idx = updates[k].0;
        let name = updates[k].1.as_str();
        assert(same_write(updates@[k as int], ups[k as int]));
        assert(squad.can_read(shortname@, idx as int, name@));
        let ghost before = entry@;
        if let Some(b) = crate::session::snapshot(squad, shortname, idx, name) {
            entry.push(b);
        }
        proof {
            let f = crate::session::pre_snapshots(sq.tables@, sq.buf@, shortname@, ups, k + 1);
            assert forall|i: int| 0 <= i < entry@.len() implies {
                &&& (#[trigger] entry@[i]).table@ == f[i].0
                &&& entry@[i].record_index as int == f[i].1
                &&& entry@[i].field_name@ == f[i].2
                &&& value_as(entry@[i].old_value, f[i].3)
            } by {
                if i < before.len() {
                    assert(entry@[i] == before[i]);
                }
            }
        }
        k = k + 1;
    }
    let (applied, failed) = squad.set_fields_batch(shortname, updates.as_slice());
    (applied, failed, copied, entry)
}

// ---------------------------------------------------------------------------------------
// Copying and applying field values
// ---------------------------------------------------------------------------------------

/// The bytes and counts after setting, one field at a time with the checksum refreshed after
/// each, the first `k` of `updates` into record `idx` of table `ts`.
pub open spec fn set_fold(tables: Seq<TableInfo>, buf: Seq<u8>, ts: Seq<char>, t: TableInfo, idx: int, updates: Seq<(Seq<char>, Option<FieldValue>)>, k: int) -> (Seq<u8>, int, int)
    decreases k,
{
    if k <= 0 {
        (buf, 0, 0)
    } else {
        let p = set_fold(tables, buf, ts, t, idx, updates, k - 1);
        match updates[k - 1].1 {
            Some(v) => {
                let w = spec_write(tables, p.0, ts, idx, updates[k - 1].0, v);
                if w.0 {
                    (crate::edit::crc_refreshed(w.1, t), p.1 + 1, p.2)
                } else {
                    (p.0, p.1, p.2 + 1)
                }
            },
            None => (p.0, p.1, p.2 + 1),
        }
    }
}

/// The names and values of a list of field updates.
pub open spec fn field_updates_view(v: Seq<(String, FieldValue)>) -> Seq<(Seq<char>, Option<FieldValue>)> {
    v.map_values(|u: (String, FieldValue)| (u.0@, Some(u.1)))
}

/// Sets each field of `updates` in record `record_index` of table `table_shortname`, refreshing
/// the checksum after each accepted write; gives the writes accepted and refused.
pub fn apply_field_updates(squad: &mut SquadFile, table_shortname: &str, record_index: usize, updates: Vec<(String, FieldValue)>) -> (r: (usize, usize))
    requires
        old(squad).wf(),
        table_importable(*old(squad), table_shortname@),
        old(squad).spec_table_index(table_shortname@) is Some,
    ensures
        same_layout(*final(squad), *old(squad)),
        ({
            let t = old(squad).tables@[old(squad).spec_table_index(table_shortname@).unwrap()];
            let f = set_fold(old(squad).tables@, old(squad).buf@, table_shortname@, t, record_index as int, field_updates_view(updates@), updates@.len() as int);
            &&& final(squad).buf@ == f.0
            &&& r.0 == f.1
            &&& r.1 == f.2
        }),
{
    let ghost tables = squad.tables@;
    let ghost buf0 = squad.buf@;
    let ghost t = tables[squad.spec_table_index(table_shortname@).unwrap()];
    let ghost uv = field_updates_view(updates@);
    let mut applied: usize = 0;
    let mut failed: usize = 0;
    let mut i: usize = 0;
    proof {
        crate::squad::lemma_last_table_bounds(tables, table_shortname@, tables.len() as int);
    }
    while i < updates.len()
        invariant
            same_layout(*squad, *old(squad)),
            table_importable(*squad, table_shortname@),
            squad.tables@ == tables,
            tables == old(squad).tables@,
            buf0 == old(squad).buf@,
            squad.spec_table_index(table_shortname@) is Some,
            t == tables[squad.spec_table_index(table_shortname@).unwrap()],
            0 <= squad.spec_table_index(table_shortname@).unwrap() < tables.len(),
            uv == field_updates_view(updates@),
            i <= updates@.len(),
            applied + failed == i,
            ({
                let f = set_fold(tables, buf0, table_shortname@, t, record_index as int, uv, i as int);
                &&& squad.buf@ == f.0
                &&& applied == f.1
                &&& failed == f.2
            }),
        decreases updates@.len() - i,
    {
        let (name, value) = (&updates[i].0, updates[i].1.clone());
        proof {
            match t.spec_field_index(name@) {
                Some(fi) => {
                    crate::model::lemma_first_field_bounds(t.fields@, name@, 0);
                    assert(crate::edit::field_writable(t, t.fields@[fi]));
                },
                None => {},
            }
        }
        match squad.set_field(table_shortname, record_index, name.as_str(), value) {
            Ok(()) => applied = applied + 1,
            Err(_) => failed = failed + 1,
        }
        i = i + 1;
    }
    (applied, failed)
}

/// The names of a table's fields with the values they have in record `src` of table `ts` of
/// `reference`.
pub open spec fn reference_values(reference: SquadFile, ts: Seq<char>, src: int, fields: Seq<crate::model::FieldDescriptor>) -> Seq<(Seq<char>, Option<FieldValue>)> {
    fields.map_values(|f: crate::model::FieldDescriptor| (f.name@, spec_field_value(reference, ts, src, f.name@)))
}

/// Copies record `source_index` of table `table_shortname` of `reference` into record
/// `dest_index` of the same table of `squad`, field by field over `squad`'s fields, refreshing
/// the checksum after each accepted write. Gives the fields copied and not copied, or none when
/// `squad` has no such table.
pub fn clone_record(squad: &mut SquadFile, reference: &SquadFile, table_shortname: &str, source_index: usize, dest_index: usize) -> (r: Option<(usize, usize)>)
    requires
        old(squad).wf(),
        reference.wf(),
        readable(*reference),
        table_importable(*old(squad), table_shortname@),
    ensures
        same_layout(*final(squad), *old(squad)),
        match old(squad).spec_table_index(table_shortname@) {
            None => r is None && final(squad).buf@ == old(squad).buf@,
            Some(ti) => {
                let t = old(squad).tables@[ti];
                let vals = reference_values(*reference, table_shortname@, source_index as int, t.fields@);
                let f = set_fold(old(squad).tables@, old(squad).buf@, table_shortname@, t, dest_index as int, vals, vals.len() as int);
                &&& r == Some((f.1 as usize, f.2 as usize))
                &&& final(squad).buf@ == f.0
            },
        },
{
    let ti = match squad.table_position(table_shortname) {
        Some(i) => i,
        None => return None,
    };
    let ghost tables = squad.tables@;
    let ghost buf0 = squad.buf@;
    let ghost t = tables[ti as int];
    let ghost vals = reference_values(*reference, table_shortname@, source_index as int, t.fields@);
    let nf = squad.tables[ti].fields.len();
    let mut copied: usize = 0;
    let mut failed: usize = 0;
    let mut j: usize = 0;
    while j < nf
        invariant
            same_layout(*squad, *old(squad)),
            reference.wf(),
            readable(*reference),
            table_importable(*squad, table_shortname@),
            squad.tables@ == tables,
            tables == old(squad).tables@,
            buf0 == old(squad).buf@,
            squad.spec_table_index(table_shortname@) == Some(ti as int),
            ti < tables.len(),
            t == tables[ti as int],
            nf == t.fields@.len(),
            vals == reference_values(*reference, table_shortname@, source_index as int, t.fields@),
            j <= nf,
            copied + failed == j,
            ({
                let f = set_fold(tables, buf0, table_shortname@, t, dest_index as int, vals, j as int);
                &&& squad.buf@ == f.0
                &&& copied == f.1
                &&& failed == f.2
            }),
        decreases nf - j,
    {
        let name = squad.tables[ti].fields[j].name.clone();
        let ghost before = squad.buf@;
        match read_value(reference, table_shortname, source_index, name.as_str()) {
            Some(value) => {
                let ghost gv = value;
                proof {
                    match t.spec_field_index(name@) {
                        Some(fi) => {
                            crate::model::lemma_first_field_bounds(t.fields@, name@, 0);
                            assert(crate::edit::field_writable(t, t.fields@[fi]));
                        },
                        None => {},
                    }
                    let sv = vals[j as int].1.unwrap();
                    if gv != sv {
                        crate::tsv::lemma_write_str_view(tables, before, table_shortname@, dest_index as int, name@, gv, str_text(gv).unwrap());
                    }
                }
                match squad.set_field(table_shortname, dest_index, name.as_str(), value) {
                    Ok(()) => copied = copied + 1,
                    Err(_) => failed = failed + 1,
                }
            },
            None => failed = failed + 1,
        }
        j = j + 1;
    }
    Some((copied, failed))
}

// ---------------------------------------------------------------------------------------
// Searching records
// ---------------------------------------------------------------------------------------

/// What `char::is_alphanumeric` says of a character.
pub uninterp spec fn char_alphanumeric(c: char) -> bool;

/// What `char::to_lowercase` gives for a character.
pub uninterp spec fn char_lowercase(c: char) -> Seq<char>;

/// A control character: the general category Cc, which `char::is_control` tests.
pub open spec fn char_control(c: char) -> bool {
    let u = c as u32;
    u <= 0x1f || (0x7f <= u && u <= 0x9f)
}

/// Whether a character is alphanumeric (`char::is_alphanumeric`).
#[verifier::external_body]
fn is_alphanumeric(c: char) -> (r: bool)
    ensures
        r == char_alphanumeric(c),
{
    c.is_alphanumeric()
}

/// The lowercase form of a character (`char::to_lowercase`), as a string.
#[verifier::external_body]
fn to_lowercase(c: char) -> (r: String)
    ensures
        r@ == char_lowercase(c),
{
    c.to_lowercase().collect()
}

/// Whether a character is a control character (general category Cc, as `char::is_control`
/// tests).
fn is_control(c: char) -> (r: bool)
    ensures
        r == char_control(c),
{
    let u = c as u32;
    u <= 0x1f || (0x7f <= u && u <= 0x9f)
}

/// A letter with an accent or stroke as its base letter.
pub open spec fn base_letter(c: char) -> char {
    if c == '\u{e0}' || c == '\u{e1}' || c == '\u{e2}' || c == '\u{e3}' || c == '\u{e4}' || c == '\u{e5}' || c == '\u{101}' || c == '\u{103}' || c == '\u{105}' {
        'a'
    } else if c == '\u{e8}' || c == '\u{e9}' || c == '\u{ea}' || c == '\u{eb}' || c == '\u{113}' || c == '\u{115}' || c == '\u{117}' || c == '\u{119}' || c == '\u{11b}' {
        'e'
    } else if c == '\u{ec}' || c == '\u{ed}' || c == '\u{ee}' || c == '\u{ef}' || c == '\u{12b}' || c == '\u{12f}' {
        'i'
    } else if c == '\u{f2}' || c == '\u{f3}' || c == '\u{f4}' || c == '\u{f5}' || c == '\u{f6}' || c == '\u{f8}' || c == '\u{14d}' {
        'o'
    } else if c == '\u{f9}' || c == '\u{fa}' || c == '\u{fb}' || c == '\u{fc}' || c == '\u{16b}' || c == '\u{16f}' {
        'u'
    } else if c == '\u{e7}' || c == '\u{107}' || c == '\u{10d}' {
        'c'
    } else if c == '\u{f1}' || c == '\u{144}' || c == '\u{148}' {
        'n'
    } else if c == '\u{15f}' || c == '\u{15b}' || c == '\u{161}' {
        's'
    } else if c == '\u{17e}' || c == '\u{17a}' || c == '\u{17c}' {
        'z'
    } else if c == '\u{fd}' || c == '\u{ff}' {
        'y'
    } else if c == '\u{11f}' {
        'g'
    } else if c == '\u{142}' {
        'l'
    } else if c == '\u{165}' || c == '\u{21b}' {
        't'
    } else if c == '\u{10f}' {
        'd'
    } else if c == '\u{159}' {
        'r'
    } else if c == '\u{111}' {
        'd'
    } else {
        c
    }
}

fn base_letter_exec(c: char) -> (r: char)
    ensures
        r == base_letter(c),
{
    match c {
        '\u{e0}' | '\u{e1}' | '\u{e2}' | '\u{e3}' | '\u{e4}' | '\u{e5}' | '\u{101}' | '\u{103}' | '\u{105}' => 'a',
        '\u{e8}' | '\u{e9}' | '\u{ea}' | '\u{eb}' | '\u{113}' | '\u{115}' | '\u{117}' | '\u{119}' | '\u{11b}' => 'e',
        '\u{ec}' | '\u{ed}' | '\u{ee}' | '\u{ef}' | '\u{12b}' | '\u{12f}' => 'i',
        '\u{f2}' | '\u{f3}' | '\u{f4}' | '\u{f5}' | '\u{f6}' | '\u{f8}' | '\u{14d}' => 'o',
        '\u{f9}' | '\u{fa}' | '\u{fb}' | '\u{fc}' | '\u{16b}' | '\u{16f}' => 'u',
        '\u{e7}' | '\u{107}' | '\u{10d}' => 'c',
        '\u{f1}' | '\u{144}' | '\u{148}' => 'n',
        '\u{15f}' | '\u{15b}' | '\u{161}' => 's',
        '\u{17e}' | '\u{17a}' | '\u{17c}' => 'z',
        '\u{fd}' | '\u{ff}' => 'y',
        '\u{11f}' => 'g',
        '\u{142}' => 'l',
        '\u{165}' | '\u{21b}' => 't',
        '\u{10f}' => 'd',
        '\u{159}' => 'r',
        '\u{111}' => 'd',
        other => other,
    }
}

/// A text prepared for searching: accents dropped, everything but letters and digits removed,
/// lowercase.
pub open spec fn normalized(s: Seq<char>) -> Seq<char>
    decreases s.len(),
{
    if s.len() == 0 {
        s
    } else {
        let prev = normalized(s.drop_last());
        let m = base_letter(s.last());
        if char_alphanumeric(m) {
            prev + char_lowercase(m)
        } else {
            prev
        }
    }
}

/// Prepares a text for searching: accents dropped, only letters and digits kept, lowercase.
pub fn normalize_search(input: &str) -> (r: String)
    ensures
        r@ == normalized(input@),
{
    let cs = crate::text::chars_of(input);
    let mut out = String::new();
    let mut i: usize = 0;
    while i < cs.len()
        invariant
            cs@ == input@,
            i <= cs@.len(),
            out@ == normalized(input@.take(i as int)),
        decreases cs@.len() - i,
    {
        let m = base_letter_exec(cs[i]);
        if is_alphanumeric(m) {
            let lower = to_lowercase(m);
            push_str(&mut out, lower.as_str());
        }
        assert(input@.take(i + 1).drop_last() =~= input@.take(i as int));
        assert(input@.take(i + 1).last() == cs@[i as int]);
        i = i + 1;
    }
    assert(input@.take(i as int) =~= input@);
    out
}

/// A character that could reorder or break a label when shown.
pub open spec fn layout_control(c: char) -> bool {
    c == '\u{2028}' || c == '\u{2029}' || ('\u{202a}' <= c && c <= '\u{202e}') || ('\u{2066}' <= c && c <= '\u{2069}')
}

/// A label without control characters and without line or paragraph separators and bidirectional
/// formatting characters.
pub open spec fn sanitized(s: Seq<char>) -> Seq<char>
    decreases s.len(),
{
    if s.len() == 0 {
        s
    } else {
        let prev = sanitized(s.drop_last());
        if char_control(s.last()) || layout_control(s.last()) {
            prev
        } else {
            prev.push(s.last())
        }
    }
}

/// Removes the characters that could break the display of a label.
pub fn sanitize_label(raw: &str) -> (r: String)
    ensures
        r@ == sanitized(raw@),
{
    let cs = crate::text::chars_of(raw);
    let mut out = String::new();
    let mut i: usize = 0;
    while i < cs.len()
        invariant
            cs@ == raw@,
            i <= cs@.len(),
            out@ == sanitized(raw@.take(i as int)),
        decreases cs@.len() - i,
    {
        let c = cs[i];
        let layout = c == '\u{2028}' || c == '\u{2029}' || ('\u{202a}' <= c && c <= '\u{202e}') || ('\u{2066}' <= c && c <= '\u{2069}');
        if !(is_control(c) || layout) {
            crate::text::push_char(&mut out, c);
        }
        assert(raw@.take(i + 1).drop_last() =~= raw@.take(i as int));
        assert(raw@.take(i + 1).last() == c);
        i = i + 1;
    }
    assert(raw@.take(i as int) =~= raw@);
    out
}

/// `needle` occurs in `hay` at position `i`.
pub open spec fn occurs_at(needle: Seq<char>, hay: Seq<char>, i: int) -> bool {
    0 <= i && i + needle.len() <= hay.len() && hay.subrange(i, i + needle.len()) == needle
}

/// `needle` occurs somewhere in `hay`.
pub open spec fn contains_text(hay: Seq<char>, needle: Seq<char>) -> bool {
    exists|i: int| #[trigger] occurs_at(needle, hay, i)
}

/// Whether `needle` occurs in `hay`.
pub(crate) fn contains_chars(hay: &Vec<char>, needle: &Vec<char>) -> (r: bool)
    ensures
        r == contains_text(hay@, needle@),
{
    if needle.len() == 0 {
        assert(hay@.subrange(0, 0) =~= needle@);
        assert(occurs_at(needle@, hay@, 0));
        return true;
    }
    if needle.len() > hay.len() {
        proof {
            assert forall|i: int| !#[trigger] occurs_at(needle@, hay@, i) by {}
        }
        return false;
    }
    let last = hay.len() - needle.len();
    let mut i: usize = 0;
    while i <= last
        invariant
            1 <= needle@.len() <= hay@.len(),
            hay@.len() <= usize::MAX,
            last == hay@.len() - needle@.len(),
            i <= last + 1,
            forall|k: int| 0 <= k < i ==> !#[trigger] occurs_at(needle@, hay@, k),
        decreases last + 1 - i,
    {
        let mut j: usize = 0;
        let mut same = true;
        while j < needle.len()
            invariant
                1 <= needle@.len() <= hay@.len(),
                hay@.len() <= usize::MAX,
                i <= last,
                last == hay@.len() - needle@.len(),
                j <= needle@.len(),
                same == (forall|k: int| 0 <= k < j ==> hay@[i + k] == #[trigger] needle@[k]),
            decreases needle@.len() - j,
        {
            if same && hay[i + j] != needle[j] {
                same = false;
            }
            j = j + 1;
        }
        if same {
            assert(hay@.subrange(i as int, i + needle@.len()) =~= needle@);
            assert(occurs_at(needle@, hay@, i as int));
            return true;
        }
        proof {
            if occurs_at(needle@, hay@, i as int) {
                assert forall|k: int| 0 <= k < needle@.len() implies hay@[i + k] == #[trigger] needle@[k] by {
                    assert(hay@.subrange(i as int, i + needle@.len())[k] == hay@[i + k]);
                }
            }
        }
        i = i + 1;
    }
    false
}

/// The text of a string field, where `get_field` reads one.
pub open spec fn spec_field_text(squad: SquadFile, ts: Seq<char>, idx: int, name: Seq<char>) -> Option<Seq<char>> {
    match squad.spec_table_index(ts) {
        Some(ti) => {
            let t = squad.tables@[ti];
            match t.spec_field_index(name) {
                Some(fi) => {
                    let f = t.fields@[fi];
                    let rs = record_start(t, idx);
                    let bo8 = f.bit_offset as int / 8;
                    if 0 <= idx < t.n_records_slot {
                        match f.field_type {
                            FieldType::String => Some(utf8_text(until_nul(squad.buf@.subrange(rs + bo8, rs + bo8 + f.depth as int / 8)))),
                            FieldType::ShortCompressedString | FieldType::LongCompressedString => Some(
                                utf8_text(compressed_text_bytes(squad.buf@, t, f, idx)),
                            ),
                            _ => None,
                        }
                    } else {
                        None
                    }
                },
                None => None,
            }
        },
        None => None,
    }
}

/// The text of a string field, or none.
pub(crate) fn read_text(squad: &SquadFile, ts: &str, idx: usize, name: &str) -> (r: Option<String>)
    requires
        squad.wf(),
        readable(*squad),
    ensures
        match spec_field_text(*squad, ts@, idx as int, name@) {
            Some(t) => r matches Some(s) && s@ == t,
            None => r is None,
        },
{
    assert(squad.can_read(ts@, idx as int, name@));
    match squad.get_field(ts, idx, name) {
        Ok(FieldValue::Str(s)) => Some(s),
        _ => None,
    }
}

/// A field of type `ft` named `name` matches a search: an integer field equal to the number
/// searched for, or a string field whose normalized text contains the normalized query.
pub open spec fn field_matches(squad: SquadFile, ft: FieldType, ts: Seq<char>, idx: int, name: Seq<char>, query_num: Option<i64>, query: Seq<char>) -> bool {
    match ft {
        FieldType::Integer => query_num matches Some(n) && spec_int_field(squad, ts, idx, name) == Some(n),
        FieldType::String | FieldType::ShortCompressedString | FieldType::LongCompressedString => spec_field_text(
            squad,
            ts,
            idx,
            name,
        ) matches Some(t) && contains_text(normalized(t), query),
        _ => false,
    }
}

/// A record matches a search when one of the fields of `table` does.
pub open spec fn record_matches(squad: SquadFile, table: TableInfo, ts: Seq<char>, idx: int, query_num: Option<i64>, query: Seq<char>) -> bool {
    exists|j: int| 0 <= j < table.fields@.len() && #[trigger] field_matches(squad, table.fields@[j].field_type, ts, idx, table.fields@[j].name@, query_num, query)
}

/// Whether record `record_index` matches a search for `query_num` (integer fields) or
/// `query_lower` (normalized string fields).
pub fn record_matches_search(squad: &SquadFile, table: &TableInfo, table_shortname: &str, record_index: usize, query_num: Option<i64>, query_lower: &str) -> (r: bool)
    requires
        squad.wf(),
        readable(*squad),
    ensures
        r == record_matches(*squad, *table, table_shortname@, record_index as int, query_num, query_lower@),
{
    let q = crate::text::chars_of(query_lower);
    let mut j: usize = 0;
    while j < table.fields.len()
        invariant
            squad.wf(),
            readable(*squad),
            q@ == query_lower@,
            j <= table.fields@.len(),
            forall|k: int| 0 <= k < j ==> !#[trigger] field_matches(*squad, table.fields@[k].field_type, table_shortname@, record_index as int, table.fields@[k].name@, query_num, query_lower@),
        decreases table.fields@.len() - j,
    {
        let field = &table.fields[j];
        let hit = match field.field_type {
            FieldType::Integer => match query_num {
                Some(qn) => int_field(squad, table_shortname, record_index, field.name.as_str()) == Some(qn),
                None => false,
            },
            FieldType::String | FieldType::ShortCompressedString | FieldType::LongCompressedString => {
                match read_text(squad, table_shortname, record_index, field.name.as_str()) {
                    Some(s) => {
                        let n = normalize_search(s.as_str());
                        let nc = crate::text::chars_of(n.as_str());
                        contains_chars(&nc, &q)
                    },
                    None => false,
                }
            },
            _ => false,
        };
        if hit {
            assert(field_matches(*squad, table.fields@[j as int].field_type, table_shortname@, record_index as int, table.fields@[j as int].name@, query_num, query_lower@));
            return true;
        }
        j = j + 1;
    }
    false
}

/// The indices among the first `k` of `ids` whose record matches the search, in order.
pub open spec fn matching_indices(squad: SquadFile, table: TableInfo, ts: Seq<char>, ids: Seq<usize>, query_num: Option<i64>, query: Seq<char>, k: int) -> Seq<usize>
    decreases k,
{
    if k <= 0 {
        Seq::empty()
    } else {
        let prev = matching_indices(squad, table, ts, ids, query_num, query, k - 1);
        if record_matches(squad, table, ts, ids[k - 1] as int, query_num, query) {
            prev.push(ids[k - 1])
        } else {
            prev
        }
    }
}

/// The rows of `indices` that match a search typed as `query`: every row for a blank query;
/// else those with an integer field equal to the query read as a number, or a string field
/// whose normalized text contains the normalized query.
pub fn filtered_row_indices(squad: &SquadFile, table: &TableInfo, table_shortname: &str, indices: &[usize], query: &str) -> (r: Vec<usize>)
    requires
        squad.wf(),
        readable(*squad),
    ensures
        ({
            let q = crate::text::trimmed(query@);
            if q.len() == 0 {
                r@ == indices@
            } else {
                let qn = match crate::text::spec_parse_int(vstd::utf8::encode_utf8(q), i64::MIN as int, i64::MAX as int) {
                    Some(v) => Some(v as i64),
                    None => None,
                };
                r@ == matching_indices(*squad, *table, table_shortname@, indices@, qn, normalized(q), indices@.len() as int)
            }
        }),
{
    let q = crate::text::trim(query);
    let mut out: Vec<usize> = Vec::new();
    if q.is_empty() {
        let mut i: usize = 0;
        while i < indices.len()
            invariant
                i <= indices@.len(),
                out@ == indices@.take(i as int),
            decreases indices@.len() - i,
        {
            out.push(indices[i]);
            assert(out@ =~= indices@.take(i + 1));
            i = i + 1;
        }
        assert(indices@.take(i as int) =~= indices@);
        return out;
    }
    let query_num = crate::text::parse_i64_bytes(q.as_bytes());
    let query_lower = normalize_search(q);
    let ghost qn = match crate::text::spec_parse_int(vstd::utf8::encode_utf8(q@), i64::MIN as int, i64::MAX as int) {
        Some(v) => Some(v as i64),
        None => None,
    };
    assert(query_num == qn);
    let mut i: usize = 0;
    while i < indices.len()
        invariant
            squad.wf(),
            readable(*squad),
            query_num == qn,
            query_lower@ == normalized(q@),
            i <= indices@.len(),
            out@ == matching_indices(*squad, *table, table_shortname@, indices@, qn, normalized(q@), i as int),
        decreases indices@.len() - i,
    {
        let idx = indices[i];
        if record_matches_search(squad, table, table_shortname, idx, query_num, query_lower.as_str()) {
            out.push(idx);
        }
        i = i + 1;
    }
    out
}

// ---------------------------------------------------------------------------------------
// Dates
// ---------------------------------------------------------------------------------------

/// The days between the game's day zero (1582-10-14) and 1970-01-01.
pub const EA_EPOCH_OFFSET: i64 = 141428;

/// The calendar date `(year, month, day)` of a positive day count of the game's calendar, by
/// the proleptic Gregorian civil-from-days computation on 400-year eras.
pub open spec fn ea_civil_date(ea_days: int) -> (int, int, int) {
    let z = ea_days - 141428 + 719468;
    let era = z / 146097;
    let doe = z - era * 146097;
    let yoe = (doe - doe / 1460 + doe / 36524 - doe / 146096) / 365;
    let y = yoe + era * 400;
    let doy = doe - (365 * yoe + yoe / 4 - yoe / 100);
    let mp = (5 * doy + 2) / 153;
    let d = doy - (153 * mp + 2) / 5 + 1;
    let m = if mp < 10 { mp + 3 } else { mp - 9 };
    (if m <= 2 { y + 1 } else { y }, m, d)
}

/// The decimal digits of `n`, with leading zeros up to `width` digits.
pub open spec fn zero_padded(n: nat, width: nat) -> Seq<char> {
    let digits = nat_decimal(n);
    if digits.len() >= width {
        digits
    } else {
        Seq::new((width - digits.len()) as nat, |i: int| '0') + digits
    }
}

/// Appends the decimal digits of `n` with leading zeros up to `width` digits.
fn push_padded(s: &mut String, n: u64, width: usize)
    ensures
        final(s)@ == old(s)@ + zero_padded(n as nat, width as nat),
{
    let mut digits = String::new();
    push_u64(&mut digits, n);
    let len = digits.as_str().unicode_len();
    let ghost before = s@;
    if len < width {
        let mut k: usize = 0;
        while k < width - len
            invariant
                len < width,
                k <= width - len,
                s@ == before + Seq::new(k as nat, |i: int| '0'),
            decreases width - len - k,
        {
            crate::text::push_char(s, '0');
            assert(s@ =~= before + Seq::new((k + 1) as nat, |i: int| '0'));
            k = k + 1;
        }
    }
    push_str(s, digits.as_str());
    assert(s@ =~= before + zero_padded(n as nat, width as nat));
}

/// The ISO date (`YYYY-MM-DD`) of a day count of the game's calendar; empty for a count that
/// is not positive.
#[verifier::rlimit(40)]
pub fn ea_date_to_iso(ea_days: i64) -> (r: String)
    requires
        ea_days <= i64::MAX - 578040,
    ensures
        ea_days <= 0 ==> r@.len() == 0,
        ea_days > 0 ==> ({
            let (y, m, d) = ea_civil_date(ea_days as int);
            &&& y >= 0
            &&& r@ == zero_padded(y as nat, 4) + seq!['-'] + zero_padded(m as nat, 2) + seq!['-'] + zero_padded(d as nat, 2)
        }),
{
    if ea_days <= 0 {
        return String::new();
    }
    let unix_days = ea_days - EA_EPOCH_OFFSET;
    let z = unix_days + 719468;
    let era = z / 146097;
    assert(0 <= era * 146097 <= z) by (nonlinear_arith)
        requires
            z >= 0,
            era == z / 146097,
    ;
    assert(z - era * 146097 < 146097) by (nonlinear_arith)
        requires
            z >= 0,
            era == z / 146097,
    ;
    let doe = z - era * 146097;
    let yoe = (doe - doe / 1460 + doe / 36524 - doe / 146096) / 365;
    assert(0 <= yoe <= 400) by (nonlinear_arith)
        requires
            0 <= doe < 146097,
            yoe == (doe - doe / 1460 + doe / 36524 - doe / 146096) / 365,
    ;
    let y = yoe + era * 400;
    assert(era <= z / 146097);
    assert(era * 400 <= z) by (nonlinear_arith)
        requires
            0 <= era * 146097 <= z,
            era >= 0,
    ;
    let doy = doe - (365 * yoe + yoe / 4 - yoe / 100);
    assert(-146500 <= doy <= 146097);
    let mp = (5 * doy + 2) / 153;
    let d = doy - (153 * mp + 2) / 5 + 1;
    let m = if mp < 10 {
        mp + 3
    } else {
        mp - 9
    };
    let year = if m <= 2 {
        y + 1
    } else {
        y
    };
    proof {
        let (sy, sm, sd) = ea_civil_date(ea_days as int);
        assert(sy == year && sm == m && sd == d);
    }
    assert(year >= 0);
    assert(m >= 0 && d >= 0) by {
        assert(0 <= doy) by (nonlinear_arith)
            requires
                0 <= doe < 146097,
                yoe == (doe - doe / 1460 + doe / 36524 - doe / 146096) / 365,
                doy == doe - (365 * yoe + yoe / 4 - yoe / 100),
        ;
        assert(0 <= mp <= 11) by (nonlinear_arith)
            requires
                0 <= doy <= 365,
                mp == (5 * doy + 2) / 153,
        ;
    }
    let mut s = String::new();
    push_padded(&mut s, year as u64, 4);
    crate::text::push_char(&mut s, '-');
    push_padded(&mut s, m as u64, 2);
    crate::text::push_char(&mut s, '-');
    push_padded(&mut s, d as u64, 2);
    s
}

} // verus!
