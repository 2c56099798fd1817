//! Historical player cards read from a comma-separated export, one card per player and game
//! version, and the fields of a card as values for a player record.
use std::collections::HashMap;
use vstd::prelude::*;
use vstd::std_specs::hash::group_hash_axioms;
use vstd::string::StringSliceAdditionalSpecFns;
use vstd::utf8::encode_utf8;

use crate::csv::{byte_texts, csv_fields, parse_csv_bytes, string_texts};
use crate::model::FieldValue;
use crate::strmap::StrMap;
use crate::text::{to_owned_string, lossy_string, parse_i32_bytes, parse_i64_bytes, spec_parse_int, str_eq, trim, trimmed, utf8_text};
use crate::tsv::{lemma_next_byte, line_at, lines_from, next_byte, next_byte_exec};

verus! {

broadcast use group_hash_axioms;

/// One historical card: the game version it belongs to and its values by column name.
pub struct HistoricalCard {
    pub fifa_version: i32,
    pub fields: StrMap<String>,
}

/// The cards of each player, newest game version first.
pub struct HistoricalDatabase {
    cards: HashMap<i64, Vec<HistoricalCard>>,
}

/// A card as plain values: its version and its texts by column name.
pub type CardView = (i32, Map<Seq<char>, Seq<char>>);

/// The texts of a map of strings.
pub open spec fn text_map(m: Map<Seq<char>, String>) -> Map<Seq<char>, Seq<char>> {
    m.map_values(|s: String| s@)
}

pub open spec fn card_view(c: HistoricalCard) -> CardView {
    (c.fifa_version, text_map(c.fields@))
}

/// The views of a list of cards.
pub open spec fn cards_view(v: Seq<HistoricalCard>) -> Seq<CardView> {
    v.map_values(|c: HistoricalCard| card_view(c))
}

impl HistoricalDatabase {
    /// The cards of each player.
    pub closed spec fn spec_cards(&self) -> Map<i64, Seq<CardView>> {
        self.cards@.map_values(|v: Vec<HistoricalCard>| cards_view(v@))
    }
}

// ---------------------------------------------------------------------------------------
// What a history file holds
// ---------------------------------------------------------------------------------------

/// The first column from `from` on named `name`.
pub open spec fn column_pos(columns: Seq<Seq<char>>, name: Seq<char>, from: int) -> Option<int>
    decreases columns.len() - from,
{
    if from < 0 || from >= columns.len() {
        None
    } else if columns[from] == name {
        Some(from)
    } else {
        column_pos(columns, name, from + 1)
    }
}

/// The integer in column `idx` of a row, or 0 when there is no such column or it does not
/// read as an integer of `lo..=hi`.
pub open spec fn cell_int(values: Seq<Seq<char>>, idx: Option<int>, lo: int, hi: int) -> int {
    match idx {
        Some(i) => if 0 <= i < values.len() {
            match spec_parse_int(encode_utf8(values[i]), lo, hi) {
                Some(v) => v,
                None => 0,
            }
        } else {
            0
        },
        None => 0,
    }
}

/// The values of a row by column name, for the first `k` columns that the row has a value for;
/// a later column of the same name wins.
pub open spec fn row_fields(columns: Seq<Seq<char>>, values: Seq<Seq<char>>, k: int) -> Map<Seq<char>, Seq<char>>
    decreases k,
{
    if k <= 0 {
        Map::empty()
    } else {
        let m = row_fields(columns, values, k - 1);
        if k - 1 < values.len() {
            m.insert(columns[k - 1], values[k - 1])
        } else {
            m
        }
    }
}

/// The first position from `from` on of a card of version `ver`.
pub open spec fn version_pos(list: Seq<(CardView, i32)>, ver: i32, from: int) -> Option<int>
    decreases list.len() - from,
{
    if from < 0 || from >= list.len() {
        None
    } else if list[from].0.0 == ver {
        Some(from)
    } else {
        version_pos(list, ver, from + 1)
    }
}

proof fn lemma_version_pos(list: Seq<(CardView, i32)>, ver: i32, from: int)
    requires
        0 <= from,
    ensures
        version_pos(list, ver, from) matches Some(i) ==> from <= i < list.len() && list[i].0.0 == ver,
        version_pos(list, ver, from) is None ==> forall|j: int| from <= j < list.len() ==> #[trigger] list[j].0.0 != ver,
    decreases list.len() - from,
{
    if from < list.len() {
        lemma_version_pos(list, ver, from + 1);
    }
}

/// Where the columns a history file needs are: the player id (the first column when there is
/// none), the game version and the update number.
pub struct HistoryColumns {
    pub player_id: usize,
    pub fifa_version: Option<usize>,
    pub fifa_update: Option<usize>,
}

/// The cards so far, each with the update it came from, after one more row. A row with no
/// readable player id is passed over; a row replaces the card of its player and version
/// unless that card came from a later update.
pub open spec fn history_step(
    st: Map<i64, Seq<(CardView, i32)>>,
    columns: Seq<Seq<char>>,
    cols: HistoryColumns,
    line: Seq<u8>,
) -> Map<i64, Seq<(CardView, i32)>> {
    if trimmed(utf8_text(line)).len() == 0 {
        st
    } else {
        let values = byte_texts(csv_fields(line));
        if cols.player_id >= values.len() {
            st
        } else {
            match spec_parse_int(encode_utf8(values[cols.player_id as int]), i64::MIN as int, i64::MAX as int) {
                None => st,
                Some(pid) => {
                    let ver = cell_int(values, opt_index(cols.fifa_version), i32::MIN as int, i32::MAX as int) as i32;
                    let upd = cell_int(values, opt_index(cols.fifa_update), i32::MIN as int, i32::MAX as int) as i32;
                    let list = if st.contains_key(pid as i64) {
                        st[pid as i64]
                    } else {
                        Seq::empty()
                    };
                    let p = version_pos(list, ver, 0);
                    let latest: int = match p {
                        Some(i) => list[i].1 as int,
                        None => -1,
                    };
                    if upd < latest {
                        st
                    } else {
                        let card = ((ver, row_fields(columns, values, columns.len() as int)), upd);
                        let newlist = match p {
                            Some(i) => list.update(i, card),
                            None => list.push(card),
                        };
                        st.insert(pid as i64, newlist)
                    }
                }
            }
        }
    }
}

pub open spec fn opt_index(i: Option<usize>) -> Option<int> {
    match i {
        Some(x) => Some(x as int),
        None => None,
    }
}

/// The cards after the first `k` rows.
pub open spec fn history_fold(rows: Seq<Seq<u8>>, k: int, columns: Seq<Seq<char>>, cols: HistoryColumns) -> Map<i64, Seq<(CardView, i32)>>
    decreases k,
{
    if k <= 0 {
        Map::empty()
    } else {
        history_step(history_fold(rows, k - 1, columns, cols), columns, cols, rows[k - 1])
    }
}

/// The number of leading cards of `s` whose version is not below `v`.
pub open spec fn desc_insert_pos(s: Seq<CardView>, v: i32, from: int) -> int
    decreases s.len() - from,
{
    if from < 0 || from >= s.len() || s[from].0 < v {
        from
    } else {
        desc_insert_pos(s, v, from + 1)
    }
}

/// The cards sorted by descending version, keeping cards of equal version in their order.
pub open spec fn sort_desc(s: Seq<CardView>) -> Seq<CardView>
    decreases s.len(),
{
    if s.len() == 0 {
        s
    } else {
        let t = sort_desc(s.drop_last());
        t.insert(desc_insert_pos(t, s.last().0, 0), s.last())
    }
}

/// The header's columns.
pub open spec fn header_columns(b: Seq<u8>) -> Seq<Seq<char>> {
    let ls = lines_from(b, 0);
    byte_texts(csv_fields(if ls.len() > 0 { ls[0] } else { Seq::empty() }))
}

/// The positions of the columns a history file needs.
pub open spec fn history_columns(columns: Seq<Seq<char>>) -> HistoryColumns {
    HistoryColumns {
        player_id: match column_pos(columns, "player_id"@, 0) {
            Some(i) => i as usize,
            None => 0,
        },
        fifa_version: match column_pos(columns, "fifa_version"@, 0) {
            Some(i) => Some(i as usize),
            None => None,
        },
        fifa_update: match column_pos(columns, "fifa_update"@, 0) {
            Some(i) => Some(i as usize),
            None => None,
        },
    }
}

/// The cards of each player that a history file holds, newest version first.
pub open spec fn history_of(b: Seq<u8>) -> Map<i64, Seq<CardView>> {
    let ls = lines_from(b, 0);
    let columns = header_columns(b);
    let rows = if ls.len() > 0 { ls.drop_first() } else { Seq::empty() };
    let st = history_fold(rows, rows.len() as int, columns, history_columns(columns));
    st.map_values(|l: Seq<(CardView, i32)>| sort_desc(l.map_values(|x: (CardView, i32)| x.0)))
}

// ---------------------------------------------------------------------------------------
// Reading a history file
// ---------------------------------------------------------------------------------------

/// The position of the first column named `name`.
fn column_position(columns: &Vec<String>, name: &str) -> (r: Option<usize>)
    ensures
        opt_index(r) == column_pos(string_texts(columns@), name@, 0),
{
    let mut i: usize = 0;
    while i < columns.len()
        invariant
            i <= columns@.len(),
            column_pos(string_texts(columns@), name@, 0) == column_pos(string_texts(columns@), name@, i as int),
        decreases columns@.len() - i,
    {
        if str_eq(columns[i].as_str(), name) {
            return Some(i);
        }
        i = i + 1;
    }
    None
}

/// The integer in column `idx`, or 0.
fn cell_i32(values: &Vec<String>, idx: Option<usize>) -> (r: i32)
    ensures
        r as int == cell_int(string_texts(values@), opt_index(idx), i32::MIN as int, i32::MAX as int),
{
    match idx {
        Some(i) => if i < values.len() {
            match parse_i32_bytes(values[i].as_str().as_bytes()) {
                Some(v) => v,
                None => 0,
            }
        } else {
            0
        },
        None => 0,
    }
}

/// The values of a row by column name.
fn row_fields_exec(columns: &Vec<String>, values: &Vec<String>) -> (m: StrMap<String>)
    ensures
        text_map(m@) == row_fields(string_texts(columns@), string_texts(values@), columns@.len() as int),
{
    let mut m: StrMap<String> = StrMap::new();
    let mut i: usize = 0;
    assert(text_map(m@) =~= row_fields(string_texts(columns@), string_texts(values@), 0));
    while i < columns.len()
        invariant
            i <= columns@.len(),
            text_map(m@) == row_fields(string_texts(columns@), string_texts(values@), i as int),
        decreases columns@.len() - i,
    {
        if i < values.len() {
            let k = columns[i].clone();
            let v = values[i].clone();
            m.insert(k, v);
            assert(text_map(m@) =~= row_fields(string_texts(columns@), string_texts(values@), i + 1));
        }
        i = i + 1;
    }
    m
}

/// The cards of a working list as plain values, with their updates.
pub open spec fn work_list_view(v: Seq<(HistoricalCard, i32)>) -> Seq<(CardView, i32)> {
    v.map_values(|x: (HistoricalCard, i32)| (card_view(x.0), x.1))
}

/// The position of the first card of version `ver`.
fn version_position(list: &Vec<(HistoricalCard, i32)>, ver: i32) -> (r: Option<usize>)
    ensures
        opt_index(r) == version_pos(work_list_view(list@), ver, 0),
{
    let mut i: usize = 0;
    while i < list.len()
        invariant
            i <= list@.len(),
            version_pos(work_list_view(list@), ver, 0) == version_pos(work_list_view(list@), ver, i as int),
        decreases list@.len() - i,
    {
        if list[i].0.fifa_version == ver {
            return Some(i);
        }
        i = i + 1;
    }
    None
}

/// Sorts cards by descending version, keeping cards of equal version in their order.
fn sort_cards(list: Vec<(HistoricalCard, i32)>) -> (r: Vec<HistoricalCard>)
    ensures
        cards_view(r@) == sort_desc(work_list_view(list@).map_values(|x: (CardView, i32)| x.0)),
{
    let ghost all = work_list_view(list@).map_values(|x: (CardView, i32)| x.0);
    let mut rest = list;
    let mut out: Vec<HistoricalCard> = Vec::new();
    let ghost mut k: int = 0;
    assert(all.take(0) =~= Seq::<CardView>::empty());
    while rest.len() > 0
        invariant
            0 <= k <= all.len(),
            rest@.len() == all.len() - k,
            forall|j: int| 0 <= j < rest@.len() ==> #[trigger] card_view(rest@[j].0) == all[k + j],
            cards_view(out@) == sort_desc(all.take(k)),
        decreases rest@.len(),
    {
        let (card, _update) = rest.remove(0);
        assert(card_view(card) == all[k]);
        let v = card.fifa_version;
        let ghost t = cards_view(out@);
        let mut pos: usize = 0;
        while pos < out.len() && out[pos].fifa_version >= v
            invariant
                pos <= out@.len(),
                t == cards_view(out@),
                desc_insert_pos(t, v, 0) == desc_insert_pos(t, v, pos as int),
            decreases out@.len() - pos,
        {
            pos = pos + 1;
        }
        out.insert(pos, card);
        proof {
            assert(all.take(k + 1).drop_last() =~= all.take(k));
            assert(all.take(k + 1).last() == all[k]);
            assert(cards_view(out@) =~= t.insert(pos as int, all[k]));
            k = k + 1;
        }
    }
    assert(all.take(k) =~= all);
    out
}

/// The working state of a load: the cards of each player with the update each came from,
/// and the players in the order they first appeared.
pub open spec fn work_view(m: Map<i64, Vec<(HistoricalCard, i32)>>) -> Map<i64, Seq<(CardView, i32)>> {
    m.map_values(|v: Vec<(HistoricalCard, i32)>| work_list_view(v@))
}

/// Each player appears once in `order`, and exactly the players of `m` appear.
pub open spec fn order_ok(order: Seq<i64>, m: Map<i64, Vec<(HistoricalCard, i32)>>) -> bool {
    &&& forall|a: int, b: int| 0 <= a < b < order.len() ==> #[trigger] order[a] != #[trigger] order[b]
    &&& forall|a: int| 0 <= a < order.len() ==> m.contains_key(#[trigger] order[a])
    &&& forall|p: i64| #[trigger] m.contains_key(p) ==> order.contains(p)
}

/// Reads one row into the working state.
fn load_row(
    work: &mut HashMap<i64, Vec<(HistoricalCard, i32)>>,
    order: &mut Vec<i64>,
    columns: &Vec<String>,
    cols: &HistoryColumns,
    line: &[u8],
)
    requires
        order_ok(old(order)@, old(work)@),
    ensures
        order_ok(final(order)@, final(work)@),
        work_view(final(work)@) == history_step(work_view(old(work)@), string_texts(columns@), *cols, line@),
{
    let text = lossy_string(line);
    if trim(text.as_str()).is_empty() {
        return;
    }
    let values = parse_csv_bytes(line);
    let ghost vt = string_texts(values@);
    if cols.player_id >= values.len() {
        return;
    }
    let pid = match parse_i64_bytes(values[cols.player_id].as_str().as_bytes()) {
        Some(p) => p,
        None => return,
    };
    assert(vt[cols.player_id as int] == values@[cols.player_id as int]@);
    let ver = cell_i32(&values, cols.fifa_version);
    let upd = cell_i32(&values, cols.fifa_update);
    let ghost st = work_view(work@);
    let existing = work.remove(&pid);
    let was_present = existing.is_some();
    let mut list = match existing {
        Some(l) => l,
        None => Vec::new(),
    };
    proof {
        if !was_present {
            assert(work_list_view(list@) =~= Seq::<(CardView, i32)>::empty());
        }
    }
    let p = version_position(&list, ver);
    proof {
        lemma_version_pos(work_list_view(list@), ver, 0);
    }
    let latest: i64 = match p {
        Some(i) => list[i].1 as i64,
        None => -1,
    };
    if (upd as i64) < latest {
        if was_present {
            work.insert(pid, list);
            assert(work_view(work@) =~= st);
        } else {
            assert(work_view(work@) =~= st);
        }
        return;
    }
    let fields = row_fields_exec(columns, &values);
    let card = HistoricalCard { fifa_version: ver, fields };
    let ghost cv = (card_view(card), upd);
    let ghost lv = work_list_view(list@);
    match p {
        Some(i) => {
            list.set(i, (card, upd));
            assert(work_list_view(list@) =~= lv.update(i as int, cv));
        },
        None => {
            list.push((card, upd));
            assert(work_list_view(list@) =~= lv.push(cv));
        },
    }
    let ghost order0 = order@;
    if !was_present {
        order.push(pid);
    }
    work.insert(pid, list);
    proof {
        assert(work_view(work@) =~= history_step(st, string_texts(columns@), *cols, line@));
        assert forall|p2: i64| #[trigger] work@.contains_key(p2) implies order@.contains(p2) by {
            if p2 != pid {
                assert(old(work)@.contains_key(p2));
                assert(order0.contains(p2));
                let j = choose|j: int| 0 <= j < order0.len() && order0[j] == p2;
                assert(order@[j] == p2);
            } else if !was_present {
                assert(order@[order@.len() - 1] == pid);
            } else {
                assert(old(work)@.contains_key(pid));
            }
        }
    }
}

impl HistoricalDatabase {
    /// Reads a history file: a header line naming the columns (`player_id`, `fifa_version`,
    /// `fifa_update` and the card's values), then one card per line. For each player and
    /// version the card of the latest update is kept; each player's cards are sorted newest
    /// version first.
    pub fn from_csv(content: &str) -> (db: Self)
        ensures
            db.spec_cards() == history_of(content.spec_bytes()),
    {
        let b = content.as_bytes();
        let ghost ls = lines_from(b@, 0);
        let mut pos: usize = 0;
        let mut header_end: usize = 0;
        if b.len() > 0 {
            let e0 = next_byte_exec(b, 0, 10);
            header_end = if e0 > 0 && e0 < b.len() && b[e0 - 1] == 13 {
                e0 - 1
            } else {
                e0
            };
            pos = if e0 >= b.len() {
                b.len()
            } else {
                e0 + 1
            };
            proof {
                crate::tsv::lemma_line_len_pub(b@, 0);
            }
        }
        let columns = parse_csv_bytes(&b[0..header_end]);
        proof {
            if b@.len() > 0 {
                assert(b@.subrange(0, header_end as int) == ls[0]);
            } else {
                assert(b@.subrange(0, header_end as int) =~= Seq::<u8>::empty());
            }
        }
        let ghost ct = string_texts(columns@);
        assert(ct == header_columns(b@));
        let cols = HistoryColumns {
            player_id: match column_position(&columns, "player_id") {
                Some(i) => i,
                None => 0,
            },
            fifa_version: column_position(&columns, "fifa_version"),
            fifa_update: column_position(&columns, "fifa_update"),
        };
        assert(cols == history_columns(ct));
        let ghost rows = if ls.len() > 0 {
            ls.drop_first()
        } else {
            Seq::empty()
        };
        let mut work: HashMap<i64, Vec<(HistoricalCard, i32)>> = HashMap::new();
        let mut order: Vec<i64> = Vec::new();
        let ghost mut k: int = 0;
        proof {
            assert(rows =~= rows.take(0) + lines_from(b@, pos as int));
            assert(work_view(work@) =~= history_fold(rows, 0, ct, cols));
        }
        while pos < b.len()
            invariant
                pos <= b@.len(),
                ls == lines_from(b@, 0),
                ct == string_texts(columns@),
                0 <= k,
                k + lines_from(b@, pos as int).len() == rows.len(),
                rows =~= rows.take(k) + lines_from(b@, pos as int),
                order_ok(order@, work@),
                work_view(work@) == history_fold(rows, k, ct, cols),
            decreases b@.len() - pos,
        {
            let e = next_byte_exec(b, pos, 10);
            let le = if e > pos && e < b.len() && b[e - 1] == 13 {
                e - 1
            } else {
                e
            };
            let next = if e >= b.len() {
                b.len()
            } else {
                e + 1
            };
            let line = &b[pos..le];
            proof {
                crate::tsv::lemma_line_len_pub(b@, pos as int);
                assert(line@ == line_at(b@, pos as int));
                assert(rows[k] == line@);
                assert(rows =~= rows.take(k + 1) + lines_from(b@, next as int));
            }
            load_row(&mut work, &mut order, &columns, &cols, line);
            proof {
                k = k + 1;
            }
            pos = next;
        }
        let ghost st = history_fold(rows, k, ct, cols);
        assert(k == rows.len());
        let mut cards: HashMap<i64, Vec<HistoricalCard>> = HashMap::new();
        let mut j: usize = 0;
        while j < order.len()
            invariant
                j <= order@.len(),
                forall|a: int, c: int| 0 <= a < c < order@.len() ==> #[trigger] order@[a] != #[trigger] order@[c],
                forall|p: i64| #[trigger] st.contains_key(p) ==> order@.contains(p),
                forall|a: int| 0 <= a < order@.len() ==> st.contains_key(#[trigger] order@[a]),
                forall|a: int| j <= a < order@.len() ==> work@.contains_key(#[trigger] order@[a]),
                forall|p: i64| #[trigger] work@.contains_key(p) ==> work_view(work@)[p] == st[p],
                forall|p: i64| #[trigger] cards@.contains_key(p) <==> exists|a: int| 0 <= a < j && order@[a] == p,
                forall|p: i64| #[trigger] cards@.contains_key(p) ==> cards_view(cards@[p]@) == sort_desc(
                    st[p].map_values(|x: (CardView, i32)| x.0),
                ),
            decreases order@.len() - j,
        {
            let pid = order[j];
            let list = work.remove(&pid).unwrap();
            let sorted = sort_cards(list);
            cards.insert(pid, sorted);
            proof {
                assert forall|p: i64| #[trigger] cards@.contains_key(p) <==> exists|a: int| 0 <= a < j + 1 && order@[a] == p by {
                    if p == pid {
                        assert(order@[j as int] == p);
                    }
                }
                assert forall|a: int| j + 1 <= a < order@.len() implies work@.contains_key(#[trigger] order@[a]) by {
                    assert(order@[a] != order@[j as int]);
                }
            }
            j = j + 1;
        }
        let db = HistoricalDatabase { cards };
        proof {
            assert forall|p: i64| #[trigger] st.contains_key(p) implies cards@.contains_key(p) by {
                let a = choose|a: int| 0 <= a < order@.len() && order@[a] == p;
                assert(order@[a] == p);
            }
            assert(db.spec_cards() =~= history_of(b@));
        }
        db
    }

    /// The game versions of a player's cards, newest first; empty for an unknown player.
    pub fn versions_for(&self, player_id: i64) -> (r: Vec<i32>)
        ensures
            r@ == if self.spec_cards().contains_key(player_id) {
                self.spec_cards()[player_id].map_values(|c: CardView| c.0)
            } else {
                Seq::empty()
            },
    {
        let mut out: Vec<i32> = Vec::new();
        match self.cards.get(&player_id) {
            Some(list) => {
                let mut i: usize = 0;
                while i < list.len()
                    invariant
                        i <= list@.len(),
                        out@ =~= cards_view(list@).take(i as int).map_values(|c: CardView| c.0),
                    decreases list@.len() - i,
                {
                    out.push(list[i].fifa_version);
                    i = i + 1;
                }
                assert(cards_view(list@).take(i as int) =~= cards_view(list@));
                out
            },
            None => out,
        }
    }

    /// The card of a player for one game version.
    pub fn card_for(&self, player_id: i64, fifa_version: i32) -> (r: Option<&HistoricalCard>)
        ensures
            match r {
                Some(c) => self.spec_cards().contains_key(player_id) && first_card_of_version(self.spec_cards()[player_id], fifa_version, 0) is Some
                    && card_view(*c) == self.spec_cards()[player_id][first_card_of_version(self.spec_cards()[player_id], fifa_version, 0).unwrap()],
                None => !self.spec_cards().contains_key(player_id) || first_card_of_version(self.spec_cards()[player_id], fifa_version, 0) is None,
            },
    {
        let list = match self.cards.get(&player_id) {
            Some(l) => l,
            None => return None,
        };
        assert(self.cards@[player_id] == *list);
        assert(self.spec_cards()[player_id] == cards_view(list@));
        let mut i: usize = 0;
        while i < list.len()
            invariant
                i <= list@.len(),
                self.spec_cards().contains_key(player_id),
                self.spec_cards()[player_id] == cards_view(list@),
                first_card_of_version(cards_view(list@), fifa_version, 0) == first_card_of_version(cards_view(list@), fifa_version, i as int),
            decreases list@.len() - i,
        {
            if list[i].fifa_version == fifa_version {
                assert(cards_view(list@)[i as int].0 == fifa_version);
                return Some(&list[i]);
            }
            i = i + 1;
        }
        None
    }

    /// The number of players with at least one card.
    pub fn player_count(&self) -> (r: usize)
        ensures
            r == self.spec_cards().dom().len(),
    {
        assert(self.spec_cards().dom() =~= self.cards@.dom());
        self.cards.len()
    }
}

/// The first card from `from` on of version `v`.
pub open spec fn first_card_of_version(list: Seq<CardView>, v: i32, from: int) -> Option<int>
    decreases list.len() - from,
{
    if from < 0 || from >= list.len() {
        None
    } else if list[from].0 == v {
        Some(from)
    } else {
        first_card_of_version(list, v, from + 1)
    }
}

// ---------------------------------------------------------------------------------------
// A card's values as field values
// ---------------------------------------------------------------------------------------

/// The columns of a card that go straight into a player field, with the field they go to.
pub open spec fn spec_direct_field_map() -> Seq<(Seq<char>, Seq<char>)> {
    seq![
        ("overall"@, "overallrating"@),
        ("potential"@, "potential"@),
        ("height_cm"@, "height"@),
        ("weight_kg"@, "weight"@),
        ("weak_foot"@, "weakfootabilitytypecode"@),
        ("skill_moves"@, "skillmoves"@),
        ("attacking_crossing"@, "crossing"@),
        ("attacking_finishing"@, "finishing"@),
        ("attacking_heading_accuracy"@, "headingaccuracy"@),
        ("attacking_short_passing"@, "shortpassing"@),
        ("attacking_volleys"@, "volleys"@),
        ("skill_dribbling"@, "dribbling"@),
        ("skill_curve"@, "curve"@),
        ("skill_fk_accuracy"@, "freekickaccuracy"@),
        ("skill_long_passing"@, "longpassing"@),
        ("skill_ball_control"@, "ballcontrol"@),
        ("movement_acceleration"@, "acceleration"@),
        ("movement_sprint_speed"@, "sprintspeed"@),
        ("movement_agility"@, "agility"@),
        ("movement_reactions"@, "reactions"@),
        ("movement_balance"@, "balance"@),
        ("power_shot_power"@, "shotpower"@),
        ("power_jumping"@, "jumping"@),
        ("power_stamina"@, "stamina"@),
        ("power_strength"@, "strength"@),
        ("power_long_shots"@, "longshots"@),
        ("mentality_aggression"@, "aggression"@),
        ("mentality_interceptions"@, "interceptions"@),
        ("mentality_positioning"@, "positioning"@),
        ("mentality_vision"@, "vision"@),
        ("mentality_penalties"@, "penalties"@),
        ("mentality_composure"@, "composure"@),
        ("defending_marking_awareness"@, "defensiveawareness"@),
        ("defending_standing_tackle"@, "standingtackle"@),
        ("defending_sliding_tackle"@, "slidingtackle"@),
        ("goalkeeping_diving"@, "gkdiving"@),
        ("goalkeeping_handling"@, "gkhandling"@),
        ("goalkeeping_kicking"@, "gkkicking"@),
        ("goalkeeping_positioning"@, "gkpositioning"@),
        ("goalkeeping_reflexes"@, "gkreflexes"@)
    ]
}

/// The texts of a list of pairs of strings.
pub open spec fn pairs_view(v: Seq<(&str, &str)>) -> Seq<(Seq<char>, Seq<char>)> {
    v.map_values(|p: (&str, &str)| (p.0@, p.1@))
}

/// The columns of a card that go straight into a player field.
fn direct_field_map() -> (r: Vec<(&'static str, &'static str)>)
    ensures
        pairs_view(r@) == spec_direct_field_map(),
{
    let r = vec![
        ("overall", "overallrating"),
        ("potential", "potential"),
        ("height_cm", "height"),
        ("weight_kg", "weight"),
        ("weak_foot", "weakfootabilitytypecode"),
        ("skill_moves", "skillmoves"),
        ("attacking_crossing", "crossing"),
        ("attacking_finishing", "finishing"),
        ("attacking_heading_accuracy", "headingaccuracy"),
        ("attacking_short_passing", "shortpassing"),
        ("attacking_volleys", "volleys"),
        ("skill_dribbling", "dribbling"),
        ("skill_curve", "curve"),
        ("skill_fk_accuracy", "freekickaccuracy"),
        ("skill_long_passing", "longpassing"),
        ("skill_ball_control", "ballcontrol"),
        ("movement_acceleration", "acceleration"),
        ("movement_sprint_speed", "sprintspeed"),
        ("movement_agility", "agility"),
        ("movement_reactions", "reactions"),
        ("movement_balance", "balance"),
        ("power_shot_power", "shotpower"),
        ("power_jumping", "jumping"),
        ("power_stamina", "stamina"),
        ("power_strength", "strength"),
        ("power_long_shots", "longshots"),
        ("mentality_aggression", "aggression"),
        ("mentality_interceptions", "interceptions"),
        ("mentality_positioning", "positioning"),
        ("mentality_vision", "vision"),
        ("mentality_penalties", "penalties"),
        ("mentality_composure", "composure"),
        ("defending_marking_awareness", "defensiveawareness"),
        ("defending_standing_tackle", "standingtackle"),
        ("defending_sliding_tackle", "slidingtackle"),
        ("goalkeeping_diving", "gkdiving"),
        ("goalkeeping_handling", "gkhandling"),
        ("goalkeeping_kicking", "gkkicking"),
        ("goalkeeping_positioning", "gkpositioning"),
        ("goalkeeping_reflexes", "gkreflexes")
    ];
    assert(pairs_view(r@) =~= spec_direct_field_map());
    r
}

/// How many of a card's values could not be used.
pub struct ApplyReport {
    pub skipped: usize,
}

/// The integer that a card's text reads as after trimming.
pub open spec fn trimmed_int(text: Seq<char>) -> Option<int> {
    spec_parse_int(encode_utf8(trimmed(text)), i64::MIN as int, i64::MAX as int)
}

/// The field values and skipped count after the first `k` columns of the direct map.
pub open spec fn direct_updates(fields: Map<Seq<char>, Seq<char>>, k: int) -> (Seq<(Seq<char>, i64)>, int)
    decreases k,
{
    if k <= 0 {
        (Seq::empty(), 0)
    } else {
        let p = direct_updates(fields, k - 1);
        let (col, field) = spec_direct_field_map()[k - 1];
        if fields.contains_key(col) && trimmed_int(fields[col]) is Some {
            (p.0.push((field, trimmed_int(fields[col]).unwrap() as i64)), p.1)
        } else {
            (p.0, p.1 + 1)
        }
    }
}

/// The values of a card as player fields, and how many could not be used: each column of the
/// direct map whose text is an integer; the preferred foot (`Left` 0, `Right` 1) when the card
/// has one; the international reputation less one, not below 0.
pub open spec fn card_updates(fields: Map<Seq<char>, Seq<char>>) -> (Seq<(Seq<char>, i64)>, int) {
    let d = direct_updates(fields, spec_direct_field_map().len() as int);
    let foot: (Seq<(Seq<char>, i64)>, int) = if fields.contains_key("preferred_foot"@) {
        let t = trimmed(fields["preferred_foot"@]);
        if t == "Left"@ {
            (d.0.push(("preferredfoot"@, 0i64)), d.1)
        } else if t == "Right"@ {
            (d.0.push(("preferredfoot"@, 1i64)), d.1)
        } else {
            (d.0, d.1 + 1)
        }
    } else {
        d
    };
    if fields.contains_key("international_reputation"@) && trimmed_int(fields["international_reputation"@]) is Some {
        let rep = trimmed_int(fields["international_reputation"@]).unwrap();
        (foot.0.push(("internationalrep"@, if rep < 1 { 0i64 } else { (rep - 1) as i64 })), foot.1)
    } else {
        (foot.0, foot.1 + 1)
    }
}

/// The names and integer values of a list of field updates.
pub open spec fn updates_view(v: Seq<(String, FieldValue)>) -> Seq<(Seq<char>, FieldValue)> {
    v.map_values(|u: (String, FieldValue)| (u.0@, u.1))
}

pub open spec fn int_updates(v: Seq<(Seq<char>, i64)>) -> Seq<(Seq<char>, FieldValue)> {
    v.map_values(|u: (Seq<char>, i64)| (u.0, FieldValue::Int(u.1)))
}

/// The integer a card's text reads as after trimming, if it does.
fn card_int(card: &HistoricalCard, col: &str) -> (r: Option<i64>)
    ensures
        r matches Some(v) ==> card.fields@.contains_key(col@) && trimmed_int(card.fields@[col@]@) == Some(v as int),
        r is None ==> !(card.fields@.contains_key(col@) && trimmed_int(card.fields@[col@]@) is Some),
{
    match card.fields.get(col) {
        Some(v) => parse_i64_bytes(trim(v.as_str()).as_bytes()),
        None => None,
    }
}

/// The values of a card as player field values, with how many could not be used.
pub fn apply_card_to_field_values(card: &HistoricalCard) -> (r: (Vec<(String, FieldValue)>, ApplyReport))
    ensures
        updates_view(r.0@) == int_updates(card_updates(text_map(card.fields@)).0),
        r.1.skipped == card_updates(text_map(card.fields@)).1,
{
    let ghost fields = text_map(card.fields@);
    let map = direct_field_map();
    let mut updates: Vec<(String, FieldValue)> = Vec::new();
    let mut skipped: usize = 0;
    let mut i: usize = 0;
    while i < map.len()
        invariant
            i <= map@.len(),
            fields == text_map(card.fields@),
            pairs_view(map@) == spec_direct_field_map(),
            updates_view(updates@) == int_updates(direct_updates(fields, i as int).0),
            skipped == direct_updates(fields, i as int).1,
            skipped <= i,
        decreases map@.len() - i,
    {
        let (col, field) = map[i];
        assert(pairs_view(map@)[i as int] == (col@, field@));
        let ghost prev = direct_updates(fields, i as int);
        assert(fields.contains_key(col@) == card.fields@.contains_key(col@));
        assert(card.fields@.contains_key(col@) ==> fields[col@] == card.fields@[col@]@);
        match card_int(card, col) {
            Some(v) => {
                let ghost before = updates@;
                updates.push((to_owned_string(field), FieldValue::Int(v)));
                assert(direct_updates(fields, i + 1).0 == prev.0.push((field@, v)));
                assert(updates_view(updates@) =~= updates_view(before).push((field@, FieldValue::Int(v))));
            },
            None => {
                skipped = skipped + 1;
                assert(direct_updates(fields, i + 1).0 == prev.0);
            },
        }
        assert(updates_view(updates@) =~= int_updates(direct_updates(fields, i + 1).0));
        i = i + 1;
    }
    assert(map@.len() == pairs_view(map@).len());
    assert(spec_direct_field_map().len() == 40);
    let ghost d = direct_updates(fields, spec_direct_field_map().len() as int);
    assert(updates_view(updates@) == int_updates(d.0));
    let ghost foot_state: (Seq<(Seq<char>, i64)>, int) = if fields.contains_key("preferred_foot"@) {
        let t = trimmed(fields["preferred_foot"@]);
        if t == "Left"@ {
            (d.0.push(("preferredfoot"@, 0i64)), d.1)
        } else if t == "Right"@ {
            (d.0.push(("preferredfoot"@, 1i64)), d.1)
        } else {
            (d.0, d.1 + 1)
        }
    } else {
        d
    };
    match card.fields.get("preferred_foot") {
        Some(foot) => {
            assert(fields["preferred_foot"@] == foot@);
            let t = trim(foot.as_str());
            let ghost before = updates@;
            if str_eq(t, "Left") {
                updates.push((to_owned_string("preferredfoot"), FieldValue::Int(0)));
                assert(updates_view(updates@) =~= updates_view(before).push(("preferredfoot"@, FieldValue::Int(0))));
            } else if str_eq(t, "Right") {
                updates.push((to_owned_string("preferredfoot"), FieldValue::Int(1)));
                assert(updates_view(updates@) =~= updates_view(before).push(("preferredfoot"@, FieldValue::Int(1))));
            } else {
                skipped = skipped + 1;
            }
        },
        None => {},
    }
    assert(updates_view(updates@) =~= int_updates(foot_state.0));
    assert(skipped == foot_state.1);
    let ghost before = updates@;
    match card_int(card, "international_reputation") {
        Some(rep) => {
            let v: i64 = if rep < 1 {
                0
            } else {
                rep - 1
            };
            updates.push((to_owned_string("internationalrep"), FieldValue::Int(v)));
            assert(updates_view(updates@) =~= updates_view(before).push(("internationalrep"@, FieldValue::Int(v))));
        },
        None => {
            skipped = skipped + 1;
        },
    }
    assert(updates_view(updates@) =~= int_updates(card_updates(fields).0));
    (updates, ApplyReport { skipped })
}

} // verus!
