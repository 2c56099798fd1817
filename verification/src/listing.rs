//! What the editor lists and labels: player names resolved through a reference file, the team
//! and league pickers, formation presets, the global team search and the text of a cell.
use vstd::prelude::*;

use crate::editor::{
    contains_chars, contains_text, find_record_by_int_field, first_record_with, int_field,
    normalize_search, normalized, numbered, read_text, read_value, readable, sanitize_label,
    sanitized, spec_field_text, spec_field_value, spec_int_field, spec_team_record,
};
use crate::model::FieldValue;
use crate::squad::SquadFile;
use crate::strmap::StrMap;
use crate::squad::first_named_table;
use crate::text::{chars_of, i64_to_string, int_decimal, lowercased, push_i64, push_str, to_lower, trim, trimmed};
use crate::tsv::{formats, str_text};

verus! {

// ---------------------------------------------------------------------------------------
// Player names
// ---------------------------------------------------------------------------------------

/// The name table of a reference file.
pub open spec fn names_table() -> Seq<char> {
    "BGwe"@
}

/// The name with id `id` in the name table of `reference`, cleaned for display; empty for a
/// missing or non-positive id, or a name that cannot be read.
pub open spec fn name_at(reference: SquadFile, id: Option<i64>) -> Seq<char> {
    match id {
        Some(i) => if i > 0 {
            match spec_field_text(reference, names_table(), (i as usize) as int, "name"@) {
                Some(t) => sanitized(t),
                None => Seq::empty(),
            }
        } else {
            Seq::empty()
        },
        None => Seq::empty(),
    }
}

/// The integer field `name`, or `dflt` when it cannot be read as one.
pub open spec fn int_or(squad: SquadFile, ts: Seq<char>, idx: int, name: Seq<char>, dflt: i64) -> i64 {
    match spec_int_field(squad, ts, idx, name) {
        Some(v) => v,
        None => dflt,
    }
}

/// The name shown for player record `idx` of table `ts`: with a reference file that has the
/// name table, its common name, else its first and last names; failing those, its id.
pub open spec fn spec_player_name(squad: SquadFile, reference: Option<SquadFile>, ts: Seq<char>, idx: int) -> Seq<char> {
    let fallback = "Player #"@ + int_decimal(int_or(squad, ts, idx, "playerid"@, -1i64) as int);
    match reference {
        Some(r) => if r.spec_table_index(names_table()) is Some {
            let common = name_at(r, spec_int_field(squad, ts, idx, "commonnameid"@));
            let full = trimmed(
                name_at(r, spec_int_field(squad, ts, idx, "firstnameid"@)) + " "@ + name_at(
                    r,
                    spec_int_field(squad, ts, idx, "lastnameid"@),
                ),
            );
            if common.len() > 0 {
                common
            } else if full.len() > 0 {
                full
            } else {
                fallback
            }
        } else {
            fallback
        },
        None => fallback,
    }
}

/// The file a reference points to.
pub open spec fn deref_opt(reference: Option<&SquadFile>) -> Option<SquadFile> {
    match reference {
        Some(r) => Some(*r),
        None => None,
    }
}

/// A reference file, where there is one, can be read everywhere.
pub open spec fn reference_ok(reference: Option<&SquadFile>) -> bool {
    match reference {
        Some(r) => r.wf() && readable(*r),
        None => true,
    }
}

fn name_at_exec(reference: &SquadFile, id: Option<i64>) -> (r: String)
    requires
        reference.wf(),
        readable(*reference),
    ensures
        r@ == name_at(*reference, id),
{
    match id {
        Some(i) => {
            if i > 0 {
                match read_text(reference, "BGwe", i as usize, "name") {
                    Some(s) => sanitize_label(s.as_str()),
                    None => String::new(),
                }
            } else {
                String::new()
            }
        },
        None => String::new(),
    }
}

/// The name shown for player record `record_index` of table `table_shortname`.
pub fn resolve_player_name(squad: &SquadFile, reference: Option<&SquadFile>, table_shortname: &str, record_index: usize) -> (r: String)
    requires
        squad.wf(),
        readable(*squad),
        reference_ok(reference),
    ensures
        r@ == spec_player_name(*squad, deref_opt(reference), table_shortname@, record_index as int),
{
    let playerid = match int_field(squad, table_shortname, record_index, "playerid") {
        Some(v) => v,
        None => -1,
    };
    if let Some(rf) = reference {
        if rf.table("BGwe").is_some() {
            let commonname = name_at_exec(rf, int_field(squad, table_shortname, record_index, "commonnameid"));
            if !commonname.as_str().is_empty() {
                return commonname;
            }
            let first = name_at_exec(rf, int_field(squad, table_shortname, record_index, "firstnameid"));
            let last = name_at_exec(rf, int_field(squad, table_shortname, record_index, "lastnameid"));
            let mut both = first;
            push_str(&mut both, " ");
            push_str(&mut both, last.as_str());
            let full = crate::text::to_owned_string(trim(both.as_str()));
            if !full.as_str().is_empty() {
                return full;
            }
        }
    }
    let mut s = String::new();
    push_str(&mut s, "Player #");
    push_i64(&mut s, playerid);
    assert(s@ =~= "Player #"@ + int_decimal(playerid as int));
    s
}

// ---------------------------------------------------------------------------------------
// The text of a cell
// ---------------------------------------------------------------------------------------

/// The text shown for a value: decimal for an integer, the formatter's text for a float, the
/// cleaned string for a string.
pub open spec fn display_text(v: FieldValue, g: spec_fn(u32) -> Seq<char>) -> Seq<char> {
    match v {
        FieldValue::Int(i) => int_decimal(i as int),
        FieldValue::Float(b) => g(b),
        FieldValue::Str(s) => sanitized(s@),
    }
}

/// A value and a value it stands for are shown alike.
pub proof fn lemma_display_as(v: FieldValue, sv: FieldValue, g: spec_fn(u32) -> Seq<char>)
    requires
        crate::editor::value_as(v, sv),
    ensures
        display_text(v, g) == display_text(sv, g),
{
    if v != sv {
        assert(str_text(v) is Some);
        assert(str_text(sv) == str_text(v));
    }
}

/// The text shown for a value, float values formatted with `float_text`.
pub fn format_value<F: Fn(u32) -> String>(v: &FieldValue, float_text: &F) -> (r: String)
    requires
        forall|b: u32| call_requires(*float_text, (b,)),
    ensures
        forall|g: spec_fn(u32) -> Seq<char>| #[trigger] formats(float_text, g) ==> r@ == display_text(*v, g),
{
    match v {
        FieldValue::Int(i) => i64_to_string(*i),
        FieldValue::Float(b) => float_text(*b),
        FieldValue::Str(s) => sanitize_label(s.as_str()),
    }
}

/// The text shown for field `name` of record `idx` of table `ts`: empty when it cannot be
/// read.
pub open spec fn spec_display_value(squad: SquadFile, ts: Seq<char>, idx: int, name: Seq<char>, g: spec_fn(u32) -> Seq<char>) -> Seq<char> {
    match spec_field_value(squad, ts, idx, name) {
        Some(v) => display_text(v, g),
        None => Seq::empty(),
    }
}

/// The text shown in a cell, float values formatted with `float_text`.
pub fn field_display_value<F: Fn(u32) -> String>(squad: &SquadFile, table_shortname: &str, record_index: usize, field_name: &str, float_text: &F) -> (r: String)
    requires
        squad.wf(),
        readable(*squad),
        forall|b: u32| call_requires(*float_text, (b,)),
    ensures
        forall|g: spec_fn(u32) -> Seq<char>| #[trigger] formats(float_text, g) ==> r@ == spec_display_value(
            *squad,
            table_shortname@,
            record_index as int,
            field_name@,
            g,
        ),
{
    match read_value(squad, table_shortname, record_index, field_name) {
        Some(FieldValue::Int(v)) => i64_to_string(v),
        Some(FieldValue::Float(b)) => float_text(b),
        Some(FieldValue::Str(s)) => sanitize_label(s.as_str()),
        None => String::new(),
    }
}

// ---------------------------------------------------------------------------------------
// Team and league pickers
// ---------------------------------------------------------------------------------------

/// `a` sorts before `b`, comparing from position `i` on, character by character by code
/// point, a proper prefix first: the order in which `String`s sort.
pub open spec fn text_lt_from(a: Seq<char>, b: Seq<char>, i: int) -> bool
    decreases a.len() - i,
{
    if i < 0 || i >= b.len() {
        false
    } else if i >= a.len() {
        true
    } else if a[i] != b[i] {
        (a[i] as u32) < (b[i] as u32)
    } else {
        text_lt_from(a, b, i + 1)
    }
}

/// `a` sorts before `b` as `String`s do.
pub open spec fn text_lt(a: Seq<char>, b: Seq<char>) -> bool {
    text_lt_from(a, b, 0)
}

fn chars_lt(a: &Vec<char>, b: &Vec<char>) -> (r: bool)
    ensures
        r == text_lt(a@, b@),
{
    let mut i: usize = 0;
    while i < a.len() && i < b.len() && a[i] == b[i]
        invariant
            i <= a@.len(),
            i <= b@.len(),
            text_lt(a@, b@) == text_lt_from(a@, b@, i as int),
        decreases a@.len() - i,
    {
        i = i + 1;
    }
    if i >= b.len() {
        false
    } else if i >= a.len() {
        true
    } else {
        (a[i] as u32) < (b[i] as u32)
    }
}

/// The number of live records of table `ts`, none when there is no such table.
pub open spec fn live_count(squad: SquadFile, ts: Seq<char>) -> int {
    match squad.spec_table_index(ts) {
        Some(ti) => squad.tables@[ti].n_written_records as int,
        None => 0,
    }
}

/// The name of picker entry `k`: the text of its name field, cleaned, when it is not empty;
/// else `fallback` followed by the entry's id.
pub open spec fn entry_name(squad: SquadFile, ts: Seq<char>, k: int, name_field: Seq<char>, fallback: Seq<char>, id: i64) -> Seq<char> {
    match spec_field_text(squad, ts, k, name_field) {
        Some(t) => if t.len() > 0 {
            sanitized(t)
        } else {
            fallback + int_decimal(id as int)
        },
        None => fallback + int_decimal(id as int),
    }
}

/// The label of picker entry `k`: its name, then its id in brackets.
pub open spec fn entry_label(squad: SquadFile, ts: Seq<char>, k: int, id_field: Seq<char>, name_field: Seq<char>, fallback: Seq<char>) -> Seq<char> {
    let id = int_or(squad, ts, k, id_field, -1i64);
    entry_name(squad, ts, k, name_field, fallback, id) + " ("@ + int_decimal(id as int) + ")"@
}

/// The labels and ids of the first `n` records of table `ts`, in record order.
pub open spec fn picker_entries(squad: SquadFile, ts: Seq<char>, id_field: Seq<char>, name_field: Seq<char>, fallback: Seq<char>, n: int) -> Seq<(Seq<char>, i64)>
    decreases n,
{
    if n <= 0 {
        Seq::empty()
    } else {
        picker_entries(squad, ts, id_field, name_field, fallback, n - 1).push(
            (entry_label(squad, ts, n - 1, id_field, name_field, fallback), int_or(squad, ts, n - 1, id_field, -1i64)),
        )
    }
}

/// Where a stable sort by lower-cased label puts an entry whose key is `key` among the sorted
/// `s`: before the first entry whose key sorts after it.
pub open spec fn label_insert_pos(s: Seq<(Seq<char>, i64)>, key: Seq<char>, from: int) -> int
    decreases s.len() - from,
{
    if from < 0 || from >= s.len() || text_lt(key, lowercased(s[from].0)) {
        from
    } else {
        label_insert_pos(s, key, from + 1)
    }
}

/// The entries sorted by lower-cased label, entries with equal keys keeping their order.
pub open spec fn sort_by_lower(s: Seq<(Seq<char>, i64)>) -> Seq<(Seq<char>, i64)>
    decreases s.len(),
{
    if s.len() == 0 {
        s
    } else {
        let t = sort_by_lower(s.drop_last());
        t.insert(label_insert_pos(t, lowercased(s.last().0), 0), s.last())
    }
}

/// The map from label to id that the entries give, later entries winning.
pub open spec fn pairs_map(s: Seq<(Seq<char>, i64)>) -> Map<Seq<char>, i64>
    decreases s.len(),
{
    if s.len() == 0 {
        Map::empty()
    } else {
        pairs_map(s.drop_last()).insert(s.last().0, s.last().1)
    }
}

/// The picker over table `ts`: its live records' entries sorted by label.
pub open spec fn picker(squad: SquadFile, ts: Seq<char>, id_field: Seq<char>, name_field: Seq<char>, fallback: Seq<char>) -> Seq<(Seq<char>, i64)> {
    sort_by_lower(picker_entries(squad, ts, id_field, name_field, fallback, live_count(squad, ts)))
}

/// The labels of a list of entries.
pub open spec fn labels(s: Seq<(Seq<char>, i64)>) -> Seq<Seq<char>> {
    s.map_values(|p: (Seq<char>, i64)| p.0)
}

/// The text of each string of a list.
pub open spec fn strings_view(v: Seq<String>) -> Seq<Seq<char>> {
    v.map_values(|s: String| s@)
}

/// The entries of a list, each label by its text.
pub open spec fn entries_view(v: Seq<(String, i64)>) -> Seq<(Seq<char>, i64)> {
    v.map_values(|p: (String, i64)| (p.0@, p.1))
}

fn entry_name_exec(squad: &SquadFile, ts: &str, k: usize, name_field: &str, fallback: &str, id: i64) -> (r: String)
    requires
        squad.wf(),
        readable(*squad),
    ensures
        r@ == entry_name(*squad, ts@, k as int, name_field@, fallback@, id),
{
    if let Some(s) = read_text(squad, ts, k, name_field) {
        if !s.as_str().is_empty() {
            return sanitize_label(s.as_str());
        }
    }
    let mut out = String::new();
    push_str(&mut out, fallback);
    push_i64(&mut out, id);
    assert(out@ =~= fallback@ + int_decimal(id as int));
    out
}

/// The sorted entries of the picker over table `ts`.
fn sorted_entries(squad: &SquadFile, ts: &str, id_field: &str, name_field: &str, fallback: &str) -> (r: Vec<(String, i64)>)
    requires
        squad.wf(),
        readable(*squad),
    ensures
        entries_view(r@) == picker(*squad, ts@, id_field@, name_field@, fallback@),
{
    let indices = squad.written_record_indices(ts);
    let ghost all = picker_entries(*squad, ts@, id_field@, name_field@, fallback@, live_count(*squad, ts@));
    let mut out: Vec<(String, i64)> = Vec::new();
    let mut keys: Vec<Vec<char>> = Vec::new();
    let mut k: usize = 0;
    while k < indices.len()
        invariant
            squad.wf(),
            readable(*squad),
            indices@.len() == live_count(*squad, ts@),
            forall|x: int| 0 <= x < indices@.len() ==> #[trigger] indices@[x] == x,
            k <= indices@.len(),
            entries_view(out@) == sort_by_lower(picker_entries(*squad, ts@, id_field@, name_field@, fallback@, k as int)),
            keys@.len() == out@.len(),
            forall|j: int| 0 <= j < keys@.len() ==> (#[trigger] keys@[j])@ == lowercased(out@[j].0@),
        decreases indices@.len() - k,
    {
        let idx = indices[k];
        let id = match int_field(squad, ts, idx, id_field) {
            Some(v) => v,
            None => -1,
        };
        let mut label = entry_name_exec(squad, ts, idx, name_field, fallback, id);
        push_str(&mut label, " (");
        push_i64(&mut label, id);
        push_str(&mut label, ")");
        let ghost entry = (entry_label(*squad, ts@, k as int, id_field@, name_field@, fallback@), int_or(*squad, ts@, k as int, id_field@, -1i64));
        assert(label@ =~= entry.0);
        let key = chars_of(to_lower(label.as_str()).as_str());
        let ghost t = entries_view(out@);
        let mut pos: usize = 0;
        while pos < out.len() && !chars_lt(&key, &keys[pos])
            invariant
                pos <= out@.len(),
                t == entries_view(out@),
                keys@.len() == out@.len(),
                forall|j: int| 0 <= j < keys@.len() ==> (#[trigger] keys@[j])@ == lowercased(out@[j].0@),
                key@ == lowercased(entry.0),
                label_insert_pos(t, key@, 0) == label_insert_pos(t, key@, pos as int),
            decreases out@.len() - pos,
        {
            assert(t[pos as int].0 == out@[pos as int].0@);
            pos = pos + 1;
        }
        proof {
            if pos < out@.len() {
                assert(t[pos as int].0 == out@[pos as int].0@);
            }
        }
        let ghost old_keys = keys@;
        let ghost old_out = out@;
        out.insert(pos, (label, id));
        keys.insert(pos, key);
        proof {
            let n = (k + 1) as int;
            let es = picker_entries(*squad, ts@, id_field@, name_field@, fallback@, n);
            assert(es.drop_last() == picker_entries(*squad, ts@, id_field@, name_field@, fallback@, k as int));
            assert(es.last() == entry);
            assert(entries_view(out@) =~= t.insert(pos as int, entry));
            assert forall|j: int| 0 <= j < keys@.len() implies (#[trigger] keys@[j])@ == lowercased(out@[j].0@) by {
                if j < pos {
                    assert(keys@[j] == old_keys[j] && out@[j] == old_out[j]);
                } else if j > pos {
                    assert(keys@[j] == old_keys[j - 1] && out@[j] == old_out[j - 1]);
                }
            }
        }
        k = k + 1;
    }
    out
}

/// The picker over table `ts`: the sorted labels and the id of each label.
fn picker_options(squad: &SquadFile, ts: &str, id_field: &str, name_field: &str, fallback: &str) -> (r: (Vec<String>, StrMap<i64>))
    requires
        squad.wf(),
        readable(*squad),
    ensures
        strings_view(r.0@) == labels(picker(*squad, ts@, id_field@, name_field@, fallback@)),
        r.1@ == pairs_map(picker(*squad, ts@, id_field@, name_field@, fallback@)),
{
    let sorted = sorted_entries(squad, ts, id_field, name_field, fallback);
    let ghost s = entries_view(sorted@);
    let mut options: Vec<String> = Vec::new();
    let mut lookup: StrMap<i64> = StrMap::new();
    let mut j: usize = 0;
    while j < sorted.len()
        invariant
            s == entries_view(sorted@),
            j <= sorted@.len(),
            strings_view(options@) == labels(s.take(j as int)),
            lookup@ == pairs_map(s.take(j as int)),
        decreases sorted@.len() - j,
    {
        let label = sorted[j].0.clone();
        let id = sorted[j].1;
        assert(s[j as int] == (sorted@[j as int].0@, id));
        assert(label@ == s[j as int].0);
        let ghost before = options@;
        assert(strings_view(before).len() == before.len());
        assert(labels(s.take(j as int)).len() == j);
        options.push(label.clone());
        assert(options@.last()@ == s[j as int].0);
        assert(options@.drop_last() == before);
        lookup.insert(label, id);
        proof {
            assert(s.take(j + 1).drop_last() =~= s.take(j as int));
            assert(s.take(j + 1).last() == s[j as int]);
            assert forall|i: int| 0 <= i < j + 1 implies strings_view(options@)[i] == labels(s.take(j + 1))[i] by {
                if i < j {
                    assert(options@[i] == before[i]);
                    assert(strings_view(before)[i] == labels(s.take(j as int))[i]);
                }
            }
            assert(strings_view(options@) =~= labels(s.take(j + 1)));
        }
        j = j + 1;
    }
    assert(s.take(j as int) =~= s);
    (options, lookup)
}

/// The team picker: a label "name (id)" for each live team record, sorted by lower-cased
/// label, and the team id of each label (the later team wins where two labels are equal).
pub fn team_options(squad: &SquadFile) -> (r: (Vec<String>, StrMap<i64>))
    requires
        squad.wf(),
        readable(*squad),
    ensures
        strings_view(r.0@) == labels(picker(*squad, "lyxL"@, "teamid"@, "teamname"@, "Team "@)),
        r.1@ == pairs_map(picker(*squad, "lyxL"@, "teamid"@, "teamname"@, "Team "@)),
{
    picker_options(squad, "lyxL", "teamid", "teamname", "Team ")
}

/// The league picker over the table named `leagues`, as [`team_options`] does for teams.
pub open spec fn league_picker(squad: SquadFile) -> Seq<(Seq<char>, i64)> {
    match first_named_table(squad.tables@, "leagues"@, 0) {
        Some(i) => picker(squad, squad.tables@[i].shortname@, "leagueid"@, "leaguename"@, "League "@),
        None => Seq::empty(),
    }
}

/// The league picker: a label "name (id)" for each live record of the `leagues` table, sorted
/// by lower-cased label, and the league id of each label.
pub fn league_options(squad: &SquadFile) -> (r: (Vec<String>, StrMap<i64>))
    requires
        squad.wf(),
        readable(*squad),
    ensures
        strings_view(r.0@) == labels(league_picker(*squad)),
        r.1@ == pairs_map(league_picker(*squad)),
{
    match crate::editor::table_shortname_by_name(squad, "leagues") {
        Some(shortname) => picker_options(squad, shortname.as_str(), "leagueid", "leaguename", "League "),
        None => {
            let options: Vec<String> = Vec::new();
            proof {
                assert(strings_view(options@) =~= labels(league_picker(*squad)));
            }
            (options, StrMap::new())
        },
    }
}

// ---------------------------------------------------------------------------------------
// Formation presets
// ---------------------------------------------------------------------------------------

/// The presets among the first `n` records of formations table `ts`: each record that belongs
/// to no team and has a non-empty name, with the label "name  (#id)".
pub open spec fn preset_entries(squad: SquadFile, ts: Seq<char>, n: int) -> Seq<(int, Seq<char>)>
    decreases n,
{
    if n <= 0 {
        Seq::empty()
    } else {
        let p = preset_entries(squad, ts, n - 1);
        let k = n - 1;
        if int_or(squad, ts, k, "teamid"@, 0i64) > 0 {
            p
        } else {
            match spec_field_text(squad, ts, k, "formationname"@) {
                Some(t) => if t.len() > 0 {
                    p.push((k, sanitized(t) + "  (#"@ + int_decimal(int_or(squad, ts, k, "formationid"@, -1i64) as int) + ")"@))
                } else {
                    p
                },
                None => p,
            }
        }
    }
}

/// The formation presets of the table named `formations`.
pub open spec fn spec_formation_presets(squad: SquadFile) -> Seq<(int, Seq<char>)> {
    match first_named_table(squad.tables@, "formations"@, 0) {
        Some(i) => {
            let ts = squad.tables@[i].shortname@;
            preset_entries(squad, ts, live_count(squad, ts))
        },
        None => Seq::empty(),
    }
}

/// The presets of a list, each label by its text.
pub open spec fn presets_view(v: Seq<(usize, String)>) -> Seq<(int, Seq<char>)> {
    v.map_values(|p: (usize, String)| (p.0 as int, p.1@))
}

/// The formation presets: the live records of the `formations` table that belong to no team
/// and have a name, each with its record index and the label "name  (#id)".
pub fn formation_presets(squad: &SquadFile) -> (r: Vec<(usize, String)>)
    requires
        squad.wf(),
        readable(*squad),
    ensures
        presets_view(r@) == spec_formation_presets(*squad),
{
    let mut presets: Vec<(usize, String)> = Vec::new();
    let shortname = match crate::editor::table_shortname_by_name(squad, "formations") {
        Some(s) => s,
        None => {
            assert(presets_view(presets@) =~= spec_formation_presets(*squad));
            return presets;
        },
    };
    let ts = shortname.as_str();
    let indices = squad.written_record_indices(ts);
    let mut k: usize = 0;
    while k < indices.len()
        invariant
            squad.wf(),
            readable(*squad),
            ts@ == shortname@,
            indices@.len() == live_count(*squad, ts@),
            forall|x: int| 0 <= x < indices@.len() ==> #[trigger] indices@[x] == x,
            k <= indices@.len(),
            presets_view(presets@) == preset_entries(*squad, ts@, k as int),
        decreases indices@.len() - k,
    {
        let i = indices[k];
        let teamid = match int_field(squad, ts, i, "teamid") {
            Some(v) => v,
            None => 0,
        };
        if teamid <= 0 {
            if let Some(raw) = read_text(squad, ts, i, "formationname") {
                if !raw.as_str().is_empty() {
                    let id = match int_field(squad, ts, i, "formationid") {
                        Some(v) => v,
                        None => -1,
                    };
                    let mut label = sanitize_label(raw.as_str());
                    push_str(&mut label, "  (#");
                    push_i64(&mut label, id);
                    push_str(&mut label, ")");
                    let ghost before = presets@;
                    presets.push((i, label));
                    proof {
                        assert(presets_view(presets@) =~= presets_view(before).push((i as int, label@)));
                    }
                }
            }
        }
        k = k + 1;
    }
    presets
}

// ---------------------------------------------------------------------------------------
// Global search
// ---------------------------------------------------------------------------------------

/// The most results a global search gives.
pub const GLOBAL_SEARCH_LIMIT: usize = 8;

/// At most the first [`GLOBAL_SEARCH_LIMIT`] of a list.
pub open spec fn capped<T>(s: Seq<T>) -> Seq<T> {
    if s.len() <= GLOBAL_SEARCH_LIMIT {
        s
    } else {
        s.take(GLOBAL_SEARCH_LIMIT as int)
    }
}

/// A name matches a search when its normalized text contains the query, or the id is the
/// number searched for.
pub open spec fn hit(name: Seq<char>, id: i64, query: Seq<char>, query_num: Option<i64>) -> bool {
    contains_text(normalized(name), query) || query_num == Some(id)
}

/// The teams among the first `n` team records that match a search, with their names.
pub open spec fn team_hits(squad: SquadFile, query: Seq<char>, query_num: Option<i64>, n: int) -> Seq<(i64, Seq<char>)>
    decreases n,
{
    if n <= 0 {
        Seq::empty()
    } else {
        let p = team_hits(squad, query, query_num, n - 1);
        let id = int_or(squad, "lyxL"@, n - 1, "teamid"@, -1i64);
        let name = entry_name(squad, "lyxL"@, n - 1, "teamname"@, "Team "@, id);
        if hit(name, id, query, query_num) {
            p.push((id, name))
        } else {
            p
        }
    }
}

proof fn lemma_team_hits_prefix(squad: SquadFile, query: Seq<char>, query_num: Option<i64>, k: int, m: int)
    requires
        0 <= k <= m,
    ensures
        team_hits(squad, query, query_num, k).len() <= team_hits(squad, query, query_num, m).len(),
        team_hits(squad, query, query_num, m).take(team_hits(squad, query, query_num, k).len() as int)
            == team_hits(squad, query, query_num, k),
    decreases m - k,
{
    let hk = team_hits(squad, query, query_num, k);
    if k == m {
        assert(hk.take(hk.len() as int) =~= hk);
    } else {
        lemma_team_hits_prefix(squad, query, query_num, k, m - 1);
        let hm1 = team_hits(squad, query, query_num, m - 1);
        let hm = team_hits(squad, query, query_num, m);
        if hm.len() > hm1.len() {
            assert(hm.take(hk.len() as int) =~= hm1.take(hk.len() as int));
        }
    }
}

/// The text of each result of a team search.
pub open spec fn team_results_view(v: Seq<(i64, String)>) -> Seq<(i64, Seq<char>)> {
    v.map_values(|p: (i64, String)| (p.0, p.1@))
}

/// The teams whose name matches `query_lower` (already normalized) or whose id is
/// `query_num`, in record order, at most [`GLOBAL_SEARCH_LIMIT`] of them.
pub fn global_search_teams(squad: &SquadFile, query_lower: &str, query_num: Option<i64>) -> (r: Vec<(i64, String)>)
    requires
        squad.wf(),
        readable(*squad),
    ensures
        team_results_view(r@) == capped(team_hits(*squad, query_lower@, query_num, live_count(*squad, "lyxL"@))),
{
    let mut results: Vec<(i64, String)> = Vec::new();
    let q = chars_of(query_lower);
    let indices = squad.written_record_indices("lyxL");
    let ghost total = live_count(*squad, "lyxL"@);
    let mut k: usize = 0;
    while k < indices.len()
        invariant
            squad.wf(),
            readable(*squad),
            q@ == query_lower@,
            indices@.len() == total,
            total == live_count(*squad, "lyxL"@),
            forall|x: int| 0 <= x < indices@.len() ==> #[trigger] indices@[x] == x,
            k <= indices@.len(),
            team_results_view(results@) == team_hits(*squad, query_lower@, query_num, k as int),
            results@.len() < GLOBAL_SEARCH_LIMIT,
        decreases indices@.len() - k,
    {
        let idx = indices[k];
        let teamid = match int_field(squad, "lyxL", idx, "teamid") {
            Some(v) => v,
            None => -1,
        };
        let name = entry_name_exec(squad, "lyxL", idx, "teamname", "Team ", teamid);
        let norm = chars_of(normalize_search(name.as_str()).as_str());
        let matched = contains_chars(&norm, &q) || query_num == Some(teamid);
        if matched {
            let ghost before = results@;
            results.push((teamid, name));
            proof {
                assert(team_results_view(results@) =~= team_results_view(before).push((teamid, name@)));
            }
            if results.len() >= GLOBAL_SEARCH_LIMIT {
                proof {
                    let h = team_hits(*squad, query_lower@, query_num, (k + 1) as int);
                    assert(team_results_view(results@) == h);
                    lemma_team_hits_prefix(*squad, query_lower@, query_num, (k + 1) as int, total);
                    let all = team_hits(*squad, query_lower@, query_num, total);
                    assert(capped(all) =~= h);
                }
                return results;
            }
        }
        k = k + 1;
    }
    results
}

// ---------------------------------------------------------------------------------------
// Players: search and line-up slots
// ---------------------------------------------------------------------------------------

/// The first record of table `ts` whose integer field `name` is `value`.
pub open spec fn found_record(squad: SquadFile, ts: Seq<char>, name: Seq<char>, value: i64) -> Option<int> {
    match squad.spec_table_index(ts) {
        Some(ti) => first_record_with(squad, ts, name, value, 0, squad.tables@[ti].n_records_slot as int),
        None => None,
    }
}

/// The name of the team a player plays for, through the player-team links; "svincolato"
/// (free agent) when there is none.
pub open spec fn player_team_name(squad: SquadFile, player_id: i64) -> Seq<char> {
    let none = "svincolato"@;
    match found_record(squad, "RrqT"@, "playerid"@, player_id) {
        Some(link) => match spec_int_field(squad, "RrqT"@, link, "teamid"@) {
            Some(team_id) => match found_record(squad, "lyxL"@, "teamid"@, team_id) {
                Some(t) => match spec_field_text(squad, "lyxL"@, t, "teamname"@) {
                    Some(n) => n,
                    None => none,
                },
                None => none,
            },
            None => none,
        },
        None => none,
    }
}

/// The detail line of a player result: its rating and its team.
pub open spec fn player_detail(squad: SquadFile, idx: int, player_id: i64) -> Seq<char> {
    "OVR "@ + int_decimal(int_or(squad, "CZUM"@, idx, "overallrating"@, 0i64) as int) + " — "@ + player_team_name(squad, player_id)
}

/// The players among the first `n` player records that match a search: id, name, detail.
pub open spec fn player_hits(squad: SquadFile, reference: Option<SquadFile>, query: Seq<char>, query_num: Option<i64>, n: int) -> Seq<(i64, Seq<char>, Seq<char>)>
    decreases n,
{
    if n <= 0 {
        Seq::empty()
    } else {
        let p = player_hits(squad, reference, query, query_num, n - 1);
        let id = int_or(squad, "CZUM"@, n - 1, "playerid"@, -1i64);
        let name = spec_player_name(squad, reference, "CZUM"@, n - 1);
        if hit(name, id, query, query_num) {
            p.push((id, name, player_detail(squad, n - 1, id)))
        } else {
            p
        }
    }
}

proof fn lemma_player_hits_prefix(squad: SquadFile, reference: Option<SquadFile>, query: Seq<char>, query_num: Option<i64>, k: int, m: int)
    requires
        0 <= k <= m,
    ensures
        player_hits(squad, reference, query, query_num, k).len() <= player_hits(squad, reference, query, query_num, m).len(),
        player_hits(squad, reference, query, query_num, m).take(player_hits(squad, reference, query, query_num, k).len() as int)
            == player_hits(squad, reference, query, query_num, k),
    decreases m - k,
{
    let hk = player_hits(squad, reference, query, query_num, k);
    if k == m {
        assert(hk.take(hk.len() as int) =~= hk);
    } else {
        lemma_player_hits_prefix(squad, reference, query, query_num, k, m - 1);
        let hm1 = player_hits(squad, reference, query, query_num, m - 1);
        let hm = player_hits(squad, reference, query, query_num, m);
        if hm.len() > hm1.len() {
            assert(hm.take(hk.len() as int) =~= hm1.take(hk.len() as int));
        }
    }
}

/// The text of each result of a player search.
pub open spec fn player_results_view(v: Seq<(i64, String, String)>) -> Seq<(i64, Seq<char>, Seq<char>)> {
    v.map_values(|p: (i64, String, String)| (p.0, p.1@, p.2@))
}

fn player_team_name_exec(squad: &SquadFile, player_id: i64) -> (r: String)
    requires
        squad.wf(),
        readable(*squad),
    ensures
        r@ == player_team_name(*squad, player_id),
{
    if let Some(link) = find_record_by_int_field(squad, "RrqT", "playerid", player_id) {
        if let Some(team_id) = int_field(squad, "RrqT", link, "teamid") {
            if let Some(t) = find_record_by_int_field(squad, "lyxL", "teamid", team_id) {
                if let Some(n) = read_text(squad, "lyxL", t, "teamname") {
                    return n;
                }
            }
        }
    }
    crate::text::to_owned_string("svincolato")
}

/// The players whose resolved name matches `query_lower` (already normalized) or whose id is
/// `query_num`, in record order, at most [`GLOBAL_SEARCH_LIMIT`] of them: id, name, and a
/// line with rating and team.
pub fn global_search_players(squad: &SquadFile, reference: Option<&SquadFile>, query_lower: &str, query_num: Option<i64>) -> (r: Vec<(i64, String, String)>)
    requires
        squad.wf(),
        readable(*squad),
        reference_ok(reference),
    ensures
        player_results_view(r@) == capped(
            player_hits(*squad, deref_opt(reference), query_lower@, query_num, live_count(*squad, "CZUM"@)),
        ),
{
    let mut results: Vec<(i64, String, String)> = Vec::new();
    let q = chars_of(query_lower);
    let indices = squad.written_record_indices("CZUM");
    let ghost total = live_count(*squad, "CZUM"@);
    let ghost rf = deref_opt(reference);
    let mut k: usize = 0;
    while k < indices.len()
        invariant
            squad.wf(),
            readable(*squad),
            reference_ok(reference),
            rf == deref_opt(reference),
            q@ == query_lower@,
            indices@.len() == total,
            total == live_count(*squad, "CZUM"@),
            forall|x: int| 0 <= x < indices@.len() ==> #[trigger] indices@[x] == x,
            k <= indices@.len(),
            player_results_view(results@) == player_hits(*squad, rf, query_lower@, query_num, k as int),
            results@.len() < GLOBAL_SEARCH_LIMIT,
        decreases indices@.len() - k,
    {
        let idx = indices[k];
        let playerid = match int_field(squad, "CZUM", idx, "playerid") {
            Some(v) => v,
            None => -1,
        };
        let name = resolve_player_name(squad, reference, "CZUM", idx);
        let norm = chars_of(normalize_search(name.as_str()).as_str());
        let matched = contains_chars(&norm, &q) || query_num == Some(playerid);
        if matched {
            let ovr = match int_field(squad, "CZUM", idx, "overallrating") {
                Some(v) => v,
                None => 0,
            };
            let mut detail = String::new();
            push_str(&mut detail, "OVR ");
            push_i64(&mut detail, ovr);
            push_str(&mut detail, " — ");
            let team = player_team_name_exec(squad, playerid);
            push_str(&mut detail, team.as_str());
            assert(detail@ =~= player_detail(*squad, idx as int, playerid));
            let ghost before = results@;
            results.push((playerid, name, detail));
            proof {
                assert(player_results_view(results@) =~= player_results_view(before).push((playerid, name@, detail@)));
            }
            if results.len() >= GLOBAL_SEARCH_LIMIT {
                proof {
                    let h = player_hits(*squad, rf, query_lower@, query_num, (k + 1) as int);
                    assert(player_results_view(results@) == h);
                    lemma_player_hits_prefix(*squad, rf, query_lower@, query_num, (k + 1) as int, total);
                    let all = player_hits(*squad, rf, query_lower@, query_num, total);
                    assert(capped(all) =~= h);
                }
                return results;
            }
        }
        k = k + 1;
    }
    results
}

/// The player in slot `slot` of a team's saved line-up, by its name and overall rating.
pub open spec fn spec_slot_player(squad: SquadFile, reference: Option<SquadFile>, team_id: i64, slot: int) -> Option<(Seq<char>, i64)> {
    match spec_team_record(squad, "default_teamsheets"@, team_id) {
        Some((sheets, sheet_index)) => match spec_int_field(squad, sheets, sheet_index, numbered("playerid"@, slot as nat)) {
            Some(player_id) => match found_record(squad, "CZUM"@, "playerid"@, player_id) {
                Some(p) => Some((spec_player_name(squad, reference, "CZUM"@, p), int_or(squad, "CZUM"@, p, "overallrating"@, 0i64))),
                None => None,
            },
            None => None,
        },
        None => None,
    }
}

/// The name and overall rating of the player in slot `slot` of the saved line-up of team
/// `team_id`; none when the team has no line-up, the slot no player, or the player no record.
pub fn slot_player(squad: &SquadFile, reference: Option<&SquadFile>, team_id: i64, slot: usize) -> (r: Option<(String, i64)>)
    requires
        squad.wf(),
        readable(*squad),
        reference_ok(reference),
    ensures
        match spec_slot_player(*squad, deref_opt(reference), team_id, slot as int) {
            Some((name, ovr)) => r matches Some((n, o)) && n@ == name && o == ovr,
            None => r is None,
        },
{
    let (sheets, sheet_index) = match crate::editor::find_teamsheet(squad, team_id) {
        Some(x) => x,
        None => return None,
    };
    let mut field = String::new();
    push_str(&mut field, "playerid");
    crate::text::push_u64(&mut field, slot as u64);
    assert(field@ =~= numbered("playerid"@, slot as nat));
    let player_id = match int_field(squad, sheets.as_str(), sheet_index, field.as_str()) {
        Some(v) => v,
        None => return None,
    };
    let player_index = match find_record_by_int_field(squad, "CZUM", "playerid", player_id) {
        Some(i) => i,
        None => return None,
    };
    let name = resolve_player_name(squad, reference, "CZUM", player_index);
    let overall = match int_field(squad, "CZUM", player_index, "overallrating") {
        Some(v) => v,
        None => 0,
    };
    Some((name, overall))
}

/// The team of player `player_id` through the player-team links, if it has one.
pub open spec fn spec_player_team_id(squad: SquadFile, player_id: i64) -> Option<i64> {
    match found_record(squad, "RrqT"@, "playerid"@, player_id) {
        Some(link) => spec_int_field(squad, "RrqT"@, link, "teamid"@),
        None => None,
    }
}

/// The team a player plays for: the `teamid` of the first player-team link of the player.
pub fn player_team_id(squad: &SquadFile, player_id: i64) -> (r: Option<i64>)
    requires
        squad.wf(),
        readable(*squad),
    ensures
        r == spec_player_team_id(*squad, player_id),
{
    match find_record_by_int_field(squad, "RrqT", "playerid", player_id) {
        Some(link) => int_field(squad, "RrqT", link, "teamid"),
        None => None,
    }
}

// ---------------------------------------------------------------------------------------
// The team, league and roster lists
// ---------------------------------------------------------------------------------------

/// A name is listed for a search: not hidden (a name starting with `*` where such names are
/// dropped), and the search is empty or the normalized name contains it.
pub open spec fn listed(name: Seq<char>, search_lower: Seq<char>, drop_star: bool) -> bool {
    &&& !(drop_star && name.len() > 0 && name[0] == '*')
    &&& (search_lower.len() == 0 || contains_text(normalized(name), search_lower))
}

/// The (name, id) entries of the first `n` records of table `ts` that are listed for the
/// search, in record order: the name as [`entry_name`] gives it, the id from `id_field`.
pub open spec fn list_entries(
    squad: SquadFile,
    ts: Seq<char>,
    id_field: Seq<char>,
    name_field: Seq<char>,
    fallback: Seq<char>,
    search_lower: Seq<char>,
    drop_star: bool,
    n: int,
) -> Seq<(Seq<char>, i64)>
    decreases n,
{
    if n <= 0 {
        Seq::empty()
    } else {
        let prev = list_entries(squad, ts, id_field, name_field, fallback, search_lower, drop_star, n - 1);
        let id = int_or(squad, ts, n - 1, id_field, -1i64);
        let name = entry_name(squad, ts, n - 1, name_field, fallback, id);
        if listed(name, search_lower, drop_star) {
            prev.push((name, id))
        } else {
            prev
        }
    }
}

/// (name, id) entries as (id, name) pairs.
pub open spec fn id_first_view(s: Seq<(Seq<char>, i64)>) -> Seq<(i64, Seq<char>)> {
    s.map_values(|p: (Seq<char>, i64)| (p.1, p.0))
}

/// The team list: each live team record as its name (its cleaned name, or "Team " and its id)
/// and its id, without names starting with `*`, those whose normalized name contains the
/// search (all when it is empty), sorted by lower-cased name.
pub open spec fn spec_team_list(squad: SquadFile, search_lower: Seq<char>) -> Seq<(i64, Seq<char>)> {
    id_first_view(
        sort_by_lower(
            list_entries(squad, "lyxL"@, "teamid"@, "teamname"@, "Team "@, search_lower, true, live_count(squad, "lyxL"@)),
        ),
    )
}

/// The league list over the table named `leagues`, filtered and sorted as the team list is,
/// without dropping any name.
pub open spec fn spec_league_list(squad: SquadFile, search_lower: Seq<char>) -> Seq<(i64, Seq<char>)> {
    match first_named_table(squad.tables@, "leagues"@, 0) {
        Some(i) => {
            let sn = squad.tables@[i].shortname@;
            id_first_view(
                sort_by_lower(list_entries(squad, sn, "leagueid"@, "leaguename"@, "League "@, search_lower, false, live_count(squad, sn))),
            )
        },
        None => Seq::empty(),
    }
}

/// Sorts entries by lower-cased name; entries with equal keys keep their order.
fn sort_named(v: Vec<(String, i64)>) -> (r: Vec<(String, i64)>)
    ensures
        entries_view(r@) == sort_by_lower(entries_view(v@)),
{
    let ghost all = entries_view(v@);
    let mut out: Vec<(String, i64)> = Vec::new();
    let mut keys: Vec<Vec<char>> = Vec::new();
    let mut k: usize = 0;
    while k < v.len()
        invariant
            all == entries_view(v@),
            k <= v@.len(),
            entries_view(out@) == sort_by_lower(all.take(k as int)),
            keys@.len() == out@.len(),
            forall|j: int| 0 <= j < keys@.len() ==> (#[trigger] keys@[j])@ == lowercased(out@[j].0@),
        decreases v@.len() - k,
    {
        let label = v[k].0.clone();
        let id = v[k].1;
        let ghost entry = all[k as int];
        assert(entry == (v@[k as int].0@, id));
        assert(label@ == entry.0);
        let key = chars_of(to_lower(label.as_str()).as_str());
        let ghost t = entries_view(out@);
        let mut pos: usize = 0;
        while pos < out.len() && !chars_lt(&key, &keys[pos])
            invariant
                pos <= out@.len(),
                t == entries_view(out@),
                keys@.len() == out@.len(),
                forall|j: int| 0 <= j < keys@.len() ==> (#[trigger] keys@[j])@ == lowercased(out@[j].0@),
                key@ == lowercased(entry.0),
                label_insert_pos(t, key@, 0) == label_insert_pos(t, key@, pos as int),
            decreases out@.len() - pos,
        {
            assert(t[pos as int].0 == out@[pos as int].0@);
            pos = pos + 1;
        }
        proof {
            if pos < out@.len() {
                assert(t[pos as int].0 == out@[pos as int].0@);
            }
        }
        let ghost old_keys = keys@;
        let ghost old_out = out@;
        out.insert(pos, (label, id));
        keys.insert(pos, key);
        proof {
            let es = all.take(k + 1);
            assert(es.drop_last() =~= all.take(k as int));
            assert(es.last() == entry);
            assert(entries_view(out@) =~= t.insert(pos as int, entry));
            assert forall|j: int| 0 <= j < keys@.len() implies (#[trigger] keys@[j])@ == lowercased(out@[j].0@) by {
                if j < pos {
                    assert(keys@[j] == old_keys[j] && out@[j] == old_out[j]);
                } else if j > pos {
                    assert(keys@[j] == old_keys[j - 1] && out@[j] == old_out[j - 1]);
                }
            }
        }
        k = k + 1;
    }
    assert(all.take(v@.len() as int) =~= all);
    out
}

/// The (name, id) pairs as (id, name) pairs.
fn id_first(v: Vec<(String, i64)>) -> (r: Vec<(i64, String)>)
    ensures
        team_results_view(r@) == id_first_view(entries_view(v@)),
{
    let mut out: Vec<(i64, String)> = Vec::new();
    let mut k: usize = 0;
    while k < v.len()
        invariant
            k <= v@.len(),
            out@.len() == k,
            forall|j: int| 0 <= j < k ==> #[trigger] team_results_view(out@)[j] == id_first_view(entries_view(v@))[j],
        decreases v@.len() - k,
    {
        let name = v[k].0.clone();
        let ghost before = out@;
        out.push((v[k].1, name));
        proof {
            assert forall|j: int| 0 <= j < k + 1 implies #[trigger] team_results_view(out@)[j] == id_first_view(entries_view(v@))[j] by {
                if j < k {
                    assert(out@[j] == before[j]);
                    assert(team_results_view(before)[j] == id_first_view(entries_view(v@))[j]);
                }
            }
        }
        k = k + 1;
    }
    assert(team_results_view(out@) =~= id_first_view(entries_view(v@)));
    out
}

/// Whether `name` is listed for the search.
fn is_listed(name: &String, search_lower: &str, drop_star: bool) -> (r: bool)
    ensures
        r == listed(name@, search_lower@, drop_star),
{
    let cs = chars_of(name.as_str());
    if drop_star && cs.len() > 0 && cs[0] == '*' {
        return false;
    }
    let q = chars_of(search_lower);
    if q.len() == 0 {
        return true;
    }
    let hay = chars_of(normalize_search(name.as_str()).as_str());
    contains_chars(&hay, &q)
}

/// The listed (name, id) entries of the live records of table `ts`, in record order.
fn listed_entries(
    squad: &SquadFile,
    ts: &str,
    id_field: &str,
    name_field: &str,
    fallback: &str,
    search_lower: &str,
    drop_star: bool,
) -> (r: Vec<(String, i64)>)
    requires
        squad.wf(),
        readable(*squad),
    ensures
        entries_view(r@) == list_entries(*squad, ts@, id_field@, name_field@, fallback@, search_lower@, drop_star, live_count(*squad, ts@)),
{
    let indices = squad.written_record_indices(ts);
    let mut out: Vec<(String, i64)> = Vec::new();
    let mut k: usize = 0;
    while k < indices.len()
        invariant
            squad.wf(),
            readable(*squad),
            indices@.len() == live_count(*squad, ts@),
            forall|x: int| 0 <= x < indices@.len() ==> #[trigger] indices@[x] == x,
            k <= indices@.len(),
            entries_view(out@) == list_entries(*squad, ts@, id_field@, name_field@, fallback@, search_lower@, drop_star, k as int),
        decreases indices@.len() - k,
    {
        let idx = indices[k];
        let id = match int_field(squad, ts, idx, id_field) {
            Some(v) => v,
            None => -1,
        };
        let name = entry_name_exec(squad, ts, idx, name_field, fallback, id);
        if is_listed(&name, search_lower, drop_star) {
            let ghost before = entries_view(out@);
            out.push((name, id));
            assert(entries_view(out@) =~= before.push((name@, id)));
        }
        k = k + 1;
    }
    out
}

/// The team list: the live team records as (id, name), the name being the team's cleaned name
/// or "Team " and its id; names starting with `*` are left out, and so are those whose
/// normalized name does not contain `search_lower` (already normalized; an empty search keeps
/// all); sorted by lower-cased name.
pub fn team_list(squad: &SquadFile, search_lower: &str) -> (r: Vec<(i64, String)>)
    requires
        squad.wf(),
        readable(*squad),
    ensures
        team_results_view(r@) == spec_team_list(*squad, search_lower@),
{
    let entries = listed_entries(squad, "lyxL", "teamid", "teamname", "Team ", search_lower, true);
    id_first(sort_named(entries))
}

/// The league list: the live records of the table named `leagues` as (id, name), the name
/// being the league's cleaned name or "League " and its id, filtered by `search_lower` and
/// sorted as [`team_list`] does; empty when there is no such table.
pub fn league_list(squad: &SquadFile, search_lower: &str) -> (r: Vec<(i64, String)>)
    requires
        squad.wf(),
        readable(*squad),
    ensures
        team_results_view(r@) == spec_league_list(*squad, search_lower@),
{
    match crate::editor::table_shortname_by_name(squad, "leagues") {
        Some(sn) => {
            let entries = listed_entries(squad, sn.as_str(), "leagueid", "leaguename", "League ", search_lower, false);
            id_first(sort_named(entries))
        },
        None => {
            let out: Vec<(i64, String)> = Vec::new();
            assert(team_results_view(out@) =~= spec_league_list(*squad, search_lower@));
            out
        },
    }
}

/// The name of team `team_id`: the cleaned name of the first team record with that id, or
/// "Team " and the id when there is none or its name cannot be read.
pub open spec fn team_name_of(squad: SquadFile, team_id: i64) -> Seq<char> {
    let fallback = "Team "@ + int_decimal(team_id as int);
    match found_record(squad, "lyxL"@, "teamid"@, team_id) {
        Some(t) => match spec_field_text(squad, "lyxL"@, t, "teamname"@) {
            Some(n) => sanitized(n),
            None => fallback,
        },
        None => fallback,
    }
}

fn team_name_exec(squad: &SquadFile, team_id: i64) -> (r: String)
    requires
        squad.wf(),
        readable(*squad),
    ensures
        r@ == team_name_of(*squad, team_id),
{
    if let Some(t) = find_record_by_int_field(squad, "lyxL", "teamid", team_id) {
        if let Some(n) = read_text(squad, "lyxL", t, "teamname") {
            return sanitize_label(n.as_str());
        }
    }
    let mut out = String::new();
    push_str(&mut out, "Team ");
    push_i64(&mut out, team_id);
    assert(out@ =~= "Team "@ + int_decimal(team_id as int));
    out
}

/// The (name, id) entries of the teams of league `league_id` among the first `n` records of
/// link table `ts`, in record order: a record whose league is `league_id` and that has a team
/// id gives that team.
pub open spec fn link_entries(squad: SquadFile, ts: Seq<char>, league_id: i64, n: int) -> Seq<(Seq<char>, i64)>
    decreases n,
{
    if n <= 0 {
        Seq::empty()
    } else {
        let prev = link_entries(squad, ts, league_id, n - 1);
        if spec_int_field(squad, ts, n - 1, "leagueid"@) == Some(league_id) {
            match spec_int_field(squad, ts, n - 1, "teamid"@) {
                Some(tid) => prev.push((team_name_of(squad, tid), tid)),
                None => prev,
            }
        } else {
            prev
        }
    }
}

/// The teams of league `league_id`: the live records of the table named `leagueteamlinks`
/// with that league, each as its team's name and id, sorted by lower-cased name.
pub open spec fn spec_league_teams(squad: SquadFile, league_id: i64) -> Seq<(i64, Seq<char>)> {
    match first_named_table(squad.tables@, "leagueteamlinks"@, 0) {
        Some(i) => {
            let sn = squad.tables@[i].shortname@;
            id_first_view(sort_by_lower(link_entries(squad, sn, league_id, live_count(squad, sn))))
        },
        None => Seq::empty(),
    }
}

/// The teams of league `league_id` as (id, name): each live record of the table named
/// `leagueteamlinks` whose league is `league_id` and that has a team id, named as
/// [`team_name_of`] says, sorted by lower-cased name; empty when there is no such table.
pub fn league_teams(squad: &SquadFile, league_id: i64) -> (r: Vec<(i64, String)>)
    requires
        squad.wf(),
        readable(*squad),
    ensures
        team_results_view(r@) == spec_league_teams(*squad, league_id),
{
    let sn = match crate::editor::table_shortname_by_name(squad, "leagueteamlinks") {
        Some(sn) => sn,
        None => {
            let out: Vec<(i64, String)> = Vec::new();
            assert(team_results_view(out@) =~= spec_league_teams(*squad, league_id));
            return out;
        },
    };
    let ts = sn.as_str();
    let indices = squad.written_record_indices(ts);
    let mut out: Vec<(String, i64)> = Vec::new();
    let mut k: usize = 0;
    while k < indices.len()
        invariant
            squad.wf(),
            readable(*squad),
            indices@.len() == live_count(*squad, ts@),
            forall|x: int| 0 <= x < indices@.len() ==> #[trigger] indices@[x] == x,
            k <= indices@.len(),
            entries_view(out@) == link_entries(*squad, ts@, league_id, k as int),
        decreases indices@.len() - k,
    {
        let idx = indices[k];
        if int_field(squad, ts, idx, "leagueid") == Some(league_id) {
            if let Some(tid) = int_field(squad, ts, idx, "teamid") {
                let name = team_name_exec(squad, tid);
                let ghost before = entries_view(out@);
                out.push((name, tid));
                assert(entries_view(out@) =~= before.push((name@, tid)));
            }
        }
        k = k + 1;
    }
    id_first(sort_named(out))
}

/// A roster entry as plain values: player id, jersey number, overall rating, name, position.
pub open spec fn roster_view(v: Seq<(i64, i64, i64, String, i64)>) -> Seq<(i64, i64, i64, Seq<char>, i64)> {
    v.map_values(|e: (i64, i64, i64, String, i64)| (e.0, e.1, e.2, e.3@, e.4))
}

/// The roster entries of team `team_id` among the first `n` player-team links, in record
/// order: a link to the team whose player has a record gives (player id, jersey number,
/// overall rating, resolved name, position).
pub open spec fn roster_entries(squad: SquadFile, reference: Option<SquadFile>, team_id: i64, n: int) -> Seq<(i64, i64, i64, Seq<char>, i64)>
    decreases n,
{
    if n <= 0 {
        Seq::empty()
    } else {
        let prev = roster_entries(squad, reference, team_id, n - 1);
        let k = n - 1;
        if spec_int_field(squad, "RrqT"@, k, "teamid"@) == Some(team_id) {
            let pid = int_or(squad, "RrqT"@, k, "playerid"@, -1i64);
            match found_record(squad, "CZUM"@, "playerid"@, pid) {
                Some(p) => prev.push(
                    (
                        pid,
                        int_or(squad, "RrqT"@, k, "jerseynumber"@, 0i64),
                        int_or(squad, "CZUM"@, p, "overallrating"@, 0i64),
                        spec_player_name(squad, reference, "CZUM"@, p),
                        int_or(squad, "RrqT"@, k, "position"@, -1i64),
                    ),
                ),
                None => prev,
            }
        } else {
            prev
        }
    }
}

/// Where a stable sort by overall rating, highest first, puts an entry rated `rating` among the
/// sorted `s`: before the first entry rated lower.
pub open spec fn rating_insert_pos(s: Seq<(i64, i64, i64, Seq<char>, i64)>, rating: i64, from: int) -> int
    decreases s.len() - from,
{
    if from < 0 || from >= s.len() || s[from].2 < rating {
        from
    } else {
        rating_insert_pos(s, rating, from + 1)
    }
}

/// The entries sorted by overall rating, highest first; entries with equal ratings keep their
/// order.
pub open spec fn sort_by_rating(s: Seq<(i64, i64, i64, Seq<char>, i64)>) -> Seq<(i64, i64, i64, Seq<char>, i64)>
    decreases s.len(),
{
    if s.len() == 0 {
        s
    } else {
        let t = sort_by_rating(s.drop_last());
        t.insert(rating_insert_pos(t, s.last().2, 0), s.last())
    }
}

/// The roster of team `team_id`: its live player-team links whose player has a record, sorted
/// by overall rating, highest first.
pub open spec fn spec_roster(squad: SquadFile, reference: Option<SquadFile>, team_id: i64) -> Seq<(i64, i64, i64, Seq<char>, i64)> {
    sort_by_rating(roster_entries(squad, reference, team_id, live_count(squad, "RrqT"@)))
}

/// The roster of team `team_id`: for each live player-team link to the team whose player has a
/// record, the player id, jersey number (0 when unreadable), overall rating (0 when
/// unreadable), name resolved through `reference`, and position (-1 when unreadable); sorted by
/// overall rating, highest first, links with equal ratings in record order.
pub fn team_roster(squad: &SquadFile, reference: Option<&SquadFile>, team_id: i64) -> (r: Vec<(i64, i64, i64, String, i64)>)
    requires
        squad.wf(),
        readable(*squad),
        reference_ok(reference),
    ensures
        roster_view(r@) == spec_roster(*squad, deref_opt(reference), team_id),
{
    let indices = squad.written_record_indices("RrqT");
    let ghost refv = deref_opt(reference);
    let mut out: Vec<(i64, i64, i64, String, i64)> = Vec::new();
    let mut k: usize = 0;
    while k < indices.len()
        invariant
            squad.wf(),
            readable(*squad),
            reference_ok(reference),
            refv == deref_opt(reference),
            indices@.len() == live_count(*squad, "RrqT"@),
            forall|x: int| 0 <= x < indices@.len() ==> #[trigger] indices@[x] == x,
            k <= indices@.len(),
            roster_view(out@) == sort_by_rating(roster_entries(*squad, refv, team_id, k as int)),
        decreases indices@.len() - k,
    {
        let idx = indices[k];
        if int_field(squad, "RrqT", idx, "teamid") == Some(team_id) {
            let pid = match int_field(squad, "RrqT", idx, "playerid") {
                Some(v) => v,
                None => -1,
            };
            let jersey = match int_field(squad, "RrqT", idx, "jerseynumber") {
                Some(v) => v,
                None => 0,
            };
            let position = match int_field(squad, "RrqT", idx, "position") {
                Some(v) => v,
                None => -1,
            };
            if let Some(p) = find_record_by_int_field(squad, "CZUM", "playerid", pid) {
                let name = resolve_player_name(squad, reference, "CZUM", p);
                let overall = match int_field(squad, "CZUM", p, "overallrating") {
                    Some(v) => v,
                    None => 0,
                };
                let ghost entry = (pid, jersey, overall, name@, position);
                let ghost t = roster_view(out@);
                let mut pos: usize = 0;
                while pos < out.len() && !(out[pos].2 < overall)
                    invariant
                        pos <= out@.len(),
                        t == roster_view(out@),
                        rating_insert_pos(t, overall, 0) == rating_insert_pos(t, overall, pos as int),
                    decreases out@.len() - pos,
                {
                    assert(t[pos as int].2 == out@[pos as int].2);
                    pos = pos + 1;
                }
                proof {
                    if pos < out@.len() {
                        assert(t[pos as int].2 == out@[pos as int].2);
                    }
                }
                out.insert(pos, (pid, jersey, overall, name, position));
                proof {
                    let es = roster_entries(*squad, refv, team_id, k + 1);
                    assert(es.drop_last() == roster_entries(*squad, refv, team_id, k as int));
                    assert(es.last() == entry);
                    assert(roster_view(out@) =~= t.insert(pos as int, entry));
                }
            }
        }
        k = k + 1;
    }
    out
}

// ---------------------------------------------------------------------------------------
// Paging through the rows of a table
// ---------------------------------------------------------------------------------------

/// The number of rows on a page of the table view.
pub const PAGE_SIZE: usize = 20;

/// The number of pages for `total` rows: at least one.
pub open spec fn spec_total_pages(total: int) -> int {
    let n = (total + PAGE_SIZE - 1) / (PAGE_SIZE as int);
    if n < 1 {
        1
    } else {
        n
    }
}

/// The page, of `total` rows, that a request for page `page` shows (the last page where it
/// asks for one past it), and the rows it shows: from `start` up to `end`.
pub open spec fn spec_page(total: int, page: int) -> (int, int, int) {
    let p = if page < spec_total_pages(total) - 1 {
        page
    } else {
        spec_total_pages(total) - 1
    };
    let start = p * PAGE_SIZE;
    let end = if start + PAGE_SIZE < total {
        start + PAGE_SIZE
    } else {
        total
    };
    (p, start, end)
}

/// The page shown for a request for page `page` among `total` rows, and the positions of its
/// first row and one past its last: the number of pages, the page, the start and the end.
pub fn page_bounds(total: usize, page: usize) -> (r: (usize, usize, usize, usize))
    ensures
        r.0 == spec_total_pages(total as int),
        (r.1 as int, r.2 as int, r.3 as int) == spec_page(total as int, page as int),
        r.2 <= r.3 <= total,
{
    let pages = total / PAGE_SIZE + if total % PAGE_SIZE == 0 { 0 } else { 1 };
    let pages = if pages < 1 { 1 } else { pages };
    assert(pages == spec_total_pages(total as int)) by {
        assert((total + PAGE_SIZE - 1) / (PAGE_SIZE as int) == total / 20 + if total % 20 == 0 { 0int } else { 1int }) by (nonlinear_arith)
            requires total >= 0;
    }
    let p = if page < pages - 1 { page } else { pages - 1 };
    assert(p * 20 <= total) by (nonlinear_arith)
        requires
            p <= pages - 1,
            pages == if total / 20 + (if total % 20 == 0 { 0int } else { 1int }) < 1 { 1int } else { total / 20 + (if total % 20 == 0 { 0int } else { 1int }) },
            total >= 0,
    ;
    let start = p * PAGE_SIZE;
    let end = if total - start > PAGE_SIZE { start + PAGE_SIZE } else { total };
    (pages, p, start, end)
}

} // verus!
