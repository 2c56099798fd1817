//! Where a save keeps a copy of the file it replaces: the first free name `_1_name`,
//! `_2_name`, ... in the backup folder beside the file.
use vstd::prelude::*;

use crate::resources::probed;
use crate::text::{nat_decimal, push_str, push_u64};

verus! {

/// The most backups kept of one file.
pub const MAX_BACKUPS: usize = 99;

/// The name of the backup folder, beside the saved file.
pub fn backup_dir() -> (r: &'static str)
    ensures
        r@ == "SquadEditorBackups"@,
{
    "SquadEditorBackups"
}

/// The name of backup number `i` of file `name`.
pub open spec fn backup_name(i: nat, name: Seq<char>) -> Seq<char> {
    "_"@ + nat_decimal(i) + "_"@ + name
}

fn backup_name_exec(i: usize, name: &str) -> (r: String)
    ensures
        r@ == backup_name(i as nat, name@),
{
    let mut s = String::new();
    push_str(&mut s, "_");
    push_u64(&mut s, i as u64);
    push_str(&mut s, "_");
    push_str(&mut s, name);
    assert(s@ =~= backup_name(i as nat, name@));
    s
}

/// The name for a new backup of file `name`: the first of `_1_name` to `_99_name` that the
/// probe `is_taken` does not find, every earlier one having been found; none when all exist.
pub fn backup_path_for<E: Fn(&str) -> bool>(name: &str, is_taken: &E) -> (r: Option<String>)
    requires
        forall|s: &str| call_requires(*is_taken, (s,)),
    ensures
        match r {
            Some(p) => exists|i: int| {
                &&& 1 <= i <= MAX_BACKUPS
                &&& p@ == #[trigger] backup_name(i as nat, name@)
                &&& probed(is_taken, p@, false)
                &&& forall|j: int| 1 <= j < i ==> #[trigger] probed(is_taken, backup_name(j as nat, name@), true)
            },
            None => forall|j: int| 1 <= j <= MAX_BACKUPS ==> #[trigger] probed(is_taken, backup_name(j as nat, name@), true),
        },
{
    let mut i: usize = 1;
    while i <= MAX_BACKUPS
        invariant
            1 <= i <= MAX_BACKUPS + 1,
            forall|s: &str| call_requires(*is_taken, (s,)),
            forall|j: int| 1 <= j < i ==> #[trigger] probed(is_taken, backup_name(j as nat, name@), true),
        decreases MAX_BACKUPS + 1 - i,
    {
        let candidate = backup_name_exec(i, name);
        let taken = is_taken(candidate.as_str());
        if !taken {
            assert(probed(is_taken, candidate@, false));
            let ghost k = i as int;
            assert(candidate@ == backup_name(k as nat, name@));
            assert(forall|j: int| 1 <= j < k ==> #[trigger] probed(is_taken, backup_name(j as nat, name@), true));
            assert({
                &&& 1 <= k <= MAX_BACKUPS
                &&& candidate@ == backup_name(k as nat, name@)
                &&& probed(is_taken, candidate@, false)
                &&& forall|j: int| 1 <= j < k ==> #[trigger] probed(is_taken, backup_name(j as nat, name@), true)
            });
            return Some(candidate);
        }
        assert(probed(is_taken, backup_name(i as nat, name@), true));
        i = i + 1;
    }
    None
}

} // verus!
