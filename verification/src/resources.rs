//! Where the editor's pictures live under its assets folder: a formation diagram, a player's
//! head, hair and facial hair items. Each lookup names a path relative to that folder and asks
//! the caller's probe whether a file is there.
use vstd::prelude::*;

use crate::text::{int_decimal, push_i64, push_str};

verus! {

/// The probe `is_file` answered `found` for a path whose text is `path`.
pub open spec fn probed<E: Fn(&str) -> bool>(is_file: &E, path: Seq<char>, found: bool) -> bool {
    exists|s: &str| s@ == path && #[trigger] call_ensures(*is_file, (s,), found)
}

/// `r` is what a lookup of `path` gives: the path where the probe found a file, else nothing.
pub open spec fn looked_up<E: Fn(&str) -> bool>(is_file: &E, path: Seq<char>, r: Option<String>) -> bool {
    match r {
        Some(p) => p@ == path && probed(is_file, path, true),
        None => probed(is_file, path, false),
    }
}

/// `r` is the first of `paths` where the probe found a file, each earlier one having been
/// probed and not found; nothing when none of them was found.
pub open spec fn first_found<E: Fn(&str) -> bool>(is_file: &E, paths: Seq<Seq<char>>, r: Option<String>) -> bool
    decreases paths.len(),
{
    if paths.len() == 0 {
        r is None
    } else if probed(is_file, paths[0], true) && (r matches Some(p) && p@ == paths[0]) {
        true
    } else {
        probed(is_file, paths[0], false) && first_found(is_file, paths.drop_first(), r)
    }
}

/// The path of the picture shown when no head is found.
pub open spec fn placeholder_path() -> Seq<char> {
    "heads/notfound_0.png"@
}

/// The path `prefix`, the decimal `v`, then `suffix`.
pub open spec fn numbered_path(prefix: Seq<char>, v: int, suffix: Seq<char>) -> Seq<char> {
    prefix + int_decimal(v) + suffix
}

fn path_with(prefix: &str, v: i64, suffix: &str) -> (r: String)
    ensures
        r@ == numbered_path(prefix@, v as int, suffix@),
{
    let mut s = String::new();
    push_str(&mut s, prefix);
    push_i64(&mut s, v);
    push_str(&mut s, suffix);
    assert(s@ =~= numbered_path(prefix@, v as int, suffix@));
    s
}

/// The path `relative` when the probe finds a file there.
pub fn existing<E: Fn(&str) -> bool>(relative: String, is_file: &E) -> (r: Option<String>)
    requires
        forall|s: &str| call_requires(*is_file, (s,)),
    ensures
        looked_up(is_file, relative@, r),
{
    let found = is_file(relative.as_str());
    if found {
        Some(relative)
    } else {
        None
    }
}

/// The placeholder head picture.
pub fn not_found_placeholder<E: Fn(&str) -> bool>(is_file: &E) -> (r: Option<String>)
    requires
        forall|s: &str| call_requires(*is_file, (s,)),
    ensures
        looked_up(is_file, placeholder_path(), r),
{
    let mut p = String::new();
    push_str(&mut p, "heads/notfound_0.png");
    assert(p@ =~= placeholder_path());
    existing(p, is_file)
}

/// The diagram of formation `formation_id`.
pub fn formation_diagram<E: Fn(&str) -> bool>(formation_id: i64, is_file: &E) -> (r: Option<String>)
    requires
        forall|s: &str| call_requires(*is_file, (s,)),
    ensures
        looked_up(is_file, numbered_path("formations/"@, formation_id as int, ".png"@), r),
{
    existing(path_with("formations/", formation_id, ".png"), is_file)
}

/// The head of a player: the player's own picture, else the generic head of its head asset,
/// else the placeholder.
pub fn player_head<E: Fn(&str) -> bool>(player_id: i64, head_asset_id: i64, is_file: &E) -> (r: Option<String>)
    requires
        forall|s: &str| call_requires(*is_file, (s,)),
    ensures
        first_found(
            is_file,
            seq![
                numbered_path("heads/p"@, player_id as int, ".png"@),
                numbered_path("gheads/"@, head_asset_id as int, ".png"@),
                placeholder_path(),
            ],
            r,
        ),
{
    let ghost paths = seq![
        numbered_path("heads/p"@, player_id as int, ".png"@),
        numbered_path("gheads/"@, head_asset_id as int, ".png"@),
        placeholder_path(),
    ];
    assert(paths.drop_first().drop_first().drop_first() =~= Seq::<Seq<char>>::empty());
    assert(paths.drop_first()[0] == paths[1]);
    assert(paths.drop_first().drop_first()[0] == paths[2]);
    let own = existing(path_with("heads/p", player_id, ".png"), is_file);
    if own.is_some() {
        return own;
    }
    let generic = existing(path_with("gheads/", head_asset_id, ".png"), is_file);
    if generic.is_some() {
        assert(first_found(is_file, paths.drop_first(), generic));
        return generic;
    }
    let r = not_found_placeholder(is_file);
    proof {
        let rest = paths.drop_first().drop_first();
        assert(first_found(is_file, rest.drop_first(), None));
        assert(first_found(is_file, rest, r));
        assert(first_found(is_file, paths.drop_first(), r));
    }
    r
}

/// The picture of hairstyle `hairstyle_code`.
pub fn hairstyle<E: Fn(&str) -> bool>(hairstyle_code: i64, is_file: &E) -> (r: Option<String>)
    requires
        forall|s: &str| call_requires(*is_file, (s,)),
    ensures
        looked_up(is_file, numbered_path("hairstyle/item_"@, hairstyle_code as int, "_0.png"@), r),
{
    existing(path_with("hairstyle/item_", hairstyle_code, "_0.png"), is_file)
}

/// The swatch of hair colour `haircolor_code`.
pub fn haircolor_swatch<E: Fn(&str) -> bool>(haircolor_code: i64, is_file: &E) -> (r: Option<String>)
    requires
        forall|s: &str| call_requires(*is_file, (s,)),
    ensures
        looked_up(is_file, numbered_path("haircolor/haircolor_"@, haircolor_code as int, ".png"@), r),
{
    existing(path_with("haircolor/haircolor_", haircolor_code, ".png"), is_file)
}

/// The picture of facial hair style `facial_hair_code`.
pub fn facial_hair<E: Fn(&str) -> bool>(facial_hair_code: i64, is_file: &E) -> (r: Option<String>)
    requires
        forall|s: &str| call_requires(*is_file, (s,)),
    ensures
        looked_up(is_file, numbered_path("facialhairstyle/item_"@, facial_hair_code as int, "_0.png"@), r),
{
    existing(path_with("facialhairstyle/item_", facial_hair_code, "_0.png"), is_file)
}

} // verus!
