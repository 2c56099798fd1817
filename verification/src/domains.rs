//! Readable labels for the coded values of player and team fields.
use vstd::prelude::*;

use crate::text::str_eq;

verus! {

/// A coded value and its label.
pub struct DomainEntry {
    pub value: i64,
    pub label: &'static str,
}

/// The domain that a column of a table takes its labels from; `*` stands for every table.
pub struct FieldDomain {
    pub table: &'static str,
    pub column: &'static str,
    pub domain: &'static str,
}

/// The values and labels of a list of entries.
pub open spec fn entries_view(v: Seq<DomainEntry>) -> Seq<(i64, Seq<char>)> {
    v.map_values(|e: DomainEntry| (e.value, e.label@))
}

/// The table, column and domain of a list of field domains.
pub open spec fn field_domains_view(v: Seq<FieldDomain>) -> Seq<(Seq<char>, Seq<char>, Seq<char>)> {
    v.map_values(|f: FieldDomain| (f.table@, f.column@, f.domain@))
}

/// The entries of the `Accessory` domain.
pub open spec fn spec_domain_accessory() -> Seq<(i64, Seq<char>)> {
    seq![
        (0i64, "None"@),
        (1i64, "Unused"@),
        (2i64, "Right Bracelet"@),
        (3i64, "Left Bracelet"@),
        (4i64, "Ankles Tapes"@),
        (5i64, "Left Calf Tape"@),
        (6i64, "Right Calf Tape"@),
        (7i64, "Left Wrist Tape"@),
        (8i64, "Right Wrist Tape"@),
        (9i64, "Left Finger Tape"@),
        (10i64, "Right Finger Tape"@),
        (11i64, "Unused"@),
        (12i64, "Unused"@),
        (13i64, "Left Bracelet"@),
        (14i64, "Right Bracelet"@),
        (15i64, "Left Wrist Tape"@),
        (16i64, "Right Wrist Tape"@),
        (17i64, "Unused"@),
        (18i64, "Unused"@),
        (19i64, "Headbend"@)
    ]
}

fn domain_accessory() -> (r: Vec<DomainEntry>)
    ensures
        entries_view(r@) == spec_domain_accessory(),
{
    let r = vec![
        DomainEntry { value: 0, label: "None" },
        DomainEntry { value: 1, label: "Unused" },
        DomainEntry { value: 2, label: "Right Bracelet" },
        DomainEntry { value: 3, label: "Left Bracelet" },
        DomainEntry { value: 4, label: "Ankles Tapes" },
        DomainEntry { value: 5, label: "Left Calf Tape" },
        DomainEntry { value: 6, label: "Right Calf Tape" },
        DomainEntry { value: 7, label: "Left Wrist Tape" },
        DomainEntry { value: 8, label: "Right Wrist Tape" },
        DomainEntry { value: 9, label: "Left Finger Tape" },
        DomainEntry { value: 10, label: "Right Finger Tape" },
        DomainEntry { value: 11, label: "Unused" },
        DomainEntry { value: 12, label: "Unused" },
        DomainEntry { value: 13, label: "Left Bracelet" },
        DomainEntry { value: 14, label: "Right Bracelet" },
        DomainEntry { value: 15, label: "Left Wrist Tape" },
        DomainEntry { value: 16, label: "Right Wrist Tape" },
        DomainEntry { value: 17, label: "Unused" },
        DomainEntry { value: 18, label: "Unused" },
        DomainEntry { value: 19, label: "Headbend" }
    ];
    assert(entries_view(r@) =~= spec_domain_accessory());
    r
}

/// The entries of the `AccessoryCode` domain.
pub open spec fn spec_domain_accessory_code() -> Seq<(i64, Seq<char>)> {
    seq![
        (0i64, "None"@),
        (1i64, "Undefined"@),
        (2i64, "Hearphone"@),
        (3i64, "Undefined"@),
        (4i64, "Left Watch"@),
        (5i64, "Right Watch"@),
        (6i64, "Left Hand Tape"@),
        (7i64, "Right Hand Tape"@),
        (8i64, "Left Wristle Tape"@),
        (9i64, "Right Wristle Tape"@),
        (10i64, "Left Knee Tape"@),
        (11i64, "Right Knee Tape"@),
        (12i64, "Left Knee Tutor"@),
        (13i64, "Right Knee Tutor"@),
        (14i64, "Left Ankle Tape"@),
        (15i64, "Right Ankle Tape"@),
        (16i64, "Gloves"@),
        (17i64, "Undefined"@),
        (18i64, "Undefined"@),
        (19i64, "Undefined"@),
        (20i64, "Undefined"@),
        (21i64, "Undefined"@),
        (22i64, "Left Finger Tape"@),
        (23i64, "Right Finger Tape"@),
        (24i64, "Left Wristle Wide Tape"@),
        (25i64, "Right Wristle Wide Tape"@),
        (26i64, "Left Bracelet"@),
        (27i64, "Right Bracelet"@)
    ]
}

fn domain_accessory_code() -> (r: Vec<DomainEntry>)
    ensures
        entries_view(r@) == spec_domain_accessory_code(),
{
    let r = vec![
        DomainEntry { value: 0, label: "None" },
        DomainEntry { value: 1, label: "Undefined" },
        DomainEntry { value: 2, label: "Hearphone" },
        DomainEntry { value: 3, label: "Undefined" },
        DomainEntry { value: 4, label: "Left Watch" },
        DomainEntry { value: 5, label: "Right Watch" },
        DomainEntry { value: 6, label: "Left Hand Tape" },
        DomainEntry { value: 7, label: "Right Hand Tape" },
        DomainEntry { value: 8, label: "Left Wristle Tape" },
        DomainEntry { value: 9, label: "Right Wristle Tape" },
        DomainEntry { value: 10, label: "Left Knee Tape" },
        DomainEntry { value: 11, label: "Right Knee Tape" },
        DomainEntry { value: 12, label: "Left Knee Tutor" },
        DomainEntry { value: 13, label: "Right Knee Tutor" },
        DomainEntry { value: 14, label: "Left Ankle Tape" },
        DomainEntry { value: 15, label: "Right Ankle Tape" },
        DomainEntry { value: 16, label: "Gloves" },
        DomainEntry { value: 17, label: "Undefined" },
        DomainEntry { value: 18, label: "Undefined" },
        DomainEntry { value: 19, label: "Undefined" },
        DomainEntry { value: 20, label: "Undefined" },
        DomainEntry { value: 21, label: "Undefined" },
        DomainEntry { value: 22, label: "Left Finger Tape" },
        DomainEntry { value: 23, label: "Right Finger Tape" },
        DomainEntry { value: 24, label: "Left Wristle Wide Tape" },
        DomainEntry { value: 25, label: "Right Wristle Wide Tape" },
        DomainEntry { value: 26, label: "Left Bracelet" },
        DomainEntry { value: 27, label: "Right Bracelet" }
    ];
    assert(entries_view(r@) =~= spec_domain_accessory_code());
    r
}

/// The entries of the `AccessoryColor` domain.
pub open spec fn spec_domain_accessory_color() -> Seq<(i64, Seq<char>)> {
    seq![
        (0i64, "White"@),
        (1i64, "Black"@),
        (2i64, "Blue"@),
        (3i64, "Red"@),
        (4i64, "Yellow"@),
        (5i64, "Dark Green"@),
        (6i64, "Orange"@),
        (7i64, "Violet"@),
        (8i64, "Brown"@),
        (9i64, "Pink"@),
        (10i64, "Bordeaux"@),
        (11i64, "Cyan"@),
        (12i64, "Blue Navy"@),
        (13i64, "Undefined"@)
    ]
}

fn domain_accessory_color() -> (r: Vec<DomainEntry>)
    ensures
        entries_view(r@) == spec_domain_accessory_color(),
{
    let r = vec![
        DomainEntry { value: 0, label: "White" },
        DomainEntry { value: 1, label: "Black" },
        DomainEntry { value: 2, label: "Blue" },
        DomainEntry { value: 3, label: "Red" },
        DomainEntry { value: 4, label: "Yellow" },
        DomainEntry { value: 5, label: "Dark Green" },
        DomainEntry { value: 6, label: "Orange" },
        DomainEntry { value: 7, label: "Violet" },
        DomainEntry { value: 8, label: "Brown" },
        DomainEntry { value: 9, label: "Pink" },
        DomainEntry { value: 10, label: "Bordeaux" },
        DomainEntry { value: 11, label: "Cyan" },
        DomainEntry { value: 12, label: "Blue Navy" },
        DomainEntry { value: 13, label: "Undefined" }
    ];
    assert(entries_view(r@) =~= spec_domain_accessory_color());
    r
}

/// The entries of the `AttackTactic1` domain.
pub open spec fn spec_domain_attack_tactic1() -> Seq<(i64, Seq<char>)> {
    seq![
        (0i64, "Counter Attack"@),
        (1i64, "Wing Play"@),
        (2i64, "Box Overload"@),
        (3i64, "3rd Man Release"@)
    ]
}

fn domain_attack_tactic1() -> (r: Vec<DomainEntry>)
    ensures
        entries_view(r@) == spec_domain_attack_tactic1(),
{
    let r = vec![
        DomainEntry { value: 0, label: "Counter Attack" },
        DomainEntry { value: 1, label: "Wing Play" },
        DomainEntry { value: 2, label: "Box Overload" },
        DomainEntry { value: 3, label: "3rd Man Release" }
    ];
    assert(entries_view(r@) =~= spec_domain_attack_tactic1());
    r
}

/// The entries of the `AttackTactic2` domain.
pub open spec fn spec_domain_attack_tactic2() -> Seq<(i64, Seq<char>)> {
    seq![
        (0i64, "None"@),
        (1i64, "Counter Attack"@),
        (2i64, "Wing Play"@),
        (3i64, "Box Overload"@),
        (4i64, "3rd Man Release"@)
    ]
}

fn domain_attack_tactic2() -> (r: Vec<DomainEntry>)
    ensures
        entries_view(r@) == spec_domain_attack_tactic2(),
{
    let r = vec![
        DomainEntry { value: 0, label: "None" },
        DomainEntry { value: 1, label: "Counter Attack" },
        DomainEntry { value: 2, label: "Wing Play" },
        DomainEntry { value: 3, label: "Box Overload" },
        DomainEntry { value: 4, label: "3rd Man Release" }
    ];
    assert(entries_view(r@) =~= spec_domain_attack_tactic2());
    r
}

/// The entries of the `BodySizeCode` domain.
pub open spec fn spec_domain_body_size_code() -> Seq<(i64, Seq<char>)> {
    seq![
        (0i64, "Unused"@),
        (1i64, "Small"@),
        (2i64, "Normal"@),
        (3i64, "Big"@),
        (4i64, "Unused"@)
    ]
}

fn domain_body_size_code() -> (r: Vec<DomainEntry>)
    ensures
        entries_view(r@) == spec_domain_body_size_code(),
{
    let r = vec![
        DomainEntry { value: 0, label: "Unused" },
        DomainEntry { value: 1, label: "Small" },
        DomainEntry { value: 2, label: "Normal" },
        DomainEntry { value: 3, label: "Big" },
        DomainEntry { value: 4, label: "Unused" }
    ];
    assert(entries_view(r@) =~= spec_domain_body_size_code());
    r
}

/// The entries of the `BodyTypeCode` domain.
pub open spec fn spec_domain_body_type_code() -> Seq<(i64, Seq<char>)> {
    seq![
        (0i64, "Average and Lean"@),
        (1i64, "Average"@),
        (2i64, "Average and Muscular"@),
        (3i64, "Tall and Lean"@),
        (4i64, "Tall"@),
        (5i64, "Tall and Muscular"@),
        (6i64, "Short and Lean"@),
        (7i64, "Short"@),
        (8i64, "Short and Muscular"@)
    ]
}

fn domain_body_type_code() -> (r: Vec<DomainEntry>)
    ensures
        entries_view(r@) == spec_domain_body_type_code(),
{
    let r = vec![
        DomainEntry { value: 0, label: "Average and Lean" },
        DomainEntry { value: 1, label: "Average" },
        DomainEntry { value: 2, label: "Average and Muscular" },
        DomainEntry { value: 3, label: "Tall and Lean" },
        DomainEntry { value: 4, label: "Tall" },
        DomainEntry { value: 5, label: "Tall and Muscular" },
        DomainEntry { value: 6, label: "Short and Lean" },
        DomainEntry { value: 7, label: "Short" },
        DomainEntry { value: 8, label: "Short and Muscular" }
    ];
    assert(entries_view(r@) =~= spec_domain_body_type_code());
    r
}

/// The entries of the `Confederation` domain.
pub open spec fn spec_domain_confederation() -> Seq<(i64, Seq<char>)> {
    seq![
        (0i64, "None"@),
        (1i64, "UEFA"@),
        (2i64, "CAF"@),
        (3i64, "CONMEBOL"@),
        (4i64, "AFC"@),
        (5i64, "OFC"@),
        (6i64, "CONCACAF"@)
    ]
}

fn domain_confederation() -> (r: Vec<DomainEntry>)
    ensures
        entries_view(r@) == spec_domain_confederation(),
{
    let r = vec![
        DomainEntry { value: 0, label: "None" },
        DomainEntry { value: 1, label: "UEFA" },
        DomainEntry { value: 2, label: "CAF" },
        DomainEntry { value: 3, label: "CONMEBOL" },
        DomainEntry { value: 4, label: "AFC" },
        DomainEntry { value: 5, label: "OFC" },
        DomainEntry { value: 6, label: "CONCACAF" }
    ];
    assert(entries_view(r@) =~= spec_domain_confederation());
    r
}

/// The entries of the `Continent` domain.
pub open spec fn spec_domain_continent() -> Seq<(i64, Seq<char>)> {
    seq![
        (0i64, "Undefined"@),
        (1i64, "Europe"@),
        (2i64, "North America"@),
        (3i64, "South America"@),
        (4i64, "Asia"@),
        (5i64, "Africa"@),
        (6i64, "Oceania"@)
    ]
}

fn domain_continent() -> (r: Vec<DomainEntry>)
    ensures
        entries_view(r@) == spec_domain_continent(),
{
    let r = vec![
        DomainEntry { value: 0, label: "Undefined" },
        DomainEntry { value: 1, label: "Europe" },
        DomainEntry { value: 2, label: "North America" },
        DomainEntry { value: 3, label: "South America" },
        DomainEntry { value: 4, label: "Asia" },
        DomainEntry { value: 5, label: "Africa" },
        DomainEntry { value: 6, label: "Oceania" }
    ];
    assert(entries_view(r@) =~= spec_domain_continent());
    r
}

/// The entries of the `Currency` domain.
pub open spec fn spec_domain_currency() -> Seq<(i64, Seq<char>)> {
    seq![
        (0i64, "€"@),
        (1i64, "$"@),
        (2i64, "£"@)
    ]
}

fn domain_currency() -> (r: Vec<DomainEntry>)
    ensures
        entries_view(r@) == spec_domain_currency(),
{
    let r = vec![
        DomainEntry { value: 0, label: "€" },
        DomainEntry { value: 1, label: "$" },
        DomainEntry { value: 2, label: "£" }
    ];
    assert(entries_view(r@) =~= spec_domain_currency());
    r
}

/// The entries of the `DefPositioning` domain.
pub open spec fn spec_domain_def_positioning() -> Seq<(i64, Seq<char>)> {
    seq![
        (0i64, "Cover"@),
        (1i64, "Offside Trap"@)
    ]
}

fn domain_def_positioning() -> (r: Vec<DomainEntry>)
    ensures
        entries_view(r@) == spec_domain_def_positioning(),
{
    let r = vec![
        DomainEntry { value: 0, label: "Cover" },
        DomainEntry { value: 1, label: "Offside Trap" }
    ];
    assert(entries_view(r@) =~= spec_domain_def_positioning());
    r
}

/// The entries of the `DefenseTactic1` domain.
pub open spec fn spec_domain_defense_tactic1() -> Seq<(i64, Seq<char>)> {
    seq![
        (0i64, "Pressing"@),
        (1i64, "Offside Trap"@),
        (2i64, "Zone Defense"@),
        (3i64, "Flat Back"@)
    ]
}

fn domain_defense_tactic1() -> (r: Vec<DomainEntry>)
    ensures
        entries_view(r@) == spec_domain_defense_tactic1(),
{
    let r = vec![
        DomainEntry { value: 0, label: "Pressing" },
        DomainEntry { value: 1, label: "Offside Trap" },
        DomainEntry { value: 2, label: "Zone Defense" },
        DomainEntry { value: 3, label: "Flat Back" }
    ];
    assert(entries_view(r@) =~= spec_domain_defense_tactic1());
    r
}

/// The entries of the `DefenseTactic2` domain.
pub open spec fn spec_domain_defense_tactic2() -> Seq<(i64, Seq<char>)> {
    seq![
        (0i64, "Pressing"@),
        (1i64, "Offside Trap"@),
        (2i64, "Zone Defense"@),
        (3i64, "Flat Back"@),
        (4i64, "None"@)
    ]
}

fn domain_defense_tactic2() -> (r: Vec<DomainEntry>)
    ensures
        entries_view(r@) == spec_domain_defense_tactic2(),
{
    let r = vec![
        DomainEntry { value: 0, label: "Pressing" },
        DomainEntry { value: 1, label: "Offside Trap" },
        DomainEntry { value: 2, label: "Zone Defense" },
        DomainEntry { value: 3, label: "Flat Back" },
        DomainEntry { value: 4, label: "None" }
    ];
    assert(entries_view(r@) =~= spec_domain_defense_tactic2());
    r
}

/// The entries of the `DevelopmentType` domain.
pub open spec fn spec_domain_development_type() -> Seq<(i64, Seq<char>)> {
    seq![
        (0i64, "Early Bloomer"@),
        (1i64, "Regular"@),
        (2i64, "Late Bloomer"@)
    ]
}

fn domain_development_type() -> (r: Vec<DomainEntry>)
    ensures
        entries_view(r@) == spec_domain_development_type(),
{
    let r = vec![
        DomainEntry { value: 0, label: "Early Bloomer" },
        DomainEntry { value: 1, label: "Regular" },
        DomainEntry { value: 2, label: "Late Bloomer" }
    ];
    assert(entries_view(r@) =~= spec_domain_development_type());
    r
}

/// The entries of the `EyeColor` domain.
pub open spec fn spec_domain_eye_color() -> Seq<(i64, Seq<char>)> {
    seq![
        (0i64, "Blue"@),
        (1i64, "Dark Blue"@),
        (2i64, "Light Blue"@),
        (3i64, "Dark Brown"@),
        (4i64, "Brown"@),
        (5i64, "Light Brown"@),
        (6i64, "Green"@),
        (7i64, "Light Green"@)
    ]
}

fn domain_eye_color() -> (r: Vec<DomainEntry>)
    ensures
        entries_view(r@) == spec_domain_eye_color(),
{
    let r = vec![
        DomainEntry { value: 0, label: "Blue" },
        DomainEntry { value: 1, label: "Dark Blue" },
        DomainEntry { value: 2, label: "Light Blue" },
        DomainEntry { value: 3, label: "Dark Brown" },
        DomainEntry { value: 4, label: "Brown" },
        DomainEntry { value: 5, label: "Light Brown" },
        DomainEntry { value: 6, label: "Green" },
        DomainEntry { value: 7, label: "Light Green" }
    ];
    assert(entries_view(r@) =~= spec_domain_eye_color());
    r
}

/// The entries of the `FaceToneCode` domain.
pub open spec fn spec_domain_face_tone_code() -> Seq<(i64, Seq<char>)> {
    seq![
        (0i64, "Specific"@),
        (1i64, "Light Pink"@),
        (2i64, "Pink"@),
        (3i64, "Unused"@),
        (4i64, "Light Yellow"@),
        (5i64, "Medium Yellow"@),
        (6i64, "Dark Yellow"@),
        (7i64, "Unused"@),
        (8i64, "Light Brown"@),
        (9i64, "Medium Brown"@),
        (10i64, "Dark Brown"@)
    ]
}

fn domain_face_tone_code() -> (r: Vec<DomainEntry>)
    ensures
        entries_view(r@) == spec_domain_face_tone_code(),
{
    let r = vec![
        DomainEntry { value: 0, label: "Specific" },
        DomainEntry { value: 1, label: "Light Pink" },
        DomainEntry { value: 2, label: "Pink" },
        DomainEntry { value: 3, label: "Unused" },
        DomainEntry { value: 4, label: "Light Yellow" },
        DomainEntry { value: 5, label: "Medium Yellow" },
        DomainEntry { value: 6, label: "Dark Yellow" },
        DomainEntry { value: 7, label: "Unused" },
        DomainEntry { value: 8, label: "Light Brown" },
        DomainEntry { value: 9, label: "Medium Brown" },
        DomainEntry { value: 10, label: "Dark Brown" }
    ];
    assert(entries_view(r@) =~= spec_domain_face_tone_code());
    r
}

/// The entries of the `FacialHairColor` domain.
pub open spec fn spec_domain_facial_hair_color() -> Seq<(i64, Seq<char>)> {
    seq![
        (0i64, "Black"@),
        (1i64, "Blonde"@),
        (2i64, "Dark Brown"@),
        (3i64, "Light Brown"@),
        (4i64, "Red"@)
    ]
}

fn domain_facial_hair_color() -> (r: Vec<DomainEntry>)
    ensures
        entries_view(r@) == spec_domain_facial_hair_color(),
{
    let r = vec![
        DomainEntry { value: 0, label: "Black" },
        DomainEntry { value: 1, label: "Blonde" },
        DomainEntry { value: 2, label: "Dark Brown" },
        DomainEntry { value: 3, label: "Light Brown" },
        DomainEntry { value: 4, label: "Red" }
    ];
    assert(entries_view(r@) =~= spec_domain_facial_hair_color());
    r
}

/// The entries of the `FacialHairStyle` domain.
pub open spec fn spec_domain_facial_hair_style() -> Seq<(i64, Seq<char>)> {
    seq![
        (0i64, "None"@),
        (1i64, "Chin beard"@),
        (2i64, "Chin strap"@),
        (3i64, "Goatee"@),
        (4i64, "Medium Beard"@),
        (5i64, "Moustache"@),
        (6i64, "Stubble"@),
        (7i64, "Tuft"@)
    ]
}

fn domain_facial_hair_style() -> (r: Vec<DomainEntry>)
    ensures
        entries_view(r@) == spec_domain_facial_hair_style(),
{
    let r = vec![
        DomainEntry { value: 0, label: "None" },
        DomainEntry { value: 1, label: "Chin beard" },
        DomainEntry { value: 2, label: "Chin strap" },
        DomainEntry { value: 3, label: "Goatee" },
        DomainEntry { value: 4, label: "Medium Beard" },
        DomainEntry { value: 5, label: "Moustache" },
        DomainEntry { value: 6, label: "Stubble" },
        DomainEntry { value: 7, label: "Tuft" }
    ];
    assert(entries_view(r@) =~= spec_domain_facial_hair_style());
    r
}

/// The entries of the `HairColor` domain.
pub open spec fn spec_domain_hair_color() -> Seq<(i64, Seq<char>)> {
    seq![
        (0i64, "Blonde"@),
        (1i64, "Black"@),
        (2i64, "Dark Blonde"@),
        (3i64, "Dark Brown"@),
        (4i64, "Light Blonde"@),
        (5i64, "Light Brown"@),
        (6i64, "Brown"@),
        (7i64, "Red"@),
        (8i64, "White"@),
        (9i64, "Grey"@),
        (10i64, "Green"@),
        (11i64, "Violet"@)
    ]
}

fn domain_hair_color() -> (r: Vec<DomainEntry>)
    ensures
        entries_view(r@) == spec_domain_hair_color(),
{
    let r = vec![
        DomainEntry { value: 0, label: "Blonde" },
        DomainEntry { value: 1, label: "Black" },
        DomainEntry { value: 2, label: "Dark Blonde" },
        DomainEntry { value: 3, label: "Dark Brown" },
        DomainEntry { value: 4, label: "Light Blonde" },
        DomainEntry { value: 5, label: "Light Brown" },
        DomainEntry { value: 6, label: "Brown" },
        DomainEntry { value: 7, label: "Red" },
        DomainEntry { value: 8, label: "White" },
        DomainEntry { value: 9, label: "Grey" },
        DomainEntry { value: 10, label: "Green" },
        DomainEntry { value: 11, label: "Violet" }
    ];
    assert(entries_view(r@) =~= spec_domain_hair_color());
    r
}

/// The entries of the `HateLove` domain.
pub open spec fn spec_domain_hate_love() -> Seq<(i64, Seq<char>)> {
    seq![
        (0i64, "Hate"@),
        (1i64, "Love"@)
    ]
}

fn domain_hate_love() -> (r: Vec<DomainEntry>)
    ensures
        entries_view(r@) == spec_domain_hate_love(),
{
    let r = vec![
        DomainEntry { value: 0, label: "Hate" },
        DomainEntry { value: 1, label: "Love" }
    ];
    assert(entries_view(r@) =~= spec_domain_hate_love());
    r
}

/// The entries of the `HeadClassCode` domain.
pub open spec fn spec_domain_head_class_code() -> Seq<(i64, Seq<char>)> {
    seq![
        (0i64, "Specific"@),
        (1i64, "Generic"@),
        (2i64, "Unused"@)
    ]
}

fn domain_head_class_code() -> (r: Vec<DomainEntry>)
    ensures
        entries_view(r@) == spec_domain_head_class_code(),
{
    let r = vec![
        DomainEntry { value: 0, label: "Specific" },
        DomainEntry { value: 1, label: "Generic" },
        DomainEntry { value: 2, label: "Unused" }
    ];
    assert(entries_view(r@) =~= spec_domain_head_class_code());
    r
}

/// The entries of the `InternationalReputation` domain.
pub open spec fn spec_domain_international_reputation() -> Seq<(i64, Seq<char>)> {
    seq![
        (0i64, "Poor"@),
        (1i64, "Medium"@),
        (2i64, "Good"@),
        (3i64, "High"@),
        (4i64, "Superstar"@)
    ]
}

fn domain_international_reputation() -> (r: Vec<DomainEntry>)
    ensures
        entries_view(r@) == spec_domain_international_reputation(),
{
    let r = vec![
        DomainEntry { value: 0, label: "Poor" },
        DomainEntry { value: 1, label: "Medium" },
        DomainEntry { value: 2, label: "Good" },
        DomainEntry { value: 3, label: "High" },
        DomainEntry { value: 4, label: "Superstar" }
    ];
    assert(entries_view(r@) =~= spec_domain_international_reputation());
    r
}

/// The entries of the `KitType` domain.
pub open spec fn spec_domain_kit_type() -> Seq<(i64, Seq<char>)> {
    seq![
        (0i64, "Home Kit"@),
        (1i64, "Away Kit"@),
        (2i64, "Goalkeeper Kit"@),
        (3i64, "Third Kit"@),
        (4i64, "Manager Kit"@),
        (5i64, "Referee Kit"@),
        (6i64, "Training Kit 1"@),
        (7i64, "Training Kit 2"@)
    ]
}

fn domain_kit_type() -> (r: Vec<DomainEntry>)
    ensures
        entries_view(r@) == spec_domain_kit_type(),
{
    let r = vec![
        DomainEntry { value: 0, label: "Home Kit" },
        DomainEntry { value: 1, label: "Away Kit" },
        DomainEntry { value: 2, label: "Goalkeeper Kit" },
        DomainEntry { value: 3, label: "Third Kit" },
        DomainEntry { value: 4, label: "Manager Kit" },
        DomainEntry { value: 5, label: "Referee Kit" },
        DomainEntry { value: 6, label: "Training Kit 1" },
        DomainEntry { value: 7, label: "Training Kit 2" }
    ];
    assert(entries_view(r@) =~= spec_domain_kit_type());
    r
}

/// The entries of the `LegType` domain.
pub open spec fn spec_domain_leg_type() -> Seq<(i64, Seq<char>)> {
    seq![
        (0i64, "Slim Legs, Low Socks"@),
        (1i64, "Slim Legs, Regular Socks"@),
        (2i64, "Slim Legs, High Socks"@),
        (3i64, "Thick Legs, Low Socks"@),
        (4i64, "Thick Legs, Regular Socks"@),
        (5i64, "Thick Legs, High Socks"@)
    ]
}

fn domain_leg_type() -> (r: Vec<DomainEntry>)
    ensures
        entries_view(r@) == spec_domain_leg_type(),
{
    let r = vec![
        DomainEntry { value: 0, label: "Slim Legs, Low Socks" },
        DomainEntry { value: 1, label: "Slim Legs, Regular Socks" },
        DomainEntry { value: 2, label: "Slim Legs, High Socks" },
        DomainEntry { value: 3, label: "Thick Legs, Low Socks" },
        DomainEntry { value: 4, label: "Thick Legs, Regular Socks" },
        DomainEntry { value: 5, label: "Thick Legs, High Socks" }
    ];
    assert(entries_view(r@) =~= spec_domain_leg_type());
    r
}

/// The entries of the `LocalizationCode` domain.
pub open spec fn spec_domain_localization_code() -> Seq<(i64, Seq<char>)> {
    seq![
        (0i64, "Unknown"@),
        (1i64, "UK"@),
        (2i64, "Spain"@),
        (3i64, "Germany"@),
        (4i64, "Italy"@),
        (5i64, "France"@),
        (6i64, "Portugal"@),
        (7i64, "Other"@)
    ]
}

fn domain_localization_code() -> (r: Vec<DomainEntry>)
    ensures
        entries_view(r@) == spec_domain_localization_code(),
{
    let r = vec![
        DomainEntry { value: 0, label: "Unknown" },
        DomainEntry { value: 1, label: "UK" },
        DomainEntry { value: 2, label: "Spain" },
        DomainEntry { value: 3, label: "Germany" },
        DomainEntry { value: 4, label: "Italy" },
        DomainEntry { value: 5, label: "France" },
        DomainEntry { value: 6, label: "Portugal" },
        DomainEntry { value: 7, label: "Other" }
    ];
    assert(entries_view(r@) =~= spec_domain_localization_code());
    r
}

/// The entries of the `MowPattern` domain.
pub open spec fn spec_domain_mow_pattern() -> Seq<(i64, Seq<char>)> {
    seq![
        (0i64, "Squared"@),
        (1i64, "Squared Big"@),
        (2i64, "Squared + Circles"@),
        (3i64, "Horizontal Big"@),
        (4i64, "Horizontal + Left Diagonal"@),
        (5i64, "Horizontal + Right Diagonal"@),
        (6i64, "Squared + Diagonal Box"@),
        (7i64, "Squared + Diagonal Box"@),
        (8i64, "Diagonal Small"@),
        (9i64, "Squared + Circles"@),
        (10i64, "Five Circles"@),
        (11i64, "Kilt Style"@),
        (12i64, "Horizontal"@),
        (13i64, "Diagonal"@)
    ]
}

fn domain_mow_pattern() -> (r: Vec<DomainEntry>)
    ensures
        entries_view(r@) == spec_domain_mow_pattern(),
{
    let r = vec![
        DomainEntry { value: 0, label: "Squared" },
        DomainEntry { value: 1, label: "Squared Big" },
        DomainEntry { value: 2, label: "Squared + Circles" },
        DomainEntry { value: 3, label: "Horizontal Big" },
        DomainEntry { value: 4, label: "Horizontal + Left Diagonal" },
        DomainEntry { value: 5, label: "Horizontal + Right Diagonal" },
        DomainEntry { value: 6, label: "Squared + Diagonal Box" },
        DomainEntry { value: 7, label: "Squared + Diagonal Box" },
        DomainEntry { value: 8, label: "Diagonal Small" },
        DomainEntry { value: 9, label: "Squared + Circles" },
        DomainEntry { value: 10, label: "Five Circles" },
        DomainEntry { value: 11, label: "Kilt Style" },
        DomainEntry { value: 12, label: "Horizontal" },
        DomainEntry { value: 13, label: "Diagonal" }
    ];
    assert(entries_view(r@) =~= spec_domain_mow_pattern());
    r
}

/// The entries of the `NetColor` domain.
pub open spec fn spec_domain_net_color() -> Seq<(i64, Seq<char>)> {
    seq![
        (0i64, "Small Square White"@),
        (1i64, "Big Square Red"@),
        (2i64, "Small Square Green"@),
        (3i64, "Big Square Yellow"@),
        (4i64, "Big Square Yellow"@),
        (5i64, "Big Square Yellow"@),
        (6i64, "Hexagon White"@),
        (7i64, "Hexagon Red"@),
        (8i64, "Hexagon Blue"@),
        (9i64, "Hexagon Yellow"@),
        (10i64, "Hexagon White"@)
    ]
}

fn domain_net_color() -> (r: Vec<DomainEntry>)
    ensures
        entries_view(r@) == spec_domain_net_color(),
{
    let r = vec![
        DomainEntry { value: 0, label: "Small Square White" },
        DomainEntry { value: 1, label: "Big Square Red" },
        DomainEntry { value: 2, label: "Small Square Green" },
        DomainEntry { value: 3, label: "Big Square Yellow" },
        DomainEntry { value: 4, label: "Big Square Yellow" },
        DomainEntry { value: 5, label: "Big Square Yellow" },
        DomainEntry { value: 6, label: "Hexagon White" },
        DomainEntry { value: 7, label: "Hexagon Red" },
        DomainEntry { value: 8, label: "Hexagon Blue" },
        DomainEntry { value: 9, label: "Hexagon Yellow" },
        DomainEntry { value: 10, label: "Hexagon White" }
    ];
    assert(entries_view(r@) =~= spec_domain_net_color());
    r
}

/// The entries of the `NoTopBottom` domain.
pub open spec fn spec_domain_no_top_bottom() -> Seq<(i64, Seq<char>)> {
    seq![
        (0i64, "No"@),
        (1i64, "Top"@),
        (2i64, "Bottom"@)
    ]
}

fn domain_no_top_bottom() -> (r: Vec<DomainEntry>)
    ensures
        entries_view(r@) == spec_domain_no_top_bottom(),
{
    let r = vec![
        DomainEntry { value: 0, label: "No" },
        DomainEntry { value: 1, label: "Top" },
        DomainEntry { value: 2, label: "Bottom" }
    ];
    assert(entries_view(r@) =~= spec_domain_no_top_bottom());
    r
}

/// The entries of the `NoYes` domain.
pub open spec fn spec_domain_no_yes() -> Seq<(i64, Seq<char>)> {
    seq![
        (0i64, "No"@),
        (1i64, "Yes"@)
    ]
}

fn domain_no_yes() -> (r: Vec<DomainEntry>)
    ensures
        entries_view(r@) == spec_domain_no_yes(),
{
    let r = vec![
        DomainEntry { value: 0, label: "No" },
        DomainEntry { value: 1, label: "Yes" }
    ];
    assert(entries_view(r@) =~= spec_domain_no_yes());
    r
}

/// The entries of the `PlayingStyle` domain.
pub open spec fn spec_domain_playing_style() -> Seq<(i64, Seq<char>)> {
    seq![
        (0i64, "Shot Stopper"@),
        (1i64, "Attacking Winger"@),
        (2i64, "Wing Backs"@),
        (3i64, "Stopper"@),
        (4i64, "Sweeper"@),
        (5i64, "Ball Winner"@),
        (6i64, "Box to Box"@),
        (7i64, "Defensive Midfielder"@),
        (8i64, "Midfield Maestro"@),
        (9i64, "Dribbler"@),
        (10i64, "Counter Attacker"@),
        (11i64, "Clinical Striker"@),
        (12i64, "Target Man"@),
        (13i64, "Unused"@)
    ]
}

fn domain_playing_style() -> (r: Vec<DomainEntry>)
    ensures
        entries_view(r@) == spec_domain_playing_style(),
{
    let r = vec![
        DomainEntry { value: 0, label: "Shot Stopper" },
        DomainEntry { value: 1, label: "Attacking Winger" },
        DomainEntry { value: 2, label: "Wing Backs" },
        DomainEntry { value: 3, label: "Stopper" },
        DomainEntry { value: 4, label: "Sweeper" },
        DomainEntry { value: 5, label: "Ball Winner" },
        DomainEntry { value: 6, label: "Box to Box" },
        DomainEntry { value: 7, label: "Defensive Midfielder" },
        DomainEntry { value: 8, label: "Midfield Maestro" },
        DomainEntry { value: 9, label: "Dribbler" },
        DomainEntry { value: 10, label: "Counter Attacker" },
        DomainEntry { value: 11, label: "Clinical Striker" },
        DomainEntry { value: 12, label: "Target Man" },
        DomainEntry { value: 13, label: "Unused" }
    ];
    assert(entries_view(r@) =~= spec_domain_playing_style());
    r
}

/// The entries of the `PositionAll` domain.
pub open spec fn spec_domain_position_all() -> Seq<(i64, Seq<char>)> {
    seq![
        (0i64, "Goalkeeper"@),
        (1i64, "Sweeper"@),
        (2i64, "R.Wing Back"@),
        (3i64, "R. Back"@),
        (4i64, "R.C. Back"@),
        (5i64, "C. Back"@),
        (6i64, "L.C. Back"@),
        (7i64, "L. Back"@),
        (8i64, "L.Wing Back"@),
        (9i64, "R. Def. Midfielder"@),
        (10i64, "C. Def. Midfielder"@),
        (11i64, "L. Def. Midfielder"@),
        (12i64, "R. Midfielder"@),
        (13i64, "R.C. Midfielder"@),
        (14i64, "C. Midfielder"@),
        (15i64, "L.C. Midfielder"@),
        (16i64, "L. Midfielder"@),
        (17i64, "R. Adv. Midfielder"@),
        (18i64, "C. Adv. Midfielder"@),
        (19i64, "L. Adv. Midfielder"@),
        (20i64, "R. Forfward"@),
        (21i64, "C. Forfward"@),
        (22i64, "L. Forfward"@),
        (23i64, "R. Wing"@),
        (24i64, "R. Striker"@),
        (25i64, "C. Striker"@),
        (26i64, "L. Striker"@),
        (27i64, "L. Wing"@),
        (28i64, "Substitute"@),
        (29i64, "Tribune"@)
    ]
}

fn domain_position_all() -> (r: Vec<DomainEntry>)
    ensures
        entries_view(r@) == spec_domain_position_all(),
{
    let r = vec![
        DomainEntry { value: 0, label: "Goalkeeper" },
        DomainEntry { value: 1, label: "Sweeper" },
        DomainEntry { value: 2, label: "R.Wing Back" },
        DomainEntry { value: 3, label: "R. Back" },
        DomainEntry { value: 4, label: "R.C. Back" },
        DomainEntry { value: 5, label: "C. Back" },
        DomainEntry { value: 6, label: "L.C. Back" },
        DomainEntry { value: 7, label: "L. Back" },
        DomainEntry { value: 8, label: "L.Wing Back" },
        DomainEntry { value: 9, label: "R. Def. Midfielder" },
        DomainEntry { value: 10, label: "C. Def. Midfielder" },
        DomainEntry { value: 11, label: "L. Def. Midfielder" },
        DomainEntry { value: 12, label: "R. Midfielder" },
        DomainEntry { value: 13, label: "R.C. Midfielder" },
        DomainEntry { value: 14, label: "C. Midfielder" },
        DomainEntry { value: 15, label: "L.C. Midfielder" },
        DomainEntry { value: 16, label: "L. Midfielder" },
        DomainEntry { value: 17, label: "R. Adv. Midfielder" },
        DomainEntry { value: 18, label: "C. Adv. Midfielder" },
        DomainEntry { value: 19, label: "L. Adv. Midfielder" },
        DomainEntry { value: 20, label: "R. Forfward" },
        DomainEntry { value: 21, label: "C. Forfward" },
        DomainEntry { value: 22, label: "L. Forfward" },
        DomainEntry { value: 23, label: "R. Wing" },
        DomainEntry { value: 24, label: "R. Striker" },
        DomainEntry { value: 25, label: "C. Striker" },
        DomainEntry { value: 26, label: "L. Striker" },
        DomainEntry { value: 27, label: "L. Wing" },
        DomainEntry { value: 28, label: "Substitute" },
        DomainEntry { value: 29, label: "Tribune" }
    ];
    assert(entries_view(r@) =~= spec_domain_position_all());
    r
}

/// The entries of the `PositionAlternative` domain.
pub open spec fn spec_domain_position_alternative() -> Seq<(i64, Seq<char>)> {
    seq![
        (0i64, "None"@),
        (1i64, "Goalkeeper"@),
        (2i64, "Sweeper"@),
        (3i64, "R.Wing Back"@),
        (4i64, "R. Back"@),
        (5i64, "R.C. Back"@),
        (6i64, "C. Back"@),
        (7i64, "L.C. Back"@),
        (8i64, "L. Back"@),
        (9i64, "L.Wing Back"@),
        (10i64, "R. Def. Midfielder"@),
        (11i64, "C. Def. Midfielder"@),
        (12i64, "L. Def. Midfielder"@),
        (13i64, "R. Midfielder"@),
        (14i64, "R.C. Midfielder"@),
        (15i64, "C. Midfielder"@),
        (16i64, "L.C. Midfielder"@),
        (17i64, "L. Midfielder"@),
        (18i64, "R. Adv. Midfielder"@),
        (19i64, "C. Adv. Midfielder"@),
        (20i64, "L. Adv. Midfielder"@),
        (21i64, "R. Forfward"@),
        (22i64, "C. Forfward"@),
        (23i64, "L. Forfward"@),
        (24i64, "R. Wing"@),
        (25i64, "R. Striker"@),
        (26i64, "C. Striker"@),
        (27i64, "L. Striker"@),
        (28i64, "L. Wing"@),
        (29i64, "Substitute"@),
        (30i64, "Tribune"@)
    ]
}

fn domain_position_alternative() -> (r: Vec<DomainEntry>)
    ensures
        entries_view(r@) == spec_domain_position_alternative(),
{
    let r = vec![
        DomainEntry { value: 0, label: "None" },
        DomainEntry { value: 1, label: "Goalkeeper" },
        DomainEntry { value: 2, label: "Sweeper" },
        DomainEntry { value: 3, label: "R.Wing Back" },
        DomainEntry { value: 4, label: "R. Back" },
        DomainEntry { value: 5, label: "R.C. Back" },
        DomainEntry { value: 6, label: "C. Back" },
        DomainEntry { value: 7, label: "L.C. Back" },
        DomainEntry { value: 8, label: "L. Back" },
        DomainEntry { value: 9, label: "L.Wing Back" },
        DomainEntry { value: 10, label: "R. Def. Midfielder" },
        DomainEntry { value: 11, label: "C. Def. Midfielder" },
        DomainEntry { value: 12, label: "L. Def. Midfielder" },
        DomainEntry { value: 13, label: "R. Midfielder" },
        DomainEntry { value: 14, label: "R.C. Midfielder" },
        DomainEntry { value: 15, label: "C. Midfielder" },
        DomainEntry { value: 16, label: "L.C. Midfielder" },
        DomainEntry { value: 17, label: "L. Midfielder" },
        DomainEntry { value: 18, label: "R. Adv. Midfielder" },
        DomainEntry { value: 19, label: "C. Adv. Midfielder" },
        DomainEntry { value: 20, label: "L. Adv. Midfielder" },
        DomainEntry { value: 21, label: "R. Forfward" },
        DomainEntry { value: 22, label: "C. Forfward" },
        DomainEntry { value: 23, label: "L. Forfward" },
        DomainEntry { value: 24, label: "R. Wing" },
        DomainEntry { value: 25, label: "R. Striker" },
        DomainEntry { value: 26, label: "C. Striker" },
        DomainEntry { value: 27, label: "L. Striker" },
        DomainEntry { value: 28, label: "L. Wing" },
        DomainEntry { value: 29, label: "Substitute" },
        DomainEntry { value: 30, label: "Tribune" }
    ];
    assert(entries_view(r@) =~= spec_domain_position_alternative());
    r
}

/// The entries of the `PositionMovement` domain.
pub open spec fn spec_domain_position_movement() -> Seq<(i64, Seq<char>)> {
    seq![
        (0i64, "Sweeper"@),
        (1i64, "R.Wing Back"@),
        (2i64, "R. Back"@),
        (3i64, "R.C. Back"@),
        (4i64, "C. Back"@),
        (5i64, "L.C. Back"@),
        (6i64, "L. Back"@),
        (7i64, "L.Wing Back"@),
        (8i64, "R. Def. Midfielder"@),
        (9i64, "C. Def. Midfielder"@),
        (10i64, "L. Def. Midfielder"@),
        (11i64, "R. Midfielder"@),
        (12i64, "R.C. Midfielder"@),
        (13i64, "C. Midfielder"@),
        (14i64, "L.C. Midfielder"@),
        (15i64, "L. Midfielder"@),
        (16i64, "R. Adv. Midfielder"@),
        (17i64, "C. Adv. Midfielder"@),
        (18i64, "L. Adv. Midfielder"@),
        (19i64, "R. Forfward"@),
        (20i64, "C. Forfward"@),
        (21i64, "L. Forfward"@),
        (22i64, "R. Wing"@),
        (23i64, "R. Striker"@),
        (24i64, "C. Striker"@),
        (25i64, "L. Striker"@),
        (26i64, "L. Wing"@),
        (27i64, "Substitute"@),
        (28i64, "Tribune"@)
    ]
}

fn domain_position_movement() -> (r: Vec<DomainEntry>)
    ensures
        entries_view(r@) == spec_domain_position_movement(),
{
    let r = vec![
        DomainEntry { value: 0, label: "Sweeper" },
        DomainEntry { value: 1, label: "R.Wing Back" },
        DomainEntry { value: 2, label: "R. Back" },
        DomainEntry { value: 3, label: "R.C. Back" },
        DomainEntry { value: 4, label: "C. Back" },
        DomainEntry { value: 5, label: "L.C. Back" },
        DomainEntry { value: 6, label: "L. Back" },
        DomainEntry { value: 7, label: "L.Wing Back" },
        DomainEntry { value: 8, label: "R. Def. Midfielder" },
        DomainEntry { value: 9, label: "C. Def. Midfielder" },
        DomainEntry { value: 10, label: "L. Def. Midfielder" },
        DomainEntry { value: 11, label: "R. Midfielder" },
        DomainEntry { value: 12, label: "R.C. Midfielder" },
        DomainEntry { value: 13, label: "C. Midfielder" },
        DomainEntry { value: 14, label: "L.C. Midfielder" },
        DomainEntry { value: 15, label: "L. Midfielder" },
        DomainEntry { value: 16, label: "R. Adv. Midfielder" },
        DomainEntry { value: 17, label: "C. Adv. Midfielder" },
        DomainEntry { value: 18, label: "L. Adv. Midfielder" },
        DomainEntry { value: 19, label: "R. Forfward" },
        DomainEntry { value: 20, label: "C. Forfward" },
        DomainEntry { value: 21, label: "L. Forfward" },
        DomainEntry { value: 22, label: "R. Wing" },
        DomainEntry { value: 23, label: "R. Striker" },
        DomainEntry { value: 24, label: "C. Striker" },
        DomainEntry { value: 25, label: "L. Striker" },
        DomainEntry { value: 26, label: "L. Wing" },
        DomainEntry { value: 27, label: "Substitute" },
        DomainEntry { value: 28, label: "Tribune" }
    ];
    assert(entries_view(r@) =~= spec_domain_position_movement());
    r
}

/// The entries of the `PositionReserve` domain.
pub open spec fn spec_domain_position_reserve() -> Seq<(i64, Seq<char>)> {
    seq![
        (0i64, "Substitute"@),
        (1i64, "Tribune"@)
    ]
}

fn domain_position_reserve() -> (r: Vec<DomainEntry>)
    ensures
        entries_view(r@) == spec_domain_position_reserve(),
{
    let r = vec![
        DomainEntry { value: 0, label: "Substitute" },
        DomainEntry { value: 1, label: "Tribune" }
    ];
    assert(entries_view(r@) =~= spec_domain_position_reserve());
    r
}

/// The entries of the `Positioning` domain.
pub open spec fn spec_domain_positioning() -> Seq<(i64, Seq<char>)> {
    seq![
        (0i64, "Organized"@),
        (1i64, "Free Form"@)
    ]
}

fn domain_positioning() -> (r: Vec<DomainEntry>)
    ensures
        entries_view(r@) == spec_domain_positioning(),
{
    let r = vec![
        DomainEntry { value: 0, label: "Organized" },
        DomainEntry { value: 1, label: "Free Form" }
    ];
    assert(entries_view(r@) =~= spec_domain_positioning());
    r
}

/// The entries of the `Regions` domain.
pub open spec fn spec_domain_regions() -> Seq<(i64, Seq<char>)> {
    seq![
        (0i64, "United Kingdom"@),
        (1i64, "Western Europe"@),
        (2i64, "Southern Europe"@),
        (3i64, "Central Europe"@),
        (4i64, "The Americas"@),
        (5i64, "Scandinavia"@),
        (6i64, "Rest of World"@),
        (7i64, "Endurance"@),
        (8i64, "Master"@)
    ]
}

fn domain_regions() -> (r: Vec<DomainEntry>)
    ensures
        entries_view(r@) == spec_domain_regions(),
{
    let r = vec![
        DomainEntry { value: 0, label: "United Kingdom" },
        DomainEntry { value: 1, label: "Western Europe" },
        DomainEntry { value: 2, label: "Southern Europe" },
        DomainEntry { value: 3, label: "Central Europe" },
        DomainEntry { value: 4, label: "The Americas" },
        DomainEntry { value: 5, label: "Scandinavia" },
        DomainEntry { value: 6, label: "Rest of World" },
        DomainEntry { value: 7, label: "Endurance" },
        DomainEntry { value: 8, label: "Master" }
    ];
    assert(entries_view(r@) =~= spec_domain_regions());
    r
}

/// The entries of the `RightLeft` domain.
pub open spec fn spec_domain_right_left() -> Seq<(i64, Seq<char>)> {
    seq![
        (0i64, "Right"@),
        (1i64, "Left"@)
    ]
}

fn domain_right_left() -> (r: Vec<DomainEntry>)
    ensures
        entries_view(r@) == spec_domain_right_left(),
{
    let r = vec![
        DomainEntry { value: 0, label: "Right" },
        DomainEntry { value: 1, label: "Left" }
    ];
    assert(entries_view(r@) =~= spec_domain_right_left());
    r
}

/// The entries of the `Rivaltype` domain.
pub open spec fn spec_domain_rivaltype() -> Seq<(i64, Seq<char>)> {
    seq![
        (0i64, "Historical"@),
        (1i64, "Derby"@),
        (2i64, "Regional"@)
    ]
}

fn domain_rivaltype() -> (r: Vec<DomainEntry>)
    ensures
        entries_view(r@) == spec_domain_rivaltype(),
{
    let r = vec![
        DomainEntry { value: 0, label: "Historical" },
        DomainEntry { value: 1, label: "Derby" },
        DomainEntry { value: 2, label: "Regional" }
    ];
    assert(entries_view(r@) =~= spec_domain_rivaltype());
    r
}

/// The entries of the `SeatColor` domain.
pub open spec fn spec_domain_seat_color() -> Seq<(i64, Seq<char>)> {
    seq![
        (0i64, "Dark Red"@),
        (1i64, "Dark Grey"@),
        (2i64, "Green"@),
        (3i64, "Dark Blue"@),
        (4i64, "Light Blue"@),
        (5i64, "Light Red"@),
        (6i64, "Dark Yellow"@),
        (7i64, "Light Grey"@)
    ]
}

fn domain_seat_color() -> (r: Vec<DomainEntry>)
    ensures
        entries_view(r@) == spec_domain_seat_color(),
{
    let r = vec![
        DomainEntry { value: 0, label: "Dark Red" },
        DomainEntry { value: 1, label: "Dark Grey" },
        DomainEntry { value: 2, label: "Green" },
        DomainEntry { value: 3, label: "Dark Blue" },
        DomainEntry { value: 4, label: "Light Blue" },
        DomainEntry { value: 5, label: "Light Red" },
        DomainEntry { value: 6, label: "Dark Yellow" },
        DomainEntry { value: 7, label: "Light Grey" }
    ];
    assert(entries_view(r@) =~= spec_domain_seat_color());
    r
}

/// The entries of the `ShortLong` domain.
pub open spec fn spec_domain_short_long() -> Seq<(i64, Seq<char>)> {
    seq![
        (0i64, "Short"@),
        (1i64, "Long"@)
    ]
}

fn domain_short_long() -> (r: Vec<DomainEntry>)
    ensures
        entries_view(r@) == spec_domain_short_long(),
{
    let r = vec![
        DomainEntry { value: 0, label: "Short" },
        DomainEntry { value: 1, label: "Long" }
    ];
    assert(entries_view(r@) =~= spec_domain_short_long());
    r
}

/// The entries of the `SideBurns` domain.
pub open spec fn spec_domain_side_burns() -> Seq<(i64, Seq<char>)> {
    seq![
        (0i64, "None"@),
        (1i64, "Short"@),
        (2i64, "Long"@),
        (3i64, "Unused"@)
    ]
}

fn domain_side_burns() -> (r: Vec<DomainEntry>)
    ensures
        entries_view(r@) == spec_domain_side_burns(),
{
    let r = vec![
        DomainEntry { value: 0, label: "None" },
        DomainEntry { value: 1, label: "Short" },
        DomainEntry { value: 2, label: "Long" },
        DomainEntry { value: 3, label: "Unused" }
    ];
    assert(entries_view(r@) =~= spec_domain_side_burns());
    r
}

/// The entries of the `SkinToneCode` domain.
pub open spec fn spec_domain_skin_tone_code() -> Seq<(i64, Seq<char>)> {
    seq![
        (0i64, "Light Pink"@),
        (1i64, "Pink"@),
        (2i64, "Dark Pink"@),
        (3i64, "Light Yellow"@),
        (4i64, "Medium Yellow"@),
        (5i64, "Dark Yellow"@),
        (6i64, "Very Light Brown"@),
        (7i64, "Light Brown"@),
        (8i64, "Medium Brown"@),
        (9i64, "Dark Brown"@)
    ]
}

fn domain_skin_tone_code() -> (r: Vec<DomainEntry>)
    ensures
        entries_view(r@) == spec_domain_skin_tone_code(),
{
    let r = vec![
        DomainEntry { value: 0, label: "Light Pink" },
        DomainEntry { value: 1, label: "Pink" },
        DomainEntry { value: 2, label: "Dark Pink" },
        DomainEntry { value: 3, label: "Light Yellow" },
        DomainEntry { value: 4, label: "Medium Yellow" },
        DomainEntry { value: 5, label: "Dark Yellow" },
        DomainEntry { value: 6, label: "Very Light Brown" },
        DomainEntry { value: 7, label: "Light Brown" },
        DomainEntry { value: 8, label: "Medium Brown" },
        DomainEntry { value: 9, label: "Dark Brown" }
    ];
    assert(entries_view(r@) =~= spec_domain_skin_tone_code());
    r
}

/// The entries of the `SkinTypeCode` domain.
pub open spec fn spec_domain_skin_type_code() -> Seq<(i64, Seq<char>)> {
    seq![
        (0i64, "Clean"@),
        (1i64, "Freckled"@),
        (2i64, "Rough"@)
    ]
}

fn domain_skin_type_code() -> (r: Vec<DomainEntry>)
    ensures
        entries_view(r@) == spec_domain_skin_type_code(),
{
    let r = vec![
        DomainEntry { value: 0, label: "Clean" },
        DomainEntry { value: 1, label: "Freckled" },
        DomainEntry { value: 2, label: "Rough" }
    ];
    assert(entries_view(r@) =~= spec_domain_skin_type_code());
    r
}

/// The entries of the `Speech` domain.
pub open spec fn spec_domain_speech() -> Seq<(i64, Seq<char>)> {
    seq![
        (0i64, "Enghish"@),
        (1i64, "French"@),
        (2i64, "German"@),
        (3i64, "Italian"@),
        (4i64, "Spanish"@),
        (5i64, "Brazilian"@),
        (6i64, ""@),
        (7i64, "Korean"@),
        (8i64, "Dutch"@),
        (9i64, "Denish"@),
        (10i64, "Swedish"@),
        (11i64, "Norwegian"@),
        (12i64, "Portuguese"@),
        (13i64, "Other"@)
    ]
}

fn domain_speech() -> (r: Vec<DomainEntry>)
    ensures
        entries_view(r@) == spec_domain_speech(),
{
    let r = vec![
        DomainEntry { value: 0, label: "Enghish" },
        DomainEntry { value: 1, label: "French" },
        DomainEntry { value: 2, label: "German" },
        DomainEntry { value: 3, label: "Italian" },
        DomainEntry { value: 4, label: "Spanish" },
        DomainEntry { value: 5, label: "Brazilian" },
        DomainEntry { value: 6, label: "" },
        DomainEntry { value: 7, label: "Korean" },
        DomainEntry { value: 8, label: "Dutch" },
        DomainEntry { value: 9, label: "Denish" },
        DomainEntry { value: 10, label: "Swedish" },
        DomainEntry { value: 11, label: "Norwegian" },
        DomainEntry { value: 12, label: "Portuguese" },
        DomainEntry { value: 13, label: "Other" }
    ];
    assert(entries_view(r@) =~= spec_domain_speech());
    r
}

/// The entries of the `StadiumCondition` domain.
pub open spec fn spec_domain_stadium_condition() -> Seq<(i64, Seq<char>)> {
    seq![
        (0i64, "Damaged"@),
        (1i64, "Medium"@),
        (2i64, "Good"@),
        (3i64, "Unused"@)
    ]
}

fn domain_stadium_condition() -> (r: Vec<DomainEntry>)
    ensures
        entries_view(r@) == spec_domain_stadium_condition(),
{
    let r = vec![
        DomainEntry { value: 0, label: "Damaged" },
        DomainEntry { value: 1, label: "Medium" },
        DomainEntry { value: 2, label: "Good" },
        DomainEntry { value: 3, label: "Unused" }
    ];
    assert(entries_view(r@) =~= spec_domain_stadium_condition());
    r
}

/// The entries of the `StadiumType` domain.
pub open spec fn spec_domain_stadium_type() -> Seq<(i64, Seq<char>)> {
    seq![
        (0i64, "Normal"@),
        (1i64, "Training"@)
    ]
}

fn domain_stadium_type() -> (r: Vec<DomainEntry>)
    ensures
        entries_view(r@) == spec_domain_stadium_type(),
{
    let r = vec![
        DomainEntry { value: 0, label: "Normal" },
        DomainEntry { value: 1, label: "Training" }
    ];
    assert(entries_view(r@) =~= spec_domain_stadium_type());
    r
}

/// The entries of the `TeamMentality` domain.
pub open spec fn spec_domain_team_mentality() -> Seq<(i64, Seq<char>)> {
    seq![
        (0i64, "Defensive"@),
        (1i64, "Neutral"@),
        (2i64, "Offensive"@)
    ]
}

fn domain_team_mentality() -> (r: Vec<DomainEntry>)
    ensures
        entries_view(r@) == spec_domain_team_mentality(),
{
    let r = vec![
        DomainEntry { value: 0, label: "Defensive" },
        DomainEntry { value: 1, label: "Neutral" },
        DomainEntry { value: 2, label: "Offensive" }
    ];
    assert(entries_view(r@) =~= spec_domain_team_mentality());
    r
}

/// The entries of the `TicketLvl` domain.
pub open spec fn spec_domain_ticket_lvl() -> Seq<(i64, Seq<char>)> {
    seq![
        (0i64, "Low Price"@),
        (1i64, "Medium Price"@),
        (2i64, "High Price"@)
    ]
}

fn domain_ticket_lvl() -> (r: Vec<DomainEntry>)
    ensures
        entries_view(r@) == spec_domain_ticket_lvl(),
{
    let r = vec![
        DomainEntry { value: 0, label: "Low Price" },
        DomainEntry { value: 1, label: "Medium Price" },
        DomainEntry { value: 2, label: "High Price" }
    ];
    assert(entries_view(r@) =~= spec_domain_ticket_lvl());
    r
}

/// The entries of the `TimeOfDay` domain.
pub open spec fn spec_domain_time_of_day() -> Seq<(i64, Seq<char>)> {
    seq![
        (0i64, "Cloudy day"@),
        (1i64, "Clear day"@),
        (2i64, "Unused"@),
        (3i64, "Night"@),
        (4i64, "Sunset"@),
        (5i64, "Not assigned"@)
    ]
}

fn domain_time_of_day() -> (r: Vec<DomainEntry>)
    ensures
        entries_view(r@) == spec_domain_time_of_day(),
{
    let r = vec![
        DomainEntry { value: 0, label: "Cloudy day" },
        DomainEntry { value: 1, label: "Clear day" },
        DomainEntry { value: 2, label: "Unused" },
        DomainEntry { value: 3, label: "Night" },
        DomainEntry { value: 4, label: "Sunset" },
        DomainEntry { value: 5, label: "Not assigned" }
    ];
    assert(entries_view(r@) =~= spec_domain_time_of_day());
    r
}

/// The entries of the `TimeOfDayWeather` domain.
pub open spec fn spec_domain_time_of_day_weather() -> Seq<(i64, Seq<char>)> {
    seq![
        (0i64, "Dry"@),
        (1i64, "Dry or Rain"@),
        (2i64, "Dry or Snow"@),
        (3i64, "Dry or Rain or Snow"@)
    ]
}

fn domain_time_of_day_weather() -> (r: Vec<DomainEntry>)
    ensures
        entries_view(r@) == spec_domain_time_of_day_weather(),
{
    let r = vec![
        DomainEntry { value: 0, label: "Dry" },
        DomainEntry { value: 1, label: "Dry or Rain" },
        DomainEntry { value: 2, label: "Dry or Snow" },
        DomainEntry { value: 3, label: "Dry or Rain or Snow" }
    ];
    assert(entries_view(r@) =~= spec_domain_time_of_day_weather());
    r
}

/// The entries of the `TournamentId` domain.
pub open spec fn spec_domain_tournament_id() -> Seq<(i64, Seq<char>)> {
    seq![
        (0i64, "National Champion"@),
        (1i64, "National Cup"@),
        (2i64, "To be found"@),
        (3i64, "To be found"@),
        (4i64, "UEFA Cup"@),
        (5i64, "Champions League"@),
        (6i64, "Toyota Cup"@)
    ]
}

fn domain_tournament_id() -> (r: Vec<DomainEntry>)
    ensures
        entries_view(r@) == spec_domain_tournament_id(),
{
    let r = vec![
        DomainEntry { value: 0, label: "National Champion" },
        DomainEntry { value: 1, label: "National Cup" },
        DomainEntry { value: 2, label: "To be found" },
        DomainEntry { value: 3, label: "To be found" },
        DomainEntry { value: 4, label: "UEFA Cup" },
        DomainEntry { value: 5, label: "Champions League" },
        DomainEntry { value: 6, label: "Toyota Cup" }
    ];
    assert(entries_view(r@) =~= spec_domain_tournament_id());
    r
}

/// The entries of the `TraitTwo` domain.
pub open spec fn spec_domain_trait_two() -> Seq<(i64, Seq<char>)> {
    seq![
        (0i64, "None"@),
        (1i64, "Cross Claimer (Goalkeeper)"@),
        (2i64, "Rush Out (Goalkeeper)"@),
        (3i64, "Cross Claimer+Rush Out (Goalkeeper)"@),
        (4i64, "None"@),
        (5i64, "None"@),
        (6i64, "None"@),
        (7i64, "None"@),
        (8i64, "None"@),
        (9i64, "None"@),
        (10i64, "None"@),
        (11i64, "None"@),
        (12i64, "None"@),
        (13i64, "None"@),
        (14i64, "None"@),
        (15i64, "None"@),
        (16i64, "Falls if pushed (Player hidden trait)"@)
    ]
}

fn domain_trait_two() -> (r: Vec<DomainEntry>)
    ensures
        entries_view(r@) == spec_domain_trait_two(),
{
    let r = vec![
        DomainEntry { value: 0, label: "None" },
        DomainEntry { value: 1, label: "Cross Claimer (Goalkeeper)" },
        DomainEntry { value: 2, label: "Rush Out (Goalkeeper)" },
        DomainEntry { value: 3, label: "Cross Claimer+Rush Out (Goalkeeper)" },
        DomainEntry { value: 4, label: "None" },
        DomainEntry { value: 5, label: "None" },
        DomainEntry { value: 6, label: "None" },
        DomainEntry { value: 7, label: "None" },
        DomainEntry { value: 8, label: "None" },
        DomainEntry { value: 9, label: "None" },
        DomainEntry { value: 10, label: "None" },
        DomainEntry { value: 11, label: "None" },
        DomainEntry { value: 12, label: "None" },
        DomainEntry { value: 13, label: "None" },
        DomainEntry { value: 14, label: "None" },
        DomainEntry { value: 15, label: "None" },
        DomainEntry { value: 16, label: "Falls if pushed (Player hidden trait)" }
    ];
    assert(entries_view(r@) =~= spec_domain_trait_two());
    r
}

/// The entries of the `Weather` domain.
pub open spec fn spec_domain_weather() -> Seq<(i64, Seq<char>)> {
    seq![
        (0i64, "Sunny"@),
        (1i64, "Mostly Sunny"@),
        (2i64, "Mostly Rainy"@),
        (3i64, "Rainy"@),
        (4i64, "Heavy Rain"@),
        (5i64, "Unused"@)
    ]
}

fn domain_weather() -> (r: Vec<DomainEntry>)
    ensures
        entries_view(r@) == spec_domain_weather(),
{
    let r = vec![
        DomainEntry { value: 0, label: "Sunny" },
        DomainEntry { value: 1, label: "Mostly Sunny" },
        DomainEntry { value: 2, label: "Mostly Rainy" },
        DomainEntry { value: 3, label: "Rainy" },
        DomainEntry { value: 4, label: "Heavy Rain" },
        DomainEntry { value: 5, label: "Unused" }
    ];
    assert(entries_view(r@) =~= spec_domain_weather());
    r
}

/// The entries of the domain named `name`.
pub open spec fn spec_domain(name: Seq<char>) -> Option<Seq<(i64, Seq<char>)>> {
    if name == "Accessory"@ {
        Some(spec_domain_accessory())
    } else if name == "AccessoryCode"@ {
        Some(spec_domain_accessory_code())
    } else if name == "AccessoryColor"@ {
        Some(spec_domain_accessory_color())
    } else if name == "AttackTactic1"@ {
        Some(spec_domain_attack_tactic1())
    } else if name == "AttackTactic2"@ {
        Some(spec_domain_attack_tactic2())
    } else if name == "BodySizeCode"@ {
        Some(spec_domain_body_size_code())
    } else if name == "BodyTypeCode"@ {
        Some(spec_domain_body_type_code())
    } else if name == "Confederation"@ {
        Some(spec_domain_confederation())
    } else if name == "Continent"@ {
        Some(spec_domain_continent())
    } else if name == "Currency"@ {
        Some(spec_domain_currency())
    } else if name == "DefPositioning"@ {
        Some(spec_domain_def_positioning())
    } else if name == "DefenseTactic1"@ {
        Some(spec_domain_defense_tactic1())
    } else if name == "DefenseTactic2"@ {
        Some(spec_domain_defense_tactic2())
    } else if name == "DevelopmentType"@ {
        Some(spec_domain_development_type())
    } else if name == "EyeColor"@ {
        Some(spec_domain_eye_color())
    } else if name == "FaceToneCode"@ {
        Some(spec_domain_face_tone_code())
    } else if name == "FacialHairColor"@ {
        Some(spec_domain_facial_hair_color())
    } else if name == "FacialHairStyle"@ {
        Some(spec_domain_facial_hair_style())
    } else if name == "HairColor"@ {
        Some(spec_domain_hair_color())
    } else if name == "HateLove"@ {
        Some(spec_domain_hate_love())
    } else if name == "HeadClassCode"@ {
        Some(spec_domain_head_class_code())
    } else if name == "InternationalReputation"@ {
        Some(spec_domain_international_reputation())
    } else if name == "KitType"@ {
        Some(spec_domain_kit_type())
    } else if name == "LegType"@ {
        Some(spec_domain_leg_type())
    } else if name == "LocalizationCode"@ {
        Some(spec_domain_localization_code())
    } else if name == "MowPattern"@ {
        Some(spec_domain_mow_pattern())
    } else if name == "NetColor"@ {
        Some(spec_domain_net_color())
    } else if name == "NoTopBottom"@ {
        Some(spec_domain_no_top_bottom())
    } else if name == "NoYes"@ {
        Some(spec_domain_no_yes())
    } else if name == "PlayingStyle"@ {
        Some(spec_domain_playing_style())
    } else if name == "PositionAll"@ {
        Some(spec_domain_position_all())
    } else if name == "PositionAlternative"@ {
        Some(spec_domain_position_alternative())
    } else if name == "PositionMovement"@ {
        Some(spec_domain_position_movement())
    } else if name == "PositionReserve"@ {
        Some(spec_domain_position_reserve())
    } else if name == "Positioning"@ {
        Some(spec_domain_positioning())
    } else if name == "Regions"@ {
        Some(spec_domain_regions())
    } else if name == "RightLeft"@ {
        Some(spec_domain_right_left())
    } else if name == "Rivaltype"@ {
        Some(spec_domain_rivaltype())
    } else if name == "SeatColor"@ {
        Some(spec_domain_seat_color())
    } else if name == "ShortLong"@ {
        Some(spec_domain_short_long())
    } else if name == "SideBurns"@ {
        Some(spec_domain_side_burns())
    } else if name == "SkinToneCode"@ {
        Some(spec_domain_skin_tone_code())
    } else if name == "SkinTypeCode"@ {
        Some(spec_domain_skin_type_code())
    } else if name == "Speech"@ {
        Some(spec_domain_speech())
    } else if name == "StadiumCondition"@ {
        Some(spec_domain_stadium_condition())
    } else if name == "StadiumType"@ {
        Some(spec_domain_stadium_type())
    } else if name == "TeamMentality"@ {
        Some(spec_domain_team_mentality())
    } else if name == "TicketLvl"@ {
        Some(spec_domain_ticket_lvl())
    } else if name == "TimeOfDay"@ {
        Some(spec_domain_time_of_day())
    } else if name == "TimeOfDayWeather"@ {
        Some(spec_domain_time_of_day_weather())
    } else if name == "TournamentId"@ {
        Some(spec_domain_tournament_id())
    } else if name == "TraitTwo"@ {
        Some(spec_domain_trait_two())
    } else if name == "Weather"@ {
        Some(spec_domain_weather())
    } else {
        None
    }
}

/// The entries of the domain named `domain`.
pub fn domain_values(domain: &str) -> (r: Option<Vec<DomainEntry>>)
    ensures
        match spec_domain(domain@) {
            Some(s) => r matches Some(v) && entries_view(v@) == s,
            None => r is None,
        },
{
    if str_eq(domain, "Accessory") {
        return Some(domain_accessory());
    }
    if str_eq(domain, "AccessoryCode") {
        return Some(domain_accessory_code());
    }
    if str_eq(domain, "AccessoryColor") {
        return Some(domain_accessory_color());
    }
    if str_eq(domain, "AttackTactic1") {
        return Some(domain_attack_tactic1());
    }
    if str_eq(domain, "AttackTactic2") {
        return Some(domain_attack_tactic2());
    }
    if str_eq(domain, "BodySizeCode") {
        return Some(domain_body_size_code());
    }
    if str_eq(domain, "BodyTypeCode") {
        return Some(domain_body_type_code());
    }
    if str_eq(domain, "Confederation") {
        return Some(domain_confederation());
    }
    if str_eq(domain, "Continent") {
        return Some(domain_continent());
    }
    if str_eq(domain, "Currency") {
        return Some(domain_currency());
    }
    if str_eq(domain, "DefPositioning") {
        return Some(domain_def_positioning());
    }
    if str_eq(domain, "DefenseTactic1") {
        return Some(domain_defense_tactic1());
    }
    if str_eq(domain, "DefenseTactic2") {
        return Some(domain_defense_tactic2());
    }
    if str_eq(domain, "DevelopmentType") {
        return Some(domain_development_type());
    }
    if str_eq(domain, "EyeColor") {
        return Some(domain_eye_color());
    }
    if str_eq(domain, "FaceToneCode") {
        return Some(domain_face_tone_code());
    }
    if str_eq(domain, "FacialHairColor") {
        return Some(domain_facial_hair_color());
    }
    if str_eq(domain, "FacialHairStyle") {
        return Some(domain_facial_hair_style());
    }
    if str_eq(domain, "HairColor") {
        return Some(domain_hair_color());
    }
    if str_eq(domain, "HateLove") {
        return Some(domain_hate_love());
    }
    if str_eq(domain, "HeadClassCode") {
        return Some(domain_head_class_code());
    }
    if str_eq(domain, "InternationalReputation") {
        return Some(domain_international_reputation());
    }
    if str_eq(domain, "KitType") {
        return Some(domain_kit_type());
    }
    if str_eq(domain, "LegType") {
        return Some(domain_leg_type());
    }
    if str_eq(domain, "LocalizationCode") {
        return Some(domain_localization_code());
    }
    if str_eq(domain, "MowPattern") {
        return Some(domain_mow_pattern());
    }
    if str_eq(domain, "NetColor") {
        return Some(domain_net_color());
    }
    if str_eq(domain, "NoTopBottom") {
        return Some(domain_no_top_bottom());
    }
    if str_eq(domain, "NoYes") {
        return Some(domain_no_yes());
    }
    if str_eq(domain, "PlayingStyle") {
        return Some(domain_playing_style());
    }
    if str_eq(domain, "PositionAll") {
        return Some(domain_position_all());
    }
    if str_eq(domain, "PositionAlternative") {
        return Some(domain_position_alternative());
    }
    if str_eq(domain, "PositionMovement") {
        return Some(domain_position_movement());
    }
    if str_eq(domain, "PositionReserve") {
        return Some(domain_position_reserve());
    }
    if str_eq(domain, "Positioning") {
        return Some(domain_positioning());
    }
    if str_eq(domain, "Regions") {
        return Some(domain_regions());
    }
    if str_eq(domain, "RightLeft") {
        return Some(domain_right_left());
    }
    if str_eq(domain, "Rivaltype") {
        return Some(domain_rivaltype());
    }
    if str_eq(domain, "SeatColor") {
        return Some(domain_seat_color());
    }
    if str_eq(domain, "ShortLong") {
        return Some(domain_short_long());
    }
    if str_eq(domain, "SideBurns") {
        return Some(domain_side_burns());
    }
    if str_eq(domain, "SkinToneCode") {
        return Some(domain_skin_tone_code());
    }
    if str_eq(domain, "SkinTypeCode") {
        return Some(domain_skin_type_code());
    }
    if str_eq(domain, "Speech") {
        return Some(domain_speech());
    }
    if str_eq(domain, "StadiumCondition") {
        return Some(domain_stadium_condition());
    }
    if str_eq(domain, "StadiumType") {
        return Some(domain_stadium_type());
    }
    if str_eq(domain, "TeamMentality") {
        return Some(domain_team_mentality());
    }
    if str_eq(domain, "TicketLvl") {
        return Some(domain_ticket_lvl());
    }
    if str_eq(domain, "TimeOfDay") {
        return Some(domain_time_of_day());
    }
    if str_eq(domain, "TimeOfDayWeather") {
        return Some(domain_time_of_day_weather());
    }
    if str_eq(domain, "TournamentId") {
        return Some(domain_tournament_id());
    }
    if str_eq(domain, "TraitTwo") {
        return Some(domain_trait_two());
    }
    if str_eq(domain, "Weather") {
        return Some(domain_weather());
    }
    None
}

/// Which domain each column takes its labels from.
pub open spec fn spec_field_domains() -> Seq<(Seq<char>, Seq<char>, Seq<char>)> {
    seq![
        ("*"@, "position0"@, "PositionAll"@),
        ("*"@, "position1"@, "PositionAll"@),
        ("*"@, "position2"@, "PositionAll"@),
        ("*"@, "position3"@, "PositionAll"@),
        ("*"@, "position4"@, "PositionAll"@),
        ("*"@, "position5"@, "PositionAll"@),
        ("*"@, "position6"@, "PositionAll"@),
        ("*"@, "position7"@, "PositionAll"@),
        ("*"@, "position8"@, "PositionAll"@),
        ("*"@, "position9"@, "PositionAll"@),
        ("*"@, "position10"@, "PositionAll"@),
        ("*"@, "skintonecode"@, "SkinToneCode"@),
        ("*"@, "accessorycolour"@, "AccessoryColor"@),
        ("*"@, "accessorycode"@, "AccessoryCode"@),
        ("players"@, "preferredposition1"@, "PositionAll"@),
        ("players"@, "preferredposition2"@, "PositionAlternative"@),
        ("players"@, "preferredposition3"@, "PositionAlternative"@),
        ("players"@, "preferredposition4"@, "PositionAlternative"@),
        ("teamplayerlinks"@, "position"@, "PositionAll"@),
        ("nations"@, "confederation"@, "Confederation"@),
        ("teamplayerlinks"@, "transferdone"@, "NoYes"@),
        ("player_grudgelove"@, "love_or_hate"@, "HateLove"@),
        ("referee"@, "haircolorcode"@, "HairColor"@),
        ("referee"@, "facialhairtypecode"@, "FacialHairStyle"@),
        ("referee"@, "eyecolorcode"@, "EyeColor"@),
        ("players"@, "eyecolorcode"@, "EyeColor"@),
        ("team_manager"@, "ticket_lvl"@, "TicketLvl"@),
        ("career_transfer_list"@, "is_loan"@, "NoYes"@),
        ("career_transfer_list"@, "sold"@, "NoYes"@),
        ("team_manager"@, "ticket_lvl"@, "TicketLvl"@),
        ("stadiums"@, "timeofday1"@, "TimeOfDay"@),
        ("stadiums"@, "timeofday2"@, "TimeOfDay"@),
        ("stadiums"@, "timeofday3"@, "TimeOfDay"@),
        ("stadiums"@, "timeofday4"@, "TimeOfDay"@),
        ("stadiums"@, "tod1weather"@, "TimeOfDayWeather"@),
        ("stadiums"@, "tod2weather"@, "TimeOfDayWeather"@),
        ("stadiums"@, "tod3weather"@, "TimeOfDayWeather"@),
        ("stadiums"@, "tod4weather"@, "TimeOfDayWeather"@),
        ("players"@, "preferredfoot"@, "RightLeft"@),
        ("teams"@, "speechcountryid"@, "Speech"@),
        ("formations"@, "position1"@, "PositionMovement"@),
        ("formations"@, "position2"@, "PositionMovement"@),
        ("formations"@, "position3"@, "PositionMovement"@),
        ("formations"@, "position4"@, "PositionMovement"@),
        ("formations"@, "position5"@, "PositionMovement"@),
        ("formations"@, "position6"@, "PositionMovement"@),
        ("formations"@, "position7"@, "PositionMovement"@),
        ("formations"@, "position8"@, "PositionMovement"@),
        ("formations"@, "position9"@, "PositionMovement"@),
        ("formations"@, "position10"@, "PositionMovement"@),
        ("formupdate"@, "position"@, "PositionAll"@),
        ("players"@, "sleevelength"@, "ShortLong"@),
        ("players"@, "jerseysleevelengthcode"@, "ShortLong"@),
        ("referees"@, "jerseysleevelengthcode"@, "ShortLong"@),
        ("referees"@, "sleevelength"@, "ShortLong"@),
        ("referees"@, "isinternationalreferee"@, "NoYes"@),
        ("teams"@, "genericbanner"@, "NoYes"@),
        ("stadiums"@, "seatcolor"@, "SeatColor"@),
        ("stadiums"@, "track"@, "NoYes"@),
        ("stadiums"@, "netcolor"@, "NetColor"@),
        ("stadiums"@, "shadowleft"@, "NoYes"@),
        ("stadiums"@, "shadowright"@, "NoYes"@),
        ("stadiums"@, "hasnighttime"@, "NoYes"@),
        ("stadiums"@, "stadiumtype"@, "StadiumType"@),
        ("stadiums"@, "hasovercast"@, "NoYes"@),
        ("stadiums"@, "hasclearday"@, "NoYes"@),
        ("stadiums"@, "hassunset"@, "NoYes"@),
        ("stadiums"@, "hasretractableroof"@, "NoYes"@),
        ("stadiums"@, "localizationcode"@, "LocalizationCode"@),
        ("stadiums"@, "mowpattern"@, "MowPattern"@),
        ("stadiums"@, "stadiumcondition"@, "StadiumCondition"@),
        ("teamkits"@, "teamkittypetechid"@, "KitType"@),
        ("teamkits"@, "nameplacement"@, "NoTopBottom"@),
        ("teamkits"@, "numberplacementback"@, "NoYes"@),
        ("teamkits"@, "numberplacementfront"@, "NoYes"@),
        ("teamkits"@, "shortnumberplacement"@, "NoYes"@),
        ("country"@, "continentid"@, "Continent"@),
        ("players"@, "facialhaircolorcode"@, "FacialHairColor"@),
        ("referees"@, "facialhaircolorcode"@, "FacialHairColor"@),
        ("players"@, "haircolorcode"@, "HairColor"@),
        ("challenge_regions"@, "id"@, "Regions"@),
        ("challenge_countries"@, "region"@, "Regions"@),
        ("challenges"@, "region"@, "Regions"@),
        ("challenge_leagues"@, "region"@, "Regions"@),
        ("players"@, "facialhairtypecode"@, "FacialHairStyle"@),
        ("players"@, "sideburnscode"@, "SideBurns"@),
        ("referees"@, "sideburnscode"@, "SideBurns"@),
        ("players"@, "facetonecode"@, "FaceToneCode"@),
        ("referees"@, "facetonecode"@, "FaceToneCode"@),
        ("players"@, "trait2"@, "TraitTwo"@),
        ("players"@, "legtypeid"@, "LegType"@),
        ("referees"@, "legtypeid"@, "LegType"@),
        ("players"@, "playingstyle"@, "PlayingStyle"@),
        ("players"@, "developmenttypecode"@, "DevelopmentType"@),
        ("players"@, "accessoryid1"@, "Accessory"@),
        ("players"@, "accessoryid2"@, "Accessory"@),
        ("players"@, "accessoryid3"@, "Accessory"@),
        ("players"@, "accessoryid4"@, "Accessory"@),
        ("players"@, "accessoryid5"@, "Accessory"@),
        ("players"@, "injuryprone"@, "NoYes"@),
        ("players"@, "flexibility"@, "NoYes"@),
        ("players"@, "adaptability"@, "NoYes"@),
        ("players"@, "ambition"@, "NoYes"@),
        ("players"@, "comesforcrosses"@, "NoYes"@),
        ("players"@, "diver"@, "NoYes"@),
        ("players"@, "divesintotackles"@, "NoYes"@),
        ("players"@, "earlycrosser"@, "NoYes"@),
        ("players"@, "holdsup"@, "NoYes"@),
        ("players"@, "latecrosser"@, "NoYes"@),
        ("players"@, "leadership"@, "NoYes"@),
        ("players"@, "longshottaker"@, "NoYes"@),
        ("players"@, "longthrows"@, "NoYes"@),
        ("players"@, "lowconcentration"@, "NoYes"@),
        ("players"@, "onetimepasser"@, "NoYes"@),
        ("players"@, "playmaker"@, "NoYes"@),
        ("players"@, "puncher"@, "NoYes"@),
        ("players"@, "pushesupforcorners"@, "NoYes"@),
        ("players"@, "rushesoutofgoal"@, "NoYes"@),
        ("players"@, "selfish"@, "NoYes"@),
        ("players"@, "staysongoalline"@, "NoYes"@),
        ("players"@, "technicaldribbler"@, "NoYes"@),
        ("players"@, "highclubidentification"@, "NoYes"@),
        ("players"@, "lowclubidentification"@, "NoYes"@),
        ("players"@, "mediadarling"@, "NoYes"@),
        ("players"@, "fansfavourite"@, "NoYes"@),
        ("players"@, "scandalprone"@, "NoYes"@),
        ("players"@, "hightrainingworkrate"@, "NoYes"@),
        ("players"@, "lowtrainingworkrate"@, "NoYes"@),
        ("players"@, "inflexible"@, "NoYes"@),
        ("players"@, "bodysizecode"@, "BodySizeCode"@),
        ("referees"@, "bodysizecode"@, "BodySizeCode"@),
        ("players"@, "bodytypecode"@, "BodyTypeCode"@),
        ("referees"@, "bodytypecode"@, "BodyTypeCode"@),
        ("players"@, "headclasscode"@, "HeadClassCode"@),
        ("referees"@, "headclasscode"@, "HeadClassCode"@),
        ("rivals"@, "rivaltype"@, "Rivaltype"@),
        ("players"@, "skintypecode"@, "SkinTypeCode"@),
        ("referees"@, "skintypecode"@, "SkinTypeCode"@),
        ("players"@, "internationalreputation"@, "InternationalReputation"@),
        ("teamwrite"@, "teammentality"@, "TeamMentality"@),
        ("teamwrite"@, "attacktactic1"@, "AttackTactic1"@),
        ("teamwrite"@, "attacktactic2"@, "AttackTactic2"@),
        ("teamwrite"@, "defensetactic1"@, "DefenseTactic1"@),
        ("teamwrite"@, "defensetactic2"@, "DefenseTactic2"@),
        ("tournamentvictories"@, "tournamentid"@, "TournamentId"@),
        ("fieldpositionboundingboxes"@, "positionid"@, "PositionAll"@),
        ("teams"@, "buspositioning"@, "Positioning"@),
        ("teams"@, "ccpositioning"@, "Positioning"@),
        ("teams"@, "defdefenderline"@, "DefPositioning"@),
        ("weather"@, "m0"@, "Weather"@),
        ("weather"@, "m1"@, "Weather"@),
        ("weather"@, "m2"@, "Weather"@),
        ("weather"@, "m3"@, "Weather"@),
        ("weather"@, "m4"@, "Weather"@),
        ("weather"@, "m5"@, "Weather"@),
        ("weather"@, "m6"@, "Weather"@),
        ("weather"@, "m7"@, "Weather"@),
        ("weather"@, "m8"@, "Weather"@),
        ("weather"@, "m9"@, "Weather"@),
        ("weather"@, "m10"@, "Weather"@),
        ("weather"@, "m11"@, "Weather"@)
    ]
}

/// Which domain each column takes its labels from.
pub fn field_domains() -> (r: Vec<FieldDomain>)
    ensures
        field_domains_view(r@) == spec_field_domains(),
{
    let r = vec![
        FieldDomain { table: "*", column: "position0", domain: "PositionAll" },
        FieldDomain { table: "*", column: "position1", domain: "PositionAll" },
        FieldDomain { table: "*", column: "position2", domain: "PositionAll" },
        FieldDomain { table: "*", column: "position3", domain: "PositionAll" },
        FieldDomain { table: "*", column: "position4", domain: "PositionAll" },
        FieldDomain { table: "*", column: "position5", domain: "PositionAll" },
        FieldDomain { table: "*", column: "position6", domain: "PositionAll" },
        FieldDomain { table: "*", column: "position7", domain: "PositionAll" },
        FieldDomain { table: "*", column: "position8", domain: "PositionAll" },
        FieldDomain { table: "*", column: "position9", domain: "PositionAll" },
        FieldDomain { table: "*", column: "position10", domain: "PositionAll" },
        FieldDomain { table: "*", column: "skintonecode", domain: "SkinToneCode" },
        FieldDomain { table: "*", column: "accessorycolour", domain: "AccessoryColor" },
        FieldDomain { table: "*", column: "accessorycode", domain: "AccessoryCode" },
        FieldDomain { table: "players", column: "preferredposition1", domain: "PositionAll" },
        FieldDomain { table: "players", column: "preferredposition2", domain: "PositionAlternative" },
        FieldDomain { table: "players", column: "preferredposition3", domain: "PositionAlternative" },
        FieldDomain { table: "players", column: "preferredposition4", domain: "PositionAlternative" },
        FieldDomain { table: "teamplayerlinks", column: "position", domain: "PositionAll" },
        FieldDomain { table: "nations", column: "confederation", domain: "Confederation" },
        FieldDomain { table: "teamplayerlinks", column: "transferdone", domain: "NoYes" },
        FieldDomain { table: "player_grudgelove", column: "love_or_hate", domain: "HateLove" },
        FieldDomain { table: "referee", column: "haircolorcode", domain: "HairColor" },
        FieldDomain { table: "referee", column: "facialhairtypecode", domain: "FacialHairStyle" },
        FieldDomain { table: "referee", column: "eyecolorcode", domain: "EyeColor" },
        FieldDomain { table: "players", column: "eyecolorcode", domain: "EyeColor" },
        FieldDomain { table: "team_manager", column: "ticket_lvl", domain: "TicketLvl" },
        FieldDomain { table: "career_transfer_list", column: "is_loan", domain: "NoYes" },
        FieldDomain { table: "career_transfer_list", column: "sold", domain: "NoYes" },
        FieldDomain { table: "team_manager", column: "ticket_lvl", domain: "TicketLvl" },
        FieldDomain { table: "stadiums", column: "timeofday1", domain: "TimeOfDay" },
        FieldDomain { table: "stadiums", column: "timeofday2", domain: "TimeOfDay" },
        FieldDomain { table: "stadiums", column: "timeofday3", domain: "TimeOfDay" },
        FieldDomain { table: "stadiums", column: "timeofday4", domain: "TimeOfDay" },
        FieldDomain { table: "stadiums", column: "tod1weather", domain: "TimeOfDayWeather" },
        FieldDomain { table: "stadiums", column: "tod2weather", domain: "TimeOfDayWeather" },
        FieldDomain { table: "stadiums", column: "tod3weather", domain: "TimeOfDayWeather" },
        FieldDomain { table: "stadiums", column: "tod4weather", domain: "TimeOfDayWeather" },
        FieldDomain { table: "players", column: "preferredfoot", domain: "RightLeft" },
        FieldDomain { table: "teams", column: "speechcountryid", domain: "Speech" },
        FieldDomain { table: "formations", column: "position1", domain: "PositionMovement" },
        FieldDomain { table: "formations", column: "position2", domain: "PositionMovement" },
        FieldDomain { table: "formations", column: "position3", domain: "PositionMovement" },
        FieldDomain { table: "formations", column: "position4", domain: "PositionMovement" },
        FieldDomain { table: "formations", column: "position5", domain: "PositionMovement" },
        FieldDomain { table: "formations", column: "position6", domain: "PositionMovement" },
        FieldDomain { table: "formations", column: "position7", domain: "PositionMovement" },
        FieldDomain { table: "formations", column: "position8", domain: "PositionMovement" },
        FieldDomain { table: "formations", column: "position9", domain: "PositionMovement" },
        FieldDomain { table: "formations", column: "position10", domain: "PositionMovement" },
        FieldDomain { table: "formupdate", column: "position", domain: "PositionAll" },
        FieldDomain { table: "players", column: "sleevelength", domain: "ShortLong" },
        FieldDomain { table: "players", column: "jerseysleevelengthcode", domain: "ShortLong" },
        FieldDomain { table: "referees", column: "jerseysleevelengthcode", domain: "ShortLong" },
        FieldDomain { table: "referees", column: "sleevelength", domain: "ShortLong" },
        FieldDomain { table: "referees", column: "isinternationalreferee", domain: "NoYes" },
        FieldDomain { table: "teams", column: "genericbanner", domain: "NoYes" },
        FieldDomain { table: "stadiums", column: "seatcolor", domain: "SeatColor" },
        FieldDomain { table: "stadiums", column: "track", domain: "NoYes" },
        FieldDomain { table: "stadiums", column: "netcolor", domain: "NetColor" },
        FieldDomain { table: "stadiums", column: "shadowleft", domain: "NoYes" },
        FieldDomain { table: "stadiums", column: "shadowright", domain: "NoYes" },
        FieldDomain { table: "stadiums", column: "hasnighttime", domain: "NoYes" },
        FieldDomain { table: "stadiums", column: "stadiumtype", domain: "StadiumType" },
        FieldDomain { table: "stadiums", column: "hasovercast", domain: "NoYes" },
        FieldDomain { table: "stadiums", column: "hasclearday", domain: "NoYes" },
        FieldDomain { table: "stadiums", column: "hassunset", domain: "NoYes" },
        FieldDomain { table: "stadiums", column: "hasretractableroof", domain: "NoYes" },
        FieldDomain { table: "stadiums", column: "localizationcode", domain: "LocalizationCode" },
        FieldDomain { table: "stadiums", column: "mowpattern", domain: "MowPattern" },
        FieldDomain { table: "stadiums", column: "stadiumcondition", domain: "StadiumCondition" },
        FieldDomain { table: "teamkits", column: "teamkittypetechid", domain: "KitType" },
        FieldDomain { table: "teamkits", column: "nameplacement", domain: "NoTopBottom" },
        FieldDomain { table: "teamkits", column: "numberplacementback", domain: "NoYes" },
        FieldDomain { table: "teamkits", column: "numberplacementfront", domain: "NoYes" },
        FieldDomain { table: "teamkits", column: "shortnumberplacement", domain: "NoYes" },
        FieldDomain { table: "country", column: "continentid", domain: "Continent" },
        FieldDomain { table: "players", column: "facialhaircolorcode", domain: "FacialHairColor" },
        FieldDomain { table: "referees", column: "facialhaircolorcode", domain: "FacialHairColor" },
        FieldDomain { table: "players", column: "haircolorcode", domain: "HairColor" },
        FieldDomain { table: "challenge_regions", column: "id", domain: "Regions" },
        FieldDomain { table: "challenge_countries", column: "region", domain: "Regions" },
        FieldDomain { table: "challenges", column: "region", domain: "Regions" },
        FieldDomain { table: "challenge_leagues", column: "region", domain: "Regions" },
        FieldDomain { table: "players", column: "facialhairtypecode", domain: "FacialHairStyle" },
        FieldDomain { table: "players", column: "sideburnscode", domain: "SideBurns" },
        FieldDomain { table: "referees", column: "sideburnscode", domain: "SideBurns" },
        FieldDomain { table: "players", column: "facetonecode", domain: "FaceToneCode" },
        FieldDomain { table: "referees", column: "facetonecode", domain: "FaceToneCode" },
        FieldDomain { table: "players", column: "trait2", domain: "TraitTwo" },
        FieldDomain { table: "players", column: "legtypeid", domain: "LegType" },
        FieldDomain { table: "referees", column: "legtypeid", domain: "LegType" },
        FieldDomain { table: "players", column: "playingstyle", domain: "PlayingStyle" },
        FieldDomain { table: "players", column: "developmenttypecode", domain: "DevelopmentType" },
        FieldDomain { table: "players", column: "accessoryid1", domain: "Accessory" },
        FieldDomain { table: "players", column: "accessoryid2", domain: "Accessory" },
        FieldDomain { table: "players", column: "accessoryid3", domain: "Accessory" },
        FieldDomain { table: "players", column: "accessoryid4", domain: "Accessory" },
        FieldDomain { table: "players", column: "accessoryid5", domain: "Accessory" },
        FieldDomain { table: "players", column: "injuryprone", domain: "NoYes" },
        FieldDomain { table: "players", column: "flexibility", domain: "NoYes" },
        FieldDomain { table: "players", column: "adaptability", domain: "NoYes" },
        FieldDomain { table: "players", column: "ambition", domain: "NoYes" },
        FieldDomain { table: "players", column: "comesforcrosses", domain: "NoYes" },
        FieldDomain { table: "players", column: "diver", domain: "NoYes" },
        FieldDomain { table: "players", column: "divesintotackles", domain: "NoYes" },
        FieldDomain { table: "players", column: "earlycrosser", domain: "NoYes" },
        FieldDomain { table: "players", column: "holdsup", domain: "NoYes" },
        FieldDomain { table: "players", column: "latecrosser", domain: "NoYes" },
        FieldDomain { table: "players", column: "leadership", domain: "NoYes" },
        FieldDomain { table: "players", column: "longshottaker", domain: "NoYes" },
        FieldDomain { table: "players", column: "longthrows", domain: "NoYes" },
        FieldDomain { table: "players", column: "lowconcentration", domain: "NoYes" },
        FieldDomain { table: "players", column: "onetimepasser", domain: "NoYes" },
        FieldDomain { table: "players", column: "playmaker", domain: "NoYes" },
        FieldDomain { table: "players", column: "puncher", domain: "NoYes" },
        FieldDomain { table: "players", column: "pushesupforcorners", domain: "NoYes" },
        FieldDomain { table: "players", column: "rushesoutofgoal", domain: "NoYes" },
        FieldDomain { table: "players", column: "selfish", domain: "NoYes" },
        FieldDomain { table: "players", column: "staysongoalline", domain: "NoYes" },
        FieldDomain { table: "players", column: "technicaldribbler", domain: "NoYes" },
        FieldDomain { table: "players", column: "highclubidentification", domain: "NoYes" },
        FieldDomain { table: "players", column: "lowclubidentification", domain: "NoYes" },
        FieldDomain { table: "players", column: "mediadarling", domain: "NoYes" },
        FieldDomain { table: "players", column: "fansfavourite", domain: "NoYes" },
        FieldDomain { table: "players", column: "scandalprone", domain: "NoYes" },
        FieldDomain { table: "players", column: "hightrainingworkrate", domain: "NoYes" },
        FieldDomain { table: "players", column: "lowtrainingworkrate", domain: "NoYes" },
        FieldDomain { table: "players", column: "inflexible", domain: "NoYes" },
        FieldDomain { table: "players", column: "bodysizecode", domain: "BodySizeCode" },
        FieldDomain { table: "referees", column: "bodysizecode", domain: "BodySizeCode" },
        FieldDomain { table: "players", column: "bodytypecode", domain: "BodyTypeCode" },
        FieldDomain { table: "referees", column: "bodytypecode", domain: "BodyTypeCode" },
        FieldDomain { table: "players", column: "headclasscode", domain: "HeadClassCode" },
        FieldDomain { table: "referees", column: "headclasscode", domain: "HeadClassCode" },
        FieldDomain { table: "rivals", column: "rivaltype", domain: "Rivaltype" },
        FieldDomain { table: "players", column: "skintypecode", domain: "SkinTypeCode" },
        FieldDomain { table: "referees", column: "skintypecode", domain: "SkinTypeCode" },
        FieldDomain { table: "players", column: "internationalreputation", domain: "InternationalReputation" },
        FieldDomain { table: "teamwrite", column: "teammentality", domain: "TeamMentality" },
        FieldDomain { table: "teamwrite", column: "attacktactic1", domain: "AttackTactic1" },
        FieldDomain { table: "teamwrite", column: "attacktactic2", domain: "AttackTactic2" },
        FieldDomain { table: "teamwrite", column: "defensetactic1", domain: "DefenseTactic1" },
        FieldDomain { table: "teamwrite", column: "defensetactic2", domain: "DefenseTactic2" },
        FieldDomain { table: "tournamentvictories", column: "tournamentid", domain: "TournamentId" },
        FieldDomain { table: "fieldpositionboundingboxes", column: "positionid", domain: "PositionAll" },
        FieldDomain { table: "teams", column: "buspositioning", domain: "Positioning" },
        FieldDomain { table: "teams", column: "ccpositioning", domain: "Positioning" },
        FieldDomain { table: "teams", column: "defdefenderline", domain: "DefPositioning" },
        FieldDomain { table: "weather", column: "m0", domain: "Weather" },
        FieldDomain { table: "weather", column: "m1", domain: "Weather" },
        FieldDomain { table: "weather", column: "m2", domain: "Weather" },
        FieldDomain { table: "weather", column: "m3", domain: "Weather" },
        FieldDomain { table: "weather", column: "m4", domain: "Weather" },
        FieldDomain { table: "weather", column: "m5", domain: "Weather" },
        FieldDomain { table: "weather", column: "m6", domain: "Weather" },
        FieldDomain { table: "weather", column: "m7", domain: "Weather" },
        FieldDomain { table: "weather", column: "m8", domain: "Weather" },
        FieldDomain { table: "weather", column: "m9", domain: "Weather" },
        FieldDomain { table: "weather", column: "m10", domain: "Weather" },
        FieldDomain { table: "weather", column: "m11", domain: "Weather" }
    ];
    assert(field_domains_view(r@) =~= spec_field_domains());
    r
}

/// The first entry from `from` on for `table` and `column`.
pub open spec fn first_field_domain(fds: Seq<(Seq<char>, Seq<char>, Seq<char>)>, table: Seq<char>, column: Seq<char>, from: int) -> Option<int>
    decreases fds.len() - from,
{
    if from < 0 || from >= fds.len() {
        None
    } else if fds[from].0 == table && fds[from].1 == column {
        Some(from)
    } else {
        first_field_domain(fds, table, column, from + 1)
    }
}

/// The domain of a column: the entry for its table, else the entry for every table.
pub open spec fn spec_field_domain(table: Seq<char>, column: Seq<char>) -> Option<Seq<char>> {
    let fds = spec_field_domains();
    match first_field_domain(fds, table, column, 0) {
        Some(i) => Some(fds[i].2),
        None => match first_field_domain(fds, "*"@, column, 0) {
            Some(i) => Some(fds[i].2),
            None => None,
        },
    }
}

proof fn lemma_first_field_domain(fds: Seq<(Seq<char>, Seq<char>, Seq<char>)>, table: Seq<char>, column: Seq<char>, from: int)
    requires
        0 <= from,
    ensures
        first_field_domain(fds, table, column, from) matches Some(i) ==> from <= i < fds.len(),
    decreases fds.len() - from,
{
    if from < fds.len() {
        lemma_first_field_domain(fds, table, column, from + 1);
    }
}

/// The position of the first entry for `table` and `column`.
fn find_field_domain(fds: &Vec<FieldDomain>, table: &str, column: &str) -> (r: Option<usize>)
    ensures
        match first_field_domain(field_domains_view(fds@), table@, column@, 0) {
            Some(i) => r == Some(i as usize),
            None => r is None,
        },
{
    let ghost v = field_domains_view(fds@);
    let mut i: usize = 0;
    while i < fds.len()
        invariant
            i <= fds@.len(),
            v == field_domains_view(fds@),
            first_field_domain(v, table@, column@, 0) == first_field_domain(v, table@, column@, i as int),
        decreases fds@.len() - i,
    {
        if str_eq(fds[i].table, table) && str_eq(fds[i].column, column) {
            return Some(i);
        }
        i = i + 1;
    }
    None
}

/// The domain that a column of a table takes its labels from.
pub fn field_domain(table_name: &str, column: &str) -> (r: Option<&'static str>)
    ensures
        match spec_field_domain(table_name@, column@) {
            Some(d) => r matches Some(s) && s@ == d,
            None => r is None,
        },
{
    let fds = field_domains();
    let ghost v = field_domains_view(fds@);
    proof {
        lemma_first_field_domain(v, table_name@, column@, 0);
        lemma_first_field_domain(v, "*"@, column@, 0);
    }
    match find_field_domain(&fds, table_name, column) {
        Some(i) => Some(fds[i].domain),
        None => match find_field_domain(&fds, "*", column) {
            Some(i) => Some(fds[i].domain),
            None => None,
        },
    }
}

/// The first entry from `from` on with value `value`.
pub open spec fn first_entry(entries: Seq<(i64, Seq<char>)>, value: i64, from: int) -> Option<int>
    decreases entries.len() - from,
{
    if from < 0 || from >= entries.len() {
        None
    } else if entries[from].0 == value {
        Some(from)
    } else {
        first_entry(entries, value, from + 1)
    }
}

/// The label of a coded value of a column, when the column has a domain that lists the value.
pub open spec fn spec_label_for(table: Seq<char>, column: Seq<char>, value: i64) -> Option<Seq<char>> {
    match spec_field_domain(table, column) {
        Some(d) => match spec_domain(d) {
            Some(entries) => match first_entry(entries, value, 0) {
                Some(i) => Some(entries[i].1),
                None => None,
            },
            None => None,
        },
        None => None,
    }
}

/// The label of a coded value of a column of a table.
pub fn label_for(table_name: &str, column: &str, value: i64) -> (r: Option<&'static str>)
    ensures
        match spec_label_for(table_name@, column@, value) {
            Some(l) => r matches Some(s) && s@ == l,
            None => r is None,
        },
{
    let domain = match field_domain(table_name, column) {
        Some(d) => d,
        None => return None,
    };
    let entries = match domain_values(domain) {
        Some(e) => e,
        None => return None,
    };
    let ghost v = entries_view(entries@);
    let mut i: usize = 0;
    while i < entries.len()
        invariant
            i <= entries@.len(),
            v == entries_view(entries@),
            spec_field_domain(table_name@, column@) == Some(domain@),
            spec_domain(domain@) == Some(v),
            first_entry(v, value, 0) == first_entry(v, value, i as int),
        decreases entries@.len() - i,
    {
        if entries[i].value == value {
            assert(v[i as int].1 == entries@[i as int].label@);
            return Some(entries[i].label);
        }
        i = i + 1;
    }
    None
}

} // verus!
