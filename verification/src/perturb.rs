//! Player-facing combat stats that the sensitivity analyzer can perturb, with their stable
//! snake_case names.

use vstd::prelude::*;
use crate::text::str_eq;

verus! {

/// A combat stat that the sensitivity analyzer can perturb.
#[derive(Debug, Clone, Copy, PartialEq, Eq, Hash, Structural)]
pub enum StatKey {
    WeaponDamage,
    CritChance,
    CritDamage,
    ArmorPiercing,
    ShieldPiercing,
    Accuracy,
    ApexShred,
    IsolyticDamage,
    Armor,
    ShieldDeflection,
    Dodge,
    DamageReduction,
    ApexBarrier,
    IsolyticDefense,
    CritDamageFloor,
    HullHp,
    ShieldHp,
    ShieldMitigation,
}

/// The number of stat keys.
pub const STAT_KEY_COUNT: usize = 18;

/// Every stat key, in the stable order that user interfaces follow.
pub const STAT_KEY_ALL: [StatKey; STAT_KEY_COUNT] = [
    StatKey::WeaponDamage,
    StatKey::CritChance,
    StatKey::CritDamage,
    StatKey::ArmorPiercing,
    StatKey::ShieldPiercing,
    StatKey::Accuracy,
    StatKey::ApexShred,
    StatKey::IsolyticDamage,
    StatKey::Armor,
    StatKey::ShieldDeflection,
    StatKey::Dodge,
    StatKey::DamageReduction,
    StatKey::ApexBarrier,
    StatKey::IsolyticDefense,
    StatKey::CritDamageFloor,
    StatKey::HullHp,
    StatKey::ShieldHp,
    StatKey::ShieldMitigation,
];

/// The snake_case name of a stat key.
pub open spec fn stat_key_name(k: StatKey) -> Seq<char> {
    match k {
        StatKey::WeaponDamage => "weapon_damage"@,
        StatKey::CritChance => "crit_chance"@,
        StatKey::CritDamage => "crit_damage"@,
        StatKey::ArmorPiercing => "armor_piercing"@,
        StatKey::ShieldPiercing => "shield_piercing"@,
        StatKey::Accuracy => "accuracy"@,
        StatKey::ApexShred => "apex_shred"@,
        StatKey::IsolyticDamage => "isolytic_damage"@,
        StatKey::Armor => "armor"@,
        StatKey::ShieldDeflection => "shield_deflection"@,
        StatKey::Dodge => "dodge"@,
        StatKey::DamageReduction => "damage_reduction"@,
        StatKey::ApexBarrier => "apex_barrier"@,
        StatKey::IsolyticDefense => "isolytic_defense"@,
        StatKey::CritDamageFloor => "crit_damage_floor"@,
        StatKey::HullHp => "hull_hp"@,
        StatKey::ShieldHp => "shield_hp"@,
        StatKey::ShieldMitigation => "shield_mitigation"@,
    }
}

/// The key whose name is `s`, searching the stable order.
pub open spec fn stat_key_named(s: Seq<char>) -> Option<StatKey> {
    stat_key_named_from(s, 0)
}

pub open spec fn stat_key_named_from(s: Seq<char>, i: int) -> Option<StatKey>
    decreases 18 - i,
{
    if i < 0 || i >= 18 {
        None
    } else if stat_key_name(STAT_KEY_ALL@[i]) == s {
        Some(STAT_KEY_ALL@[i])
    } else {
        stat_key_named_from(s, i + 1)
    }
}

impl StatKey {
    /// Every stat key, in the stable order that user interfaces follow.
    pub const ALL: &'static [StatKey; STAT_KEY_COUNT] = &STAT_KEY_ALL;

    /// Every stat key in the sensitivity set.
    pub fn all() -> (r: [StatKey; STAT_KEY_COUNT])
        ensures
            r == STAT_KEY_ALL,
    {
        STAT_KEY_ALL
    }

    pub fn as_str(self) -> (r: &'static str)
        ensures
            r@ == stat_key_name(self),
    {
        match self {
            StatKey::WeaponDamage => "weapon_damage",
            StatKey::CritChance => "crit_chance",
            StatKey::CritDamage => "crit_damage",
            StatKey::ArmorPiercing => "armor_piercing",
            StatKey::ShieldPiercing => "shield_piercing",
            StatKey::Accuracy => "accuracy",
            StatKey::ApexShred => "apex_shred",
            StatKey::IsolyticDamage => "isolytic_damage",
            StatKey::Armor => "armor",
            StatKey::ShieldDeflection => "shield_deflection",
            StatKey::Dodge => "dodge",
            StatKey::DamageReduction => "damage_reduction",
            StatKey::ApexBarrier => "apex_barrier",
            StatKey::IsolyticDefense => "isolytic_defense",
            StatKey::CritDamageFloor => "crit_damage_floor",
            StatKey::HullHp => "hull_hp",
            StatKey::ShieldHp => "shield_hp",
            StatKey::ShieldMitigation => "shield_mitigation",
        }
    }

    pub fn parse_str(s: &str) -> (r: Option<StatKey>)
        ensures
            r == stat_key_named(s@),
    {
        let all = STAT_KEY_ALL;
        let mut i: usize = 0;
        while i < STAT_KEY_COUNT
            invariant
                all == STAT_KEY_ALL,
                i <= 18,
                stat_key_named(s@) == stat_key_named_from(s@, i as int),
            decreases 18 - i,
        {
            if str_eq(all[i].as_str(), s) {
                return Some(all[i]);
            }
            i += 1;
        }
        None
    }

    /// Whether the default delta is multiplicative (`value *= 1 + delta`) or additive
    /// (`value += delta`).
    pub fn is_multiplicative(self) -> (r: bool)
        ensures
            r == is_multiplicative_key(self),
    {
        match self {
            StatKey::WeaponDamage | StatKey::ArmorPiercing | StatKey::ShieldPiercing
            | StatKey::HullHp | StatKey::ShieldHp => true,
            _ => false,
        }
    }
}

/// Weapon damage, the two piercing stats and the two hit-point pools scale multiplicatively.
pub open spec fn is_multiplicative_key(k: StatKey) -> bool {
    k == StatKey::WeaponDamage || k == StatKey::ArmorPiercing || k == StatKey::ShieldPiercing
        || k == StatKey::HullHp || k == StatKey::ShieldHp
}

/// Every key appears in the stable order.
pub proof fn lemma_all_lists_every_key(k: StatKey)
    ensures
        exists|i: int| 0 <= i < 18 && #[trigger] STAT_KEY_ALL@[i] == k,
{
    match k {
        StatKey::WeaponDamage => assert(STAT_KEY_ALL@[0] == k),
        StatKey::CritChance => assert(STAT_KEY_ALL@[1] == k),
        StatKey::CritDamage => assert(STAT_KEY_ALL@[2] == k),
        StatKey::ArmorPiercing => assert(STAT_KEY_ALL@[3] == k),
        StatKey::ShieldPiercing => assert(STAT_KEY_ALL@[4] == k),
        StatKey::Accuracy => assert(STAT_KEY_ALL@[5] == k),
        StatKey::ApexShred => assert(STAT_KEY_ALL@[6] == k),
        StatKey::IsolyticDamage => assert(STAT_KEY_ALL@[7] == k),
        StatKey::Armor => assert(STAT_KEY_ALL@[8] == k),
        StatKey::ShieldDeflection => assert(STAT_KEY_ALL@[9] == k),
        StatKey::Dodge => assert(STAT_KEY_ALL@[10] == k),
        StatKey::DamageReduction => assert(STAT_KEY_ALL@[11] == k),
        StatKey::ApexBarrier => assert(STAT_KEY_ALL@[12] == k),
        StatKey::IsolyticDefense => assert(STAT_KEY_ALL@[13] == k),
        StatKey::CritDamageFloor => assert(STAT_KEY_ALL@[14] == k),
        StatKey::HullHp => assert(STAT_KEY_ALL@[15] == k),
        StatKey::ShieldHp => assert(STAT_KEY_ALL@[16] == k),
        StatKey::ShieldMitigation => assert(STAT_KEY_ALL@[17] == k),
    }
}

/// Distinct keys have distinct names.
pub proof fn lemma_stat_key_names_distinct(a: StatKey, b: StatKey)
    requires
        a != b,
    ensures
        stat_key_name(a) != stat_key_name(b),
{
    reveal_strlit("weapon_damage");
    reveal_strlit("crit_chance");
    reveal_strlit("crit_damage");
    reveal_strlit("armor_piercing");
    reveal_strlit("shield_piercing");
    reveal_strlit("accuracy");
    reveal_strlit("apex_shred");
    reveal_strlit("isolytic_damage");
    reveal_strlit("armor");
    reveal_strlit("shield_deflection");
    reveal_strlit("dodge");
    reveal_strlit("damage_reduction");
    reveal_strlit("apex_barrier");
    reveal_strlit("isolytic_defense");
    reveal_strlit("crit_damage_floor");
    reveal_strlit("hull_hp");
    reveal_strlit("shield_hp");
    reveal_strlit("shield_mitigation");
    if stat_key_name(a) == stat_key_name(b) {
        assert(stat_key_name(a).len() == stat_key_name(b).len());
        assert(stat_key_name(a)[0] == stat_key_name(b)[0]);
        assert(stat_key_name(a)[1] == stat_key_name(b)[1]);
        assert(stat_key_name(a)[2] == stat_key_name(b)[2]);
        assert(stat_key_name(a)[3] == stat_key_name(b)[3]);
        assert(stat_key_name(a)[4] == stat_key_name(b)[4]);
        assert(stat_key_name(a)[5] == stat_key_name(b)[5]);
        assert(stat_key_name(a)[6] == stat_key_name(b)[6]);
        assert(stat_key_name(a)[7] == stat_key_name(b)[7]);
        assert(stat_key_name(a)[8] == stat_key_name(b)[8]);
        assert(stat_key_name(a)[9] == stat_key_name(b)[9]);
        assert(stat_key_name(a)[10] == stat_key_name(b)[10]);
        assert(stat_key_name(a)[11] == stat_key_name(b)[11]);
        assert(stat_key_name(a)[12] == stat_key_name(b)[12]);
    }
}

proof fn lemma_named_from_finds(s: Seq<char>, i: int, idx: int)
    requires
        0 <= i <= idx < 18,
        forall|j: int| i <= j < idx ==> stat_key_name(#[trigger] STAT_KEY_ALL@[j]) != s,
        stat_key_name(STAT_KEY_ALL@[idx]) == s,
    ensures
        stat_key_named_from(s, i) == Some(STAT_KEY_ALL@[idx]),
    decreases idx - i,
{
    if i < idx {
        lemma_named_from_finds(s, i + 1, idx);
    }
}

/// Round trip: parsing a key's name gives the key back.
pub proof fn lemma_parse_as_str_round_trip(k: StatKey)
    ensures
        stat_key_named(stat_key_name(k)) == Some(k),
{
    lemma_all_lists_every_key(k);
    let idx = choose|i: int| 0 <= i < 18 && #[trigger] STAT_KEY_ALL@[i] == k;
    assert forall|j: int| 0 <= j < idx implies stat_key_name(#[trigger] STAT_KEY_ALL@[j]) != stat_key_name(k) by {
        assert(STAT_KEY_ALL@[j] != STAT_KEY_ALL@[idx]);
        lemma_stat_key_names_distinct(STAT_KEY_ALL@[j], k);
    }
    lemma_named_from_finds(stat_key_name(k), 0, idx);
}

} // verus!
