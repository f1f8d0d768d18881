use kobayashi::perturb::StatKey;

#[test]
fn stat_key_from_str_roundtrip() {
    for stat in StatKey::ALL {
        assert_eq!(StatKey::parse_str(stat.as_str()), Some(*stat));
    }
    assert_eq!(StatKey::parse_str("nonexistent_stat"), None);
}

#[test]
fn stat_key_all_contains_18_entries() {
    assert_eq!(StatKey::ALL.len(), 18);
    assert!(StatKey::ALL.contains(&StatKey::CritDamageFloor));
    assert_eq!(
        StatKey::parse_str("crit_damage_floor"),
        Some(StatKey::CritDamageFloor)
    );
}

#[test]
fn stat_key_names_are_snake_case_and_distinct() {
    assert_eq!(StatKey::WeaponDamage.as_str(), "weapon_damage");
    assert_eq!(StatKey::ShieldMitigation.as_str(), "shield_mitigation");
    assert_eq!(StatKey::HullHp.as_str(), "hull_hp");
    let all = StatKey::all();
    for (i, a) in all.iter().enumerate() {
        for b in all.iter().skip(i + 1) {
            assert_ne!(a.as_str(), b.as_str());
        }
    }
    assert_eq!(StatKey::parse_str("Weapon_Damage"), None);
    assert_eq!(StatKey::parse_str(""), None);
}

#[test]
fn stat_key_multiplicative_set() {
    let mult: Vec<StatKey> = StatKey::ALL.iter().copied().filter(|k| k.is_multiplicative()).collect();
    assert_eq!(
        mult,
        vec![
            StatKey::WeaponDamage,
            StatKey::ArmorPiercing,
            StatKey::ShieldPiercing,
            StatKey::HullHp,
            StatKey::ShieldHp,
        ]
    );
}
