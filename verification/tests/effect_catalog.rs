use effect_sync::effect::StatusEffect;
use effect_sync::effect::STATUS_EFFECT_COUNT;

fn all_kinds() -> Vec<StatusEffect> {
    vec![
        StatusEffect::Speed,
        StatusEffect::Slowness,
        StatusEffect::Haste,
        StatusEffect::MiningFatigue,
        StatusEffect::Strength,
        StatusEffect::InstantHealth,
        StatusEffect::InstantDamage,
        StatusEffect::JumpBoost,
        StatusEffect::Nausea,
        StatusEffect::Regeneration,
        StatusEffect::Resistance,
        StatusEffect::FireResistance,
        StatusEffect::WaterBreathing,
        StatusEffect::Invisibility,
        StatusEffect::Blindness,
        StatusEffect::NightVision,
        StatusEffect::Hunger,
        StatusEffect::Weakness,
        StatusEffect::Poison,
        StatusEffect::Wither,
        StatusEffect::HealthBoost,
        StatusEffect::Absorption,
        StatusEffect::Saturation,
        StatusEffect::Glowing,
        StatusEffect::Levitation,
        StatusEffect::Luck,
        StatusEffect::BadLuck,
        StatusEffect::SlowFalling,
        StatusEffect::ConduitPower,
        StatusEffect::DolphinsGrace,
        StatusEffect::BadOmen,
        StatusEffect::HeroOfTheVillage,
    ]
}

#[test]
fn catalog_has_thirty_two_kinds() {
    assert_eq!(all_kinds().len(), 32);
    assert_eq!(STATUS_EFFECT_COUNT, 32);
}

#[test]
fn protocol_id_is_position_plus_one() {
    for (position, kind) in all_kinds().into_iter().enumerate() {
        assert_eq!(kind.protocol_id() as usize, position + 1);
    }
    assert_eq!(StatusEffect::Speed.protocol_id(), 1);
    assert_eq!(StatusEffect::Poison.protocol_id(), 19);
    assert_eq!(StatusEffect::HeroOfTheVillage.protocol_id(), 32);
}

#[test]
fn protocol_id_round_trips_for_every_kind() {
    for kind in all_kinds() {
        assert_eq!(StatusEffect::from_protocol_id(kind.protocol_id()), Some(kind));
    }
}

#[test]
fn every_wire_id_in_range_names_its_kind() {
    for id in 1..=32i8 {
        let kind = StatusEffect::from_protocol_id(id).unwrap();
        assert_eq!(kind.protocol_id(), id);
    }
}

#[test]
fn wire_ids_out_of_range_name_no_kind() {
    assert_eq!(StatusEffect::from_protocol_id(0), None);
    assert_eq!(StatusEffect::from_protocol_id(33), None);
    assert_eq!(StatusEffect::from_protocol_id(-1), None);
    assert_eq!(StatusEffect::from_protocol_id(i8::MIN), None);
    assert_eq!(StatusEffect::from_protocol_id(i8::MAX), None);
}

#[test]
fn identifiers_are_the_known_texts() {
    let expected = [
        "speed",
        "slowness",
        "haste",
        "mining_fatigue",
        "strength",
        "instant_health",
        "instant_damage",
        "jump_boost",
        "nausea",
        "regeneration",
        "resistance",
        "fire_resistance",
        "water_breathing",
        "invisibility",
        "blindness",
        "night_vision",
        "hunger",
        "weakness",
        "poison",
        "wither",
        "health_boost",
        "absorption",
        "saturation",
        "glowing",
        "levitation",
        "luck",
        "unluck",
        "slow_falling",
        "conduit_power",
        "dolphins_grace",
        "bad_omen",
        "hero_of_the_village",
    ];
    for (kind, text) in all_kinds().into_iter().zip(expected.iter()) {
        assert_eq!(kind.identifier(), *text);
    }
}

#[test]
fn identifiers_are_distinct_snake_case() {
    let kinds = all_kinds();
    for (i, a) in kinds.iter().enumerate() {
        let text = a.identifier();
        assert!(!text.is_empty());
        assert!(text.chars().all(|c| c == '_' || c.is_ascii_lowercase()));
        for b in kinds.iter().skip(i + 1) {
            assert_ne!(text, b.identifier());
        }
    }
}
