use effect_sync::effect::StatusEffect;
use effect_sync::entity::effect::expiration_due;
use effect_sync::entity::effect::requires_special_handling;
use effect_sync::entity::effect::update_basic_effects;
use effect_sync::entity::effect::BasicStatusEffect;
use effect_sync::entity::effect::EffectFlags;
use effect_sync::entity::effect::EntityBasicStatusEffects;
use effect_sync::entity::effect::Error;
use effect_sync::entity::effect::EXPIRATION_INTERVAL;
use effect_sync::entity::effect::RESYNC_INTERVAL;
use effect_sync::entity::EntityId;
use effect_sync::packet::EntityEffect;
use effect_sync::packet::RemoveEntityEffect;

fn effect(kind: StatusEffect, level: u8, duration: u64) -> BasicStatusEffect {
    BasicStatusEffect::new(EntityId(9), level, duration, kind, EffectFlags::empty()).unwrap()
}

fn one(e: BasicStatusEffect) -> EntityBasicStatusEffects {
    EntityBasicStatusEffects(vec![e])
}

#[test]
fn flags_have_the_known_bits() {
    assert_eq!(EffectFlags::AMBIENT, 0x01);
    assert_eq!(EffectFlags::SHOW_PARTICLES, 0x02);
    assert_eq!(EffectFlags::SHOW_ICON, 0x04);
    assert_eq!(EffectFlags::empty().bits(), 0);
    assert_eq!(EffectFlags::all().bits(), 7);
    let flags = EffectFlags { ambient: true, show_particles: false, show_icon: true };
    assert_eq!(flags.bits(), 5);
    assert!(EffectFlags::empty().is_empty());
    assert!(!flags.is_empty());
}

#[test]
fn flags_round_trip_through_their_bits() {
    for bits in 0..8i8 {
        let flags = EffectFlags::from_bits(bits).unwrap();
        assert_eq!(flags.bits(), bits);
        assert_eq!(flags.ambient, bits & 1 != 0);
        assert_eq!(flags.show_particles, bits & 2 != 0);
        assert_eq!(flags.show_icon, bits & 4 != 0);
    }
    assert_eq!(EffectFlags::from_bits(8), None);
    assert_eq!(EffectFlags::from_bits(-1), None);
    assert_eq!(EffectFlags::from_bits(i8::MIN), None);
}

#[test]
fn flags_union_and_contains() {
    let ambient = EffectFlags::from_bits(EffectFlags::AMBIENT).unwrap();
    let particles = EffectFlags::from_bits(EffectFlags::SHOW_PARTICLES).unwrap();
    let both = ambient.union(particles);
    assert_eq!(both.bits(), 3);
    assert!(both.contains(ambient));
    assert!(both.contains(particles));
    assert!(!ambient.contains(both));
    assert!(ambient.contains(EffectFlags::empty()));
}

#[test]
fn new_effect_is_pending_with_zero_based_amplifier() {
    let flags = EffectFlags { ambient: true, show_particles: true, show_icon: false };
    let e = BasicStatusEffect::new(EntityId(5), 3, 1200, StatusEffect::Poison, flags).unwrap();
    assert_eq!(e.entity_id(), EntityId(5));
    assert_eq!(e.amplifier(), 2);
    assert_eq!(e.level(), 3);
    assert_eq!(e.time_start(), -1);
    assert!(e.pending());
    assert_eq!(e.duration(), 1200);
    assert_eq!(e.effect_type(), StatusEffect::Poison);
    assert_eq!(e.flags(), flags);
    let top = effect(StatusEffect::Haste, 255, 1);
    assert_eq!(top.amplifier(), 254);
    assert_eq!(top.level(), 255);
}

#[test]
fn kind_with_special_handling_is_refused() {
    let r = BasicStatusEffect::new(EntityId(5), 1, 10, StatusEffect::Speed, EffectFlags::empty());
    assert_eq!(r, Err(Error::InvalidStatusEffect(StatusEffect::Speed)));
    assert!(requires_special_handling(StatusEffect::Speed));
    assert!(!requires_special_handling(StatusEffect::Slowness));
    assert!(!requires_special_handling(StatusEffect::HeroOfTheVillage));
}

#[test]
fn start_packet_carries_wire_id_amplifier_ticks_and_flags() {
    let flags = EffectFlags { ambient: true, show_particles: true, show_icon: false };
    let e = BasicStatusEffect::new(EntityId(5), 3, 1200, StatusEffect::Poison, flags).unwrap();
    assert_eq!(
        e.create_packet(),
        EntityEffect { entity_id: 5, effect_id: 19, amplifier: 2, duration: 1200, flags: 3 }
    );
}

#[test]
fn packet_fields_are_cut_to_their_width() {
    let e = effect(StatusEffect::Haste, 201, (1u64 << 32) + 5);
    let packet = e.create_packet();
    assert_eq!(packet.amplifier, -56);
    assert_eq!(packet.duration, 5);
    assert_eq!(effect(StatusEffect::Haste, 1, 0x8000_0000).create_packet().duration, i32::MIN);
}

#[test]
fn has_pending_sees_pending_effects() {
    let mut effects = EntityBasicStatusEffects(Vec::new());
    assert!(!effects.has_pending());
    effects.0.push(effect(StatusEffect::Poison, 1, 100));
    assert!(effects.has_pending());
    effects.activate_pending(4);
    assert!(!effects.has_pending());
    effects.0.push(effect(StatusEffect::Wither, 1, 100));
    assert!(effects.has_pending());
}

#[test]
fn activation_stamps_pending_effects_once() {
    let mut effects = EntityBasicStatusEffects(vec![
        effect(StatusEffect::Poison, 1, 100),
        effect(StatusEffect::Wither, 2, 200),
    ]);
    let started = effects.activate_pending(7);
    assert_eq!(
        started,
        vec![
            EntityEffect { entity_id: 9, effect_id: 19, amplifier: 0, duration: 100, flags: 0 },
            EntityEffect { entity_id: 9, effect_id: 20, amplifier: 1, duration: 200, flags: 0 },
        ]
    );
    assert_eq!(effects.0[0].time_start(), 7);
    assert_eq!(effects.0[1].time_start(), 7);
    assert_eq!(effects.0[0].duration(), 100);
    effects.0.push(effect(StatusEffect::Hunger, 1, 50));
    let later = effects.activate_pending(9);
    assert_eq!(later.len(), 1);
    assert_eq!(later[0].effect_id, 17);
    assert_eq!(effects.0[0].time_start(), 7);
    assert_eq!(effects.0[1].time_start(), 7);
    assert_eq!(effects.0[2].time_start(), 9);
    assert!(effects.activate_pending(10).is_empty());
    assert_eq!(effects.0[2].time_start(), 9);
}

#[test]
fn activation_at_tick_zero_is_not_pending() {
    let mut effects = one(effect(StatusEffect::Poison, 1, 100));
    effects.activate_pending(0);
    assert_eq!(effects.0[0].time_start(), 0);
    assert!(!effects.0[0].pending());
}

#[test]
fn expiration_runs_on_every_fifth_tick() {
    assert_eq!(EXPIRATION_INTERVAL, 5);
    assert_eq!(RESYNC_INTERVAL, 600);
    assert!(expiration_due(0));
    assert!(!expiration_due(1));
    assert!(!expiration_due(4));
    assert!(expiration_due(5));
    assert!(expiration_due(1205));
    assert!(!expiration_due(u64::MAX - 1));
    assert!(expiration_due(u64::MAX));
}

#[test]
fn has_expired_compares_start_plus_duration_with_now() {
    let mut effects = one(effect(StatusEffect::Poison, 1, 10));
    assert!(!effects.0[0].has_expired(1000));
    effects.activate_pending(3);
    let e = effects.0[0];
    assert!(!e.has_expired(12));
    assert!(e.has_expired(13));
    assert!(e.has_expired(14));
    let mut long = one(effect(StatusEffect::Poison, 1, u64::MAX));
    long.activate_pending(i64::MAX as u64);
    assert!(!long.0[0].has_expired(u64::MAX));
}

#[test]
fn every_expired_effect_is_removed_exactly_once() {
    let mut effects = EntityBasicStatusEffects(vec![
        effect(StatusEffect::Poison, 1, 5),
        effect(StatusEffect::Wither, 1, 5),
        effect(StatusEffect::Hunger, 1, 500),
        effect(StatusEffect::Nausea, 1, 5),
        effect(StatusEffect::Luck, 1, 6),
    ]);
    effects.activate_pending(0);
    let removed = effects.remove_expired(5);
    assert_eq!(
        removed,
        vec![
            RemoveEntityEffect { entity_id: 9, effect_id: 19 },
            RemoveEntityEffect { entity_id: 9, effect_id: 20 },
            RemoveEntityEffect { entity_id: 9, effect_id: 9 },
        ]
    );
    let kinds: Vec<StatusEffect> = effects.0.iter().map(|e| e.effect_type()).collect();
    assert_eq!(kinds, vec![StatusEffect::Hunger, StatusEffect::Luck]);
    assert!(effects.remove_expired(5).is_empty());
    assert_eq!(effects.0.len(), 2);
}

#[test]
fn pending_effects_do_not_expire() {
    let mut effects = one(effect(StatusEffect::Poison, 1, 0));
    assert!(effects.remove_expired(1000).is_empty());
    assert_eq!(effects.0.len(), 1);
}

#[test]
fn effect_is_removed_on_the_first_expiration_tick_after_its_duration() {
    let duration = 7u64;
    let mut effects = one(effect(StatusEffect::Poison, 1, duration));
    let mut starts = 0;
    let mut removals = Vec::new();
    for now in 3..40u64 {
        let observed_before = effects.0.clone();
        for e in &observed_before {
            if !e.pending() {
                assert!(now - e.time_start() as u64 <= duration + 4);
            }
        }
        let update = update_basic_effects(&mut effects, now);
        starts += update.started.len();
        for packet in &update.removed {
            removals.push((now, *packet));
        }
        if now < 10 {
            assert_eq!(effects.0.len(), 1);
            assert_eq!(effects.0[0].time_start(), 3);
        } else {
            assert!(effects.0.is_empty());
        }
    }
    assert_eq!(starts, 1);
    assert_eq!(removals, vec![(10, RemoveEntityEffect { entity_id: 9, effect_id: 19 })]);
}

#[test]
fn effect_of_zero_duration_leaves_on_the_next_expiration_tick() {
    let mut effects = one(effect(StatusEffect::Poison, 1, 0));
    let update = update_basic_effects(&mut effects, 5);
    assert_eq!(update.started.len(), 1);
    assert_eq!(update.removed.len(), 1);
    assert!(update.refreshed.is_empty());
    assert!(effects.0.is_empty());
    let mut late = one(effect(StatusEffect::Poison, 1, 0));
    for now in 6..10u64 {
        let update = update_basic_effects(&mut late, now);
        assert!(update.removed.is_empty());
        assert!(update.refreshed.is_empty());
        assert_eq!(late.0.len(), 1);
    }
    assert_eq!(update_basic_effects(&mut late, 10).removed.len(), 1);
    assert!(late.0.is_empty());
}

#[test]
fn resync_of_a_1200_tick_effect_created_at_tick_zero() {
    let mut effects = one(effect(StatusEffect::Regeneration, 2, 1200));
    let mut refreshed = Vec::new();
    let mut removed_at = None;
    for now in 0..=1300u64 {
        let update = update_basic_effects(&mut effects, now);
        if now == 0 {
            assert_eq!(
                update.started,
                vec![EntityEffect {
                    entity_id: 9,
                    effect_id: 10,
                    amplifier: 1,
                    duration: 1200,
                    flags: 0
                }]
            );
        } else {
            assert!(update.started.is_empty());
        }
        for packet in update.refreshed {
            refreshed.push((now, packet.duration));
            assert_eq!(packet.effect_id, 10);
            assert_eq!(packet.amplifier, 1);
            assert_eq!(packet.entity_id, 9);
        }
        if !update.removed.is_empty() {
            assert_eq!(update.removed.len(), 1);
            assert!(removed_at.is_none());
            removed_at = Some(now);
        }
    }
    assert_eq!(refreshed, vec![(0, 1200), (600, 600)]);
    assert_eq!(removed_at, Some(1200));
}

#[test]
fn resync_ticks_follow_the_activation_tick() {
    let mut effects = one(effect(StatusEffect::Regeneration, 1, 1200));
    let mut refreshed = Vec::new();
    let mut removed_at = None;
    for now in 3..=1300u64 {
        let update = update_basic_effects(&mut effects, now);
        for packet in update.refreshed {
            refreshed.push((now, packet.duration));
        }
        if !update.removed.is_empty() {
            removed_at = Some(now);
        }
    }
    assert_eq!(refreshed, vec![(3, 1200), (603, 600)]);
    assert_eq!(removed_at, Some(1205));
}

#[test]
fn refresh_is_due_only_at_positive_multiples_of_600() {
    let mut effects = one(effect(StatusEffect::Regeneration, 1, 1000));
    assert!(effects.refresh_due(0).is_empty());
    effects.activate_pending(0);
    let e = effects.0[0];
    assert_eq!(e.refresh_at(0), None);
    assert_eq!(e.refresh_at(399), None);
    assert_eq!(
        e.refresh_at(400),
        Some(EntityEffect { entity_id: 9, effect_id: 10, amplifier: 0, duration: 600, flags: 0 })
    );
    assert_eq!(e.refresh_at(401), None);
    assert_eq!(e.refresh_at(1000), None);
    assert_eq!(e.refresh_at(1600), None);
    assert_eq!(effects.refresh_due(400).len(), 1);
    assert!(effects.refresh_due(1000).is_empty());
}

#[test]
fn one_tick_orders_start_expiry_and_refresh() {
    let mut effects = EntityBasicStatusEffects(vec![
        effect(StatusEffect::Poison, 1, 600),
        effect(StatusEffect::Wither, 1, 0),
        effect(StatusEffect::Hunger, 1, 601),
    ]);
    let update = update_basic_effects(&mut effects, 10);
    assert_eq!(update.started.len(), 3);
    assert_eq!(update.removed, vec![RemoveEntityEffect { entity_id: 9, effect_id: 20 }]);
    assert_eq!(
        update.refreshed,
        vec![EntityEffect { entity_id: 9, effect_id: 19, amplifier: 0, duration: 600, flags: 0 }]
    );
    assert_eq!(effects.0.len(), 2);
    let update = update_basic_effects(&mut effects, 11);
    assert!(update.started.is_empty());
    assert!(update.removed.is_empty());
    assert_eq!(
        update.refreshed,
        vec![EntityEffect { entity_id: 9, effect_id: 17, amplifier: 0, duration: 600, flags: 0 }]
    );
}
