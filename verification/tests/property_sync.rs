use effect_sync::entity::properties::poll_entity_properties_changed;
use effect_sync::entity::properties::SyncedProperties;
use effect_sync::entity::EntityId;
use effect_sync::entityproperty::EntityProperties;
use effect_sync::entityproperty::EntityProperty;
use effect_sync::entityproperty::ModifierOperation;
use effect_sync::entityproperty::PropertyModifier;

#[test]
fn fresh_set_has_nothing_to_announce() {
    let mut properties = SyncedProperties::new(EntityProperties::new());
    assert!(!properties.is_dirty());
    assert!(poll_entity_properties_changed(&mut properties, EntityId(1)).is_none());
    assert!(!properties.is_dirty());
}

#[test]
fn reading_marks_nothing() {
    let properties = SyncedProperties::new(EntityProperties::new());
    assert!(properties.get_property("generic.maxHealth").is_some());
    assert!(properties.get_property("generic.nothing").is_none());
    assert_eq!(properties.properties().len(), 7);
    assert!(!properties.is_dirty());
}

#[test]
fn changing_a_modifier_marks_and_one_poll_clears() {
    let mut properties = SyncedProperties::new(EntityProperties::new());
    let m = PropertyModifier::new(1, 2.0f64.to_bits(), ModifierOperation::Add);
    properties.get_property_mut("generic.attackSpeed").unwrap().add_modifier(m);
    assert!(properties.is_dirty());
    let packet = poll_entity_properties_changed(&mut properties, EntityId(12)).unwrap();
    assert_eq!(packet.entity_id, 12);
    assert_eq!(packet.properties.len(), 7);
    assert_eq!(
        packet.properties.get_property("generic.attackSpeed").unwrap().modifiers().clone(),
        vec![m]
    );
    assert!(!properties.is_dirty());
    assert!(poll_entity_properties_changed(&mut properties, EntityId(12)).is_none());
    assert!(poll_entity_properties_changed(&mut properties, EntityId(12)).is_none());
    assert_eq!(
        properties.get_property("generic.attackSpeed").unwrap().modifiers().clone(),
        vec![m]
    );
}

#[test]
fn adding_an_attribute_marks() {
    let mut properties = SyncedProperties::new(EntityProperties::default());
    properties.add_property("generic.luck".to_string(), EntityProperty::new(0));
    assert!(properties.is_dirty());
    let packet = poll_entity_properties_changed(&mut properties, EntityId(-4)).unwrap();
    assert_eq!(packet.entity_id, -4);
    assert_eq!(packet.properties.len(), 1);
    assert_eq!(packet.properties.name_at(0), "generic.luck");
    assert!(poll_entity_properties_changed(&mut properties, EntityId(-4)).is_none());
}

#[test]
fn several_changes_give_one_packet() {
    let mut properties = SyncedProperties::new(EntityProperties::new());
    for id in 0..3u128 {
        let m = PropertyModifier::new(id, 1.0f64.to_bits(), ModifierOperation::Multiply);
        properties.get_property_mut("generic.maxHealth").unwrap().add_modifier(m);
    }
    let packet = poll_entity_properties_changed(&mut properties, EntityId(1)).unwrap();
    assert_eq!(packet.properties.get_property("generic.maxHealth").unwrap().modifiers().len(), 3);
    assert!(poll_entity_properties_changed(&mut properties, EntityId(1)).is_none());
}

#[test]
fn missed_lookup_marks_nothing() {
    let mut properties = SyncedProperties::new(EntityProperties::new());
    assert!(properties.get_property_mut("generic.nothing").is_none());
    assert!(!properties.is_dirty());
}

#[test]
fn mark_dirty_forces_a_packet() {
    let mut properties = SyncedProperties::new(EntityProperties::new());
    properties.mark_dirty();
    assert!(properties.is_dirty());
    assert!(poll_entity_properties_changed(&mut properties, EntityId(1)).is_some());
    assert!(!properties.is_dirty());
}

#[test]
fn snapshot_does_not_follow_later_changes() {
    let mut properties = SyncedProperties::new(EntityProperties::new());
    properties.mark_dirty();
    let packet = poll_entity_properties_changed(&mut properties, EntityId(1)).unwrap();
    let m = PropertyModifier::new(1, 2.0f64.to_bits(), ModifierOperation::Add);
    properties.get_property_mut("generic.maxHealth").unwrap().add_modifier(m);
    assert!(packet.properties.get_property("generic.maxHealth").unwrap().modifiers().is_empty());
}

#[test]
fn marked_sets_stay_well_formed() {
    let mut properties = SyncedProperties::new(EntityProperties::new());
    assert!(properties.is_well_formed());
    properties.add_property("generic.armor".to_string(), EntityProperty::new(0));
    assert!(properties.is_well_formed());
    assert_eq!(properties.properties().len(), 8);
}
