//! The attributes of an entity together with a mark for changes that its
//! observers have not been told, and the poll that tells them.

use vstd::prelude::*;
use crate::entity::EntityId;
use crate::entityproperty::entries_by_name;
use crate::entityproperty::has_name;
use crate::entityproperty::names_ascending;
use crate::entityproperty::place_of_name;
use crate::entityproperty::EntityProperties;
use crate::entityproperty::EntityProperty;
use crate::entityproperty::EntryModel;
use crate::packet::EntityPropertiesModel;
use crate::packet::EntityPropertiesPacket;

verus! {

/// What a marked set of attributes holds: the attributes, and whether a
/// change to them is still to be announced.
pub struct SyncedModel {
    pub entries: Seq<EntryModel>,
    pub dirty: bool,
}

/// The attributes of an entity, marked dirty by every change and cleared by
/// the poll that announces them.
#[derive(Debug)]
pub struct SyncedProperties {
    inner: EntityProperties,
    dirty: bool,
}

impl View for SyncedProperties {
    type V = SyncedModel;

    closed spec fn view(&self) -> SyncedModel {
        SyncedModel { entries: self.inner@, dirty: self.dirty }
    }
}

/// What a poll leaves of a marked set: the same attributes, with nothing
/// left to announce.
pub open spec fn after_poll(synced: SyncedModel) -> SyncedModel {
    SyncedModel { entries: synced.entries, dirty: false }
}

/// The packet that a poll gives for the entity `entity_id`: all the
/// attributes where a change is still to be announced, and none where
/// nothing is.
pub open spec fn poll_packet(synced: SyncedModel, entity_id: i32) -> Option<
    EntityPropertiesModel,
> {
    if synced.dirty {
        Some(EntityPropertiesModel { entity_id, entries: synced.entries })
    } else {
        None
    }
}

impl SyncedProperties {
    /// Whether the attributes are as every set is kept.
    pub open spec fn wf(&self) -> bool {
        names_ascending(self@.entries)
    }

    /// A marked set of the given attributes, with nothing to announce.
    pub fn new(inner: EntityProperties) -> (synced: SyncedProperties)
        ensures
            synced@ == (SyncedModel { entries: inner@, dirty: false }),
    {
        SyncedProperties { inner, dirty: false }
    }

    /// Whether the attributes are as every set is kept. Every set that was
    /// made and changed by the functions here is.
    pub fn is_well_formed(&self) -> (r: bool)
        ensures
            r == self.wf(),
    {
        self.inner.is_well_formed()
    }

    /// Whether a change is still to be announced.
    pub fn is_dirty(&self) -> (dirty: bool)
        ensures
            dirty == self@.dirty,
    {
        self.dirty
    }

    /// Marks the attributes as changed.
    pub fn mark_dirty(&mut self)
        ensures
            final(self)@ == (SyncedModel { entries: old(self)@.entries, dirty: true }),
    {
        self.dirty = true;
    }

    /// The attributes.
    pub fn properties(&self) -> (inner: &EntityProperties)
        ensures
            inner@ == self@.entries,
    {
        &self.inner
    }

    /// The attribute of a name, if there is one. Reading marks nothing.
    pub fn get_property(&self, key: &str) -> (r: Option<&EntityProperty>)
        requires
            self.wf(),
        ensures
            r is Some <==> has_name(self@.entries, key@),
            r matches Some(property) ==> property@ == entries_by_name(self@.entries)[key@],
    {
        self.inner.get_property(key)
    }

    /// The attribute of a name, to change it, if there is one. Handing it
    /// out marks the attributes as changed; what the caller leaves in it is
    /// what the set then holds under that name.
    pub fn get_property_mut(&mut self, key: &str) -> (r: Option<&mut EntityProperty>)
        requires
            old(self).wf(),
        ensures
            r is Some <==> has_name(old(self)@.entries, key@),
            match r {
                Some(property) => {
                    &&& (*property)@ == entries_by_name(old(self)@.entries)[key@]
                    &&& final(self)@ == (SyncedModel {
                        entries: old(self)@.entries.update(
                            place_of_name(old(self)@.entries, key@),
                            EntryModel { name: key@, property: (*final(property))@ },
                        ),
                        dirty: true,
                    })
                    &&& final(self).wf()
                },
                None => final(self)@ == old(self)@,
            },
    {
        match self.inner.get_property(key) {
            Some(_) => {
                self.dirty = true;
            },
            None => {},
        }
        self.inner.get_property_mut(key)
    }

    /// Puts an attribute into the set under a name, and marks the
    /// attributes as changed.
    pub fn add_property(&mut self, key: String, property: EntityProperty)
        requires
            old(self).wf(),
        ensures
            final(self).wf(),
            final(self)@ == (SyncedModel {
                entries: crate::entityproperty::entries_put(
                    old(self)@.entries,
                    EntryModel { name: key@, property: property@ },
                ),
                dirty: true,
            }),
    {
        self.inner.add_property(key, property);
        self.dirty = true;
    }
}

/// Polls the attributes of an entity: where a change is still to be
/// announced, gives one packet with all the attributes as they are and
/// clears the mark; where nothing is, gives nothing and changes nothing.
pub fn poll_entity_properties_changed(properties: &mut SyncedProperties, entity_id: EntityId) -> (r:
    Option<EntityPropertiesPacket>)
    ensures
        final(properties)@ == after_poll(old(properties)@),
        match poll_packet(old(properties)@, entity_id.0) {
            Some(packet) => r matches Some(got) && got@ == packet,
            None => r is None,
        },
{
    if properties.dirty {
        let packet = EntityPropertiesPacket {
            entity_id: entity_id.0,
            properties: properties.inner.clone(),
        };
        properties.dirty = false;
        Some(packet)
    } else {
        None
    }
}

/// A poll leaves nothing to announce: a second poll with no change in
/// between gives no packet and changes nothing.
pub proof fn lemma_second_poll_is_silent(synced: SyncedModel, entity_id: i32)
    ensures
        poll_packet(after_poll(synced), entity_id) is None,
        after_poll(after_poll(synced)) == after_poll(synced),
{
}

/// A poll of changed attributes gives one packet, which holds all the
/// attributes as they are, and a poll of unchanged attributes gives none.
pub proof fn lemma_poll_announces_changes(synced: SyncedModel, entity_id: i32)
    ensures
        synced.dirty ==> poll_packet(synced, entity_id) == Some(
            EntityPropertiesModel { entity_id, entries: synced.entries },
        ),
        !synced.dirty ==> poll_packet(synced, entity_id) is None && after_poll(synced)
            == synced,
{
}

} // verus!
