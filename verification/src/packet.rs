//! The packets that announce effects and attributes to observers.

use vstd::prelude::*;
use crate::codec::fits_wire;
use crate::codec::lemma_parse_properties;
use crate::codec::parse_properties;
use crate::codec::properties_bytes;
use crate::codec::EntityPropertyRead;
use crate::codec::EntityPropertyWrite;
use crate::entityproperty::names_ascending;
use crate::entityproperty::EntityProperties;
use crate::entityproperty::EntryModel;
use crate::wire::i32_bytes;
use crate::wire::i8_bytes;
use crate::wire::lemma_parse_fixed_values;
use crate::wire::parse_i32;
use crate::wire::parse_i8;
use crate::wire::push_i32;
use crate::wire::push_i8;
use crate::wire::read_as;
use crate::wire::ByteReader;
use crate::wire::MalformedPacket;
use crate::wire::Parsed;

verus! {

/// Announces that an effect is on an entity, or refreshes its remaining
/// duration.
///
/// `duration` is in simulation ticks, in every packet of this kind.
#[derive(Debug, Clone, Copy, PartialEq, Eq, Structural)]
pub struct EntityEffect {
    pub entity_id: i32,
    /// The wire identifier of the effect's kind.
    pub effect_id: i8,
    /// The zero-based amplifier.
    pub amplifier: i8,
    pub duration: i32,
    /// The flag bitmask.
    pub flags: i8,
}

/// Announces that an effect has left an entity.
#[derive(Debug, Clone, Copy, PartialEq, Eq, Structural)]
pub struct RemoveEntityEffect {
    pub entity_id: i32,
    /// The wire identifier of the effect's kind.
    pub effect_id: i8,
}

impl EntityEffect {
    /// The packet on the wire: the entity, the effect, the amplifier, the
    /// duration and the flags.
    pub open spec fn bytes(self) -> Seq<u8> {
        i32_bytes(self.entity_id) + i8_bytes(self.effect_id) + i8_bytes(self.amplifier) + i32_bytes(
            self.duration,
        ) + i8_bytes(self.flags)
    }

    /// Reads the packet.
    pub open spec fn parse(bytes: Seq<u8>) -> Parsed<EntityEffect> {
        match parse_i32(bytes) {
            Err(e) => Err(e),
            Ok((entity_id, a)) => match parse_i8(bytes.skip(4)) {
                Err(e) => Err(e),
                Ok((effect_id, b)) => match parse_i8(bytes.skip(5)) {
                    Err(e) => Err(e),
                    Ok((amplifier, c)) => match parse_i32(bytes.skip(6)) {
                        Err(e) => Err(e),
                        Ok((duration, d)) => match parse_i8(bytes.skip(10)) {
                            Err(e) => Err(e),
                            Ok((flags, f)) => Ok(
                                (
                                    EntityEffect {
                                        entity_id,
                                        effect_id,
                                        amplifier,
                                        duration,
                                        flags,
                                    },
                                    11,
                                ),
                            ),
                        },
                    },
                },
            },
        }
    }

    /// Writes the packet.
    pub fn encode(&self, buf: &mut Vec<u8>)
        ensures
            final(buf)@ == old(buf)@ + self.bytes(),
    {
        push_i32(buf, self.entity_id);
        push_i8(buf, self.effect_id);
        push_i8(buf, self.amplifier);
        push_i32(buf, self.duration);
        push_i8(buf, self.flags);
        proof {
            assert(buf@ =~= old(buf)@ + self.bytes());
        }
    }

    /// Reads the packet. A read that fails takes no byte.
    pub fn decode(reader: &mut ByteReader) -> (r: Result<EntityEffect, MalformedPacket>)
        ensures
            read_as(
                old(reader).unread(),
                final(reader).unread(),
                r,
                EntityEffect::parse(old(reader).unread()),
            ),
    {
        let ghost bytes = reader.unread();
        let mut probe = *reader;
        let entity_id = match probe.try_get_i32() {
            Ok(v) => v,
            Err(e) => {
                return Err(e);
            },
        };
        let effect_id = match probe.try_get_i8() {
            Ok(v) => v,
            Err(e) => {
                return Err(e);
            },
        };
        proof {
            assert(bytes.skip(4).skip(1) =~= bytes.skip(5));
        }
        let amplifier = match probe.try_get_i8() {
            Ok(v) => v,
            Err(e) => {
                return Err(e);
            },
        };
        proof {
            assert(bytes.skip(5).skip(1) =~= bytes.skip(6));
        }
        let duration = match probe.try_get_i32() {
            Ok(v) => v,
            Err(e) => {
                return Err(e);
            },
        };
        proof {
            assert(bytes.skip(6).skip(4) =~= bytes.skip(10));
        }
        let flags = match probe.try_get_i8() {
            Ok(v) => v,
            Err(e) => {
                return Err(e);
            },
        };
        proof {
            assert(bytes.skip(10).skip(1) =~= bytes.skip(11));
        }
        *reader = probe;
        Ok(EntityEffect { entity_id, effect_id, amplifier, duration, flags })
    }
}

impl RemoveEntityEffect {
    /// The packet on the wire: the entity and the effect.
    pub open spec fn bytes(self) -> Seq<u8> {
        i32_bytes(self.entity_id) + i8_bytes(self.effect_id)
    }

    /// Reads the packet.
    pub open spec fn parse(bytes: Seq<u8>) -> Parsed<RemoveEntityEffect> {
        match parse_i32(bytes) {
            Err(e) => Err(e),
            Ok((entity_id, a)) => match parse_i8(bytes.skip(4)) {
                Err(e) => Err(e),
                Ok((effect_id, b)) => Ok((RemoveEntityEffect { entity_id, effect_id }, 5)),
            },
        }
    }

    /// Writes the packet.
    pub fn encode(&self, buf: &mut Vec<u8>)
        ensures
            final(buf)@ == old(buf)@ + self.bytes(),
    {
        push_i32(buf, self.entity_id);
        push_i8(buf, self.effect_id);
        proof {
            assert(buf@ =~= old(buf)@ + self.bytes());
        }
    }

    /// Reads the packet. A read that fails takes no byte.
    pub fn decode(reader: &mut ByteReader) -> (r: Result<RemoveEntityEffect, MalformedPacket>)
        ensures
            read_as(
                old(reader).unread(),
                final(reader).unread(),
                r,
                RemoveEntityEffect::parse(old(reader).unread()),
            ),
    {
        let ghost bytes = reader.unread();
        let mut probe = *reader;
        let entity_id = match probe.try_get_i32() {
            Ok(v) => v,
            Err(e) => {
                return Err(e);
            },
        };
        let effect_id = match probe.try_get_i8() {
            Ok(v) => v,
            Err(e) => {
                return Err(e);
            },
        };
        proof {
            assert(bytes.skip(4).skip(1) =~= bytes.skip(5));
        }
        *reader = probe;
        Ok(RemoveEntityEffect { entity_id, effect_id })
    }
}

/// An effect packet, with anything after it, reads back as itself.
pub proof fn lemma_parse_entity_effect(packet: EntityEffect, rest: Seq<u8>)
    ensures
        packet.bytes().len() == 11,
        EntityEffect::parse(packet.bytes() + rest) == Ok::<(EntityEffect, nat), MalformedPacket>(
            (packet, 11),
        ),
{
    let bytes = packet.bytes() + rest;
    let r4 = i8_bytes(packet.flags) + rest;
    let r3 = i32_bytes(packet.duration) + r4;
    let r2 = i8_bytes(packet.amplifier) + r3;
    let r1 = i8_bytes(packet.effect_id) + r2;
    lemma_parse_fixed_values(0, packet.entity_id, 0, 0, r1);
    lemma_parse_fixed_values(packet.effect_id, 0, 0, 0, r2);
    lemma_parse_fixed_values(packet.amplifier, 0, 0, 0, r3);
    lemma_parse_fixed_values(0, packet.duration, 0, 0, r4);
    lemma_parse_fixed_values(packet.flags, 0, 0, 0, rest);
    assert(bytes =~= i32_bytes(packet.entity_id) + r1);
    assert(bytes.skip(4) =~= r1);
    assert(bytes.skip(5) =~= r2);
    assert(bytes.skip(6) =~= r3);
    assert(bytes.skip(10) =~= r4);
}

/// A remove packet, with anything after it, reads back as itself.
pub proof fn lemma_parse_remove_entity_effect(packet: RemoveEntityEffect, rest: Seq<u8>)
    ensures
        packet.bytes().len() == 5,
        RemoveEntityEffect::parse(packet.bytes() + rest) == Ok::<
            (RemoveEntityEffect, nat),
            MalformedPacket,
        >((packet, 5)),
{
    let bytes = packet.bytes() + rest;
    let r1 = i8_bytes(packet.effect_id) + rest;
    lemma_parse_fixed_values(0, packet.entity_id, 0, 0, r1);
    lemma_parse_fixed_values(packet.effect_id, 0, 0, 0, rest);
    assert(bytes =~= i32_bytes(packet.entity_id) + r1);
    assert(bytes.skip(4) =~= r1);
}

/// What a packet of attributes holds.
pub struct EntityPropertiesModel {
    pub entity_id: i32,
    pub entries: Seq<EntryModel>,
}

/// Announces all the attributes of an entity.
#[derive(Debug)]
pub struct EntityPropertiesPacket {
    pub entity_id: i32,
    pub properties: EntityProperties,
}

impl View for EntityPropertiesPacket {
    type V = EntityPropertiesModel;

    open spec fn view(&self) -> EntityPropertiesModel {
        EntityPropertiesModel { entity_id: self.entity_id, entries: self.properties@ }
    }
}

impl Clone for EntityPropertiesPacket {
    fn clone(&self) -> (copy: EntityPropertiesPacket)
        ensures
            copy@ == self@,
    {
        EntityPropertiesPacket { entity_id: self.entity_id, properties: self.properties.clone() }
    }
}

impl EntityPropertiesPacket {
    /// The packet on the wire: the entity, and the set of attributes.
    pub open spec fn bytes(packet: EntityPropertiesModel) -> Seq<u8> {
        i32_bytes(packet.entity_id) + properties_bytes(packet.entries)
    }

    /// Reads the packet.
    pub open spec fn parse(bytes: Seq<u8>) -> Parsed<EntityPropertiesModel> {
        match parse_i32(bytes) {
            Err(e) => Err(e),
            Ok((entity_id, a)) => match parse_properties(bytes.skip(4)) {
                Err(e) => Err(e),
                Ok((entries, b)) => Ok((EntityPropertiesModel { entity_id, entries }, 4 + b)),
            },
        }
    }

    /// Writes the packet.
    pub fn encode(&self, buf: &mut Vec<u8>)
        requires
            fits_wire(self.properties@),
        ensures
            final(buf)@ == old(buf)@ + EntityPropertiesPacket::bytes(self@),
    {
        push_i32(buf, self.entity_id);
        buf.push_properties(&self.properties);
        proof {
            assert(buf@ =~= old(buf)@ + EntityPropertiesPacket::bytes(self@));
        }
    }

    /// Reads the packet. A read that fails takes no byte.
    pub fn decode(reader: &mut ByteReader) -> (r: Result<EntityPropertiesPacket, MalformedPacket>)
        ensures
            match EntityPropertiesPacket::parse(old(reader).unread()) {
                Ok((packet, used)) => r matches Ok(got) && got@ == packet && got.properties.wf()
                    && used <= old(reader).unread().len() && final(reader).unread() == old(
                    reader,
                ).unread().skip(used as int),
                Err(e) => r matches Err(found) && found == e && final(reader).unread() == old(
                    reader,
                ).unread(),
            },
    {
        let ghost bytes = reader.unread();
        let mut probe = *reader;
        let entity_id = match probe.try_get_i32() {
            Ok(v) => v,
            Err(e) => {
                return Err(e);
            },
        };
        let properties = match probe.try_get_properties() {
            Ok(v) => v,
            Err(e) => {
                return Err(e);
            },
        };
        proof {
            let used = (bytes.skip(4).len() - probe.unread().len()) as nat;
            assert(bytes.skip(4).skip(used as int) =~= bytes.skip((4 + used) as int));
        }
        *reader = probe;
        Ok(EntityPropertiesPacket { entity_id, properties })
    }
}

/// A packet of attributes that fits the wire, with anything after it, reads
/// back as itself.
pub proof fn lemma_parse_entity_properties(packet: EntityPropertiesModel, rest: Seq<u8>)
    requires
        names_ascending(packet.entries),
        fits_wire(packet.entries),
    ensures
        EntityPropertiesPacket::parse(EntityPropertiesPacket::bytes(packet) + rest) == Ok::<
            (EntityPropertiesModel, nat),
            MalformedPacket,
        >((packet, EntityPropertiesPacket::bytes(packet).len())),
{
    let bytes = EntityPropertiesPacket::bytes(packet) + rest;
    let body = properties_bytes(packet.entries);
    let r1 = body + rest;
    assert(i32_bytes(packet.entity_id).len() == 4 && parse_i32(i32_bytes(packet.entity_id) + r1)
        == Ok::<(i32, nat), MalformedPacket>((packet.entity_id, 4))) by {
        lemma_parse_fixed_values(0, packet.entity_id, 0, 0, r1);
    }
    assert(parse_properties(r1) == Ok::<(Seq<EntryModel>, nat), MalformedPacket>(
        (packet.entries, body.len()),
    )) by {
        lemma_parse_properties(packet.entries, rest);
    }
    assert(bytes =~= i32_bytes(packet.entity_id) + r1);
    assert(bytes.skip(4) =~= r1);
    assert(EntityPropertiesPacket::bytes(packet).len() == 4 + body.len());
}

} // verus!
