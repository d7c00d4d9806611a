//! Status effects on an entity: the records, their life cycle, and the
//! per-tick rules that announce it.
//!
//! Every duration that goes out in a packet is in ticks.

use vstd::prelude::*;
use crate::effect::StatusEffect;
use crate::entity::properties::SyncedModel;
use crate::entity::properties::SyncedProperties;
use crate::entity::EntityId;
use crate::entityproperty::has_name;
use crate::entityproperty::other_than;
use crate::entityproperty::place_of_name;
use crate::entityproperty::EntryModel;
use crate::entityproperty::ModifierOperation;
use crate::entityproperty::PropertyModel;
use crate::entityproperty::PropertyModifier;
use crate::entityproperty::MOVEMENT_SPEED;
use crate::packet::EntityEffect;
use crate::packet::RemoveEntityEffect;

verus! {

/// How an effect is shown to the players that observe it.
#[derive(Debug, Clone, Copy, PartialEq, Eq, Hash, Structural)]
pub struct EffectFlags {
    pub ambient: bool,
    pub show_particles: bool,
    pub show_icon: bool,
}

impl EffectFlags {
    /// The bit of `ambient` in the bitmask.
    pub const AMBIENT: i8 = 0x01;

    /// The bit of `show_particles` in the bitmask.
    pub const SHOW_PARTICLES: i8 = 0x02;

    /// The bit of `show_icon` in the bitmask.
    pub const SHOW_ICON: i8 = 0x04;

    /// The bitmask of the flags: bit 0 is `ambient`, bit 1 is
    /// `show_particles`, bit 2 is `show_icon`.
    pub open spec fn mask(self) -> int {
        (if self.ambient { 1int } else { 0 }) + (if self.show_particles { 2int } else { 0 }) + (
        if self.show_icon { 4int } else { 0 })
    }

    /// The flags that a bitmask in `0..8` stands for.
    pub open spec fn of_mask(mask: int) -> EffectFlags {
        EffectFlags {
            ambient: mask % 2 == 1,
            show_particles: (mask / 2) % 2 == 1,
            show_icon: (mask / 4) % 2 == 1,
        }
    }

    /// No flag set.
    pub fn empty() -> (flags: EffectFlags)
        ensures
            flags == (EffectFlags { ambient: false, show_particles: false, show_icon: false }),
            flags.mask() == 0,
    {
        EffectFlags { ambient: false, show_particles: false, show_icon: false }
    }

    /// Every flag set.
    pub fn all() -> (flags: EffectFlags)
        ensures
            flags == (EffectFlags { ambient: true, show_particles: true, show_icon: true }),
            flags.mask() == 7,
    {
        EffectFlags { ambient: true, show_particles: true, show_icon: true }
    }

    /// The bitmask that goes on the wire.
    pub fn bits(&self) -> (bits: i8)
        ensures
            bits == self.mask(),
            0 <= bits < 8,
    {
        let mut bits: i8 = 0;
        if self.ambient {
            bits = bits + 1;
        }
        if self.show_particles {
            bits = bits + 2;
        }
        if self.show_icon {
            bits = bits + 4;
        }
        bits
    }

    /// The flags of a bitmask; a bitmask with a bit set that stands for no
    /// flag is refused.
    pub fn from_bits(bits: i8) -> (flags: Option<EffectFlags>)
        ensures
            flags is Some <==> 0 <= bits < 8,
            flags matches Some(f) ==> f == EffectFlags::of_mask(bits as int) && f.mask() == bits,
    {
        if 0 <= bits && bits < 8 {
            Some(
                EffectFlags {
                    ambient: bits % 2 == 1,
                    show_particles: (bits / 2) % 2 == 1,
                    show_icon: (bits / 4) % 2 == 1,
                },
            )
        } else {
            None
        }
    }

    pub fn is_empty(&self) -> (r: bool)
        ensures
            r == (self.mask() == 0),
    {
        !self.ambient && !self.show_particles && !self.show_icon
    }

    /// Whether every flag of `other` is set in `self`.
    pub fn contains(&self, other: EffectFlags) -> (r: bool)
        ensures
            r == ((other.ambient ==> self.ambient) && (other.show_particles
                ==> self.show_particles) && (other.show_icon ==> self.show_icon)),
    {
        (!other.ambient || self.ambient) && (!other.show_particles || self.show_particles) && (
        !other.show_icon || self.show_icon)
    }

    /// The flags set in either.
    pub fn union(self, other: EffectFlags) -> (r: EffectFlags)
        ensures
            r == (EffectFlags {
                ambient: self.ambient || other.ambient,
                show_particles: self.show_particles || other.show_particles,
                show_icon: self.show_icon || other.show_icon,
            }),
    {
        EffectFlags {
            ambient: self.ambient || other.ambient,
            show_particles: self.show_particles || other.show_particles,
            show_icon: self.show_icon || other.show_icon,
        }
    }
}

/// The bitmask determines the flags: reading a bitmask back gives the flags
/// it was made from.
pub proof fn lemma_flags_mask_round_trip(flags: EffectFlags)
    ensures
        0 <= flags.mask() < 8,
        EffectFlags::of_mask(flags.mask()) == flags,
{
}

/// Every bitmask in `0..8` is the bitmask of the flags it stands for.
pub proof fn lemma_flags_of_mask(mask: int)
    requires
        0 <= mask < 8,
    ensures
        EffectFlags::of_mask(mask).mask() == mask,
{
}

/// The ticks between two refreshes of a running effect.
pub const RESYNC_INTERVAL: u64 = 600;

/// Expired effects are looked for on every tick that this number divides.
pub const EXPIRATION_INTERVAL: u64 = 5;

/// Why a status effect could not be made.
#[derive(Debug, Clone, Copy, PartialEq, Eq, Structural)]
pub enum Error {
    /// The kind is not supported as a basic status effect: it needs more
    /// from the server than announcing it.
    InvalidStatusEffect(StatusEffect),
}

/// Whether a kind needs more from the server than announcing it: such a
/// kind has a record type of its own.
pub open spec fn needs_special_handling(kind: StatusEffect) -> bool {
    kind == StatusEffect::Speed
}

/// Whether a kind needs more from the server than announcing it.
pub fn requires_special_handling(kind: StatusEffect) -> (r: bool)
    ensures
        r == needs_special_handling(kind),
{
    match kind {
        StatusEffect::Speed => true,
        _ => false,
    }
}

/// A status effect on an entity that asks no more of the server than to
/// announce it.
///
/// A record is made pending, with a start tick of `-1`. The first activation
/// stamps the start tick, and nothing changes the record after that.
#[derive(Debug, Clone, Copy, PartialEq, Eq, Structural)]
pub struct BasicStatusEffect {
    entity_id: EntityId,
    amplifier: u8,
    time_start: i64,
    duration: u64,
    effect_type: StatusEffect,
    flags: EffectFlags,
}

impl BasicStatusEffect {
    pub closed spec fn spec_entity_id(&self) -> EntityId {
        self.entity_id
    }

    pub closed spec fn spec_amplifier(&self) -> u8 {
        self.amplifier
    }

    pub closed spec fn spec_time_start(&self) -> i64 {
        self.time_start
    }

    pub closed spec fn spec_duration(&self) -> u64 {
        self.duration
    }

    pub closed spec fn spec_effect_type(&self) -> StatusEffect {
        self.effect_type
    }

    pub closed spec fn spec_flags(&self) -> EffectFlags {
        self.flags
    }

    /// The record with the given parts.
    pub closed spec fn with_parts(
        entity_id: EntityId,
        amplifier: u8,
        time_start: i64,
        duration: u64,
        effect_type: StatusEffect,
        flags: EffectFlags,
    ) -> BasicStatusEffect {
        BasicStatusEffect { entity_id, amplifier, time_start, duration, effect_type, flags }
    }

    /// The same record with another start tick.
    pub open spec fn started_at(&self, time_start: i64) -> BasicStatusEffect {
        BasicStatusEffect::with_parts(
            self.entity_id(),
            self.amplifier(),
            time_start,
            self.duration(),
            self.effect_type(),
            self.flags(),
        )
    }

    /// Whether the effect has not been announced yet.
    pub open spec fn is_pending(&self) -> bool {
        self.time_start() < 0
    }

    /// The ticks that the effect has left at tick `now`; negative or zero
    /// once it has run out. Meaningful for an effect that is not pending.
    pub open spec fn remaining(&self, now: u64) -> int {
        self.time_start() + self.duration() - now
    }

    /// Whether the effect has started and run out by tick `now`.
    pub open spec fn is_expired(&self, now: u64) -> bool {
        !self.is_pending() && self.remaining(now) <= 0
    }

    /// Whether the effect is running at tick `now` and is due for a refresh:
    /// the ticks it has left are a positive multiple of 600.
    pub open spec fn is_resync_due(&self, now: u64) -> bool {
        !self.is_pending() && self.remaining(now) > 0 && self.remaining(now) % (
        RESYNC_INTERVAL as int) == 0
    }

    /// The packet that announces the effect with `duration` ticks to run.
    pub open spec fn packet_with_duration(&self, duration: i32) -> EntityEffect {
        EntityEffect {
            entity_id: self.entity_id().0,
            effect_id: self.effect_type().wire_id() as i8,
            amplifier: self.amplifier() as i8,
            duration,
            flags: self.flags().mask() as i8,
        }
    }

    /// The packet that announces the start of the effect. It carries the
    /// whole duration in ticks, cut to its low 32 bits.
    pub open spec fn start_packet(&self) -> EntityEffect {
        self.packet_with_duration(self.duration() as i32)
    }

    /// The packet that refreshes the effect at tick `now`. It carries the
    /// ticks that are left, cut to their low 32 bits.
    pub open spec fn refresh_packet(&self, now: u64) -> EntityEffect {
        self.packet_with_duration(self.remaining(now) as i32)
    }

    /// The packet that announces the end of the effect.
    pub open spec fn remove_packet(&self) -> RemoveEntityEffect {
        RemoveEntityEffect {
            entity_id: self.entity_id().0,
            effect_id: self.effect_type().wire_id() as i8,
        }
    }

    /// A pending effect of the given level on an entity. The level is one
    /// more than the amplifier that is stored and sent.
    ///
    /// A kind that needs special handling is refused.
    pub fn new(
        entity_id: EntityId,
        level: u8,
        duration: u64,
        effect_type: StatusEffect,
        flags: EffectFlags,
    ) -> (r: Result<BasicStatusEffect, Error>)
        requires
            level >= 1,
        ensures
            needs_special_handling(effect_type) ==> r == Err::<BasicStatusEffect, Error>(
                Error::InvalidStatusEffect(effect_type),
            ),
            !needs_special_handling(effect_type) ==> r == Ok::<BasicStatusEffect, Error>(
                BasicStatusEffect::with_parts(
                    entity_id,
                    (level - 1) as u8,
                    -1i64,
                    duration,
                    effect_type,
                    flags,
                ),
            ),
            r matches Ok(effect) ==> {
                &&& effect.entity_id() == entity_id
                &&& effect.amplifier() == level - 1
                &&& effect.time_start() == -1
                &&& effect.is_pending()
                &&& effect.duration() == duration
                &&& effect.effect_type() == effect_type
                &&& effect.flags() == flags
            },
    {
        if requires_special_handling(effect_type) {
            return Err(Error::InvalidStatusEffect(effect_type));
        }
        Ok(
            BasicStatusEffect {
                entity_id,
                amplifier: level - 1,
                time_start: -1,
                duration,
                effect_type,
                flags,
            },
        )
    }

    #[verifier::when_used_as_spec(spec_entity_id)]
    pub fn entity_id(&self) -> (r: EntityId)
        ensures
            r == self.entity_id(),
    {
        self.entity_id
    }

    /// The zero-based amplifier.
    #[verifier::when_used_as_spec(spec_amplifier)]
    pub fn amplifier(&self) -> (r: u8)
        ensures
            r == self.amplifier(),
    {
        self.amplifier
    }

    /// The level: one more than the amplifier.
    pub fn level(&self) -> (r: u16)
        ensures
            r == self.amplifier() + 1,
    {
        self.amplifier as u16 + 1
    }

    /// The tick at which the effect started, or `-1` while it is pending.
    #[verifier::when_used_as_spec(spec_time_start)]
    pub fn time_start(&self) -> (r: i64)
        ensures
            r == self.time_start(),
    {
        self.time_start
    }

    /// The ticks that the effect runs for.
    #[verifier::when_used_as_spec(spec_duration)]
    pub fn duration(&self) -> (r: u64)
        ensures
            r == self.duration(),
    {
        self.duration
    }

    #[verifier::when_used_as_spec(spec_effect_type)]
    pub fn effect_type(&self) -> (r: StatusEffect)
        ensures
            r == self.effect_type(),
    {
        self.effect_type
    }

    #[verifier::when_used_as_spec(spec_flags)]
    pub fn flags(&self) -> (r: EffectFlags)
        ensures
            r == self.flags(),
    {
        self.flags
    }

    /// Whether the effect is still waiting to be announced.
    pub fn pending(&self) -> (r: bool)
        ensures
            r == self.is_pending(),
    {
        self.time_start < 0
    }

    /// Whether the effect has started and run out by tick `now`.
    pub fn has_expired(&self, now: u64) -> (r: bool)
        ensures
            r == self.is_expired(now),
    {
        self.time_start >= 0 && self.time_start as i128 + self.duration as i128 <= now as i128
    }

    /// The refresh packet of the effect at tick `now`, if one is due.
    pub fn refresh_at(&self, now: u64) -> (r: Option<EntityEffect>)
        ensures
            r == if self.is_resync_due(now) {
                Some(self.refresh_packet(now))
            } else {
                None
            },
    {
        if self.time_start < 0 {
            return None;
        }
        let left: i128 = self.time_start as i128 + self.duration as i128 - now as i128;
        if left > 0 && left % 600 == 0 {
            Some(
                EntityEffect {
                    entity_id: self.entity_id.0,
                    effect_id: self.effect_type.protocol_id(),
                    amplifier: #[verifier::truncate] (self.amplifier as i8),
                    duration: #[verifier::truncate] (left as i32),
                    flags: self.flags.bits(),
                },
            )
        } else {
            None
        }
    }

    /// The packet that announces the start of the effect.
    pub fn create_packet(&self) -> (packet: EntityEffect)
        ensures
            packet == self.start_packet(),
    {
        EntityEffect {
            entity_id: self.entity_id.0,
            effect_id: self.effect_type.protocol_id(),
            amplifier: #[verifier::truncate] (self.amplifier as i8),
            duration: #[verifier::truncate] (self.duration as i32),
            flags: self.flags.bits(),
        }
    }
}

/// The parts of a record made of given parts are those parts.
pub proof fn lemma_with_parts(
    entity_id: EntityId,
    amplifier: u8,
    time_start: i64,
    duration: u64,
    effect_type: StatusEffect,
    flags: EffectFlags,
)
    ensures
        ({
            let e = BasicStatusEffect::with_parts(
                entity_id,
                amplifier,
                time_start,
                duration,
                effect_type,
                flags,
            );
            &&& e.entity_id() == entity_id
            &&& e.amplifier() == amplifier
            &&& e.time_start() == time_start
            &&& e.duration() == duration
            &&& e.effect_type() == effect_type
            &&& e.flags() == flags
        }),
{
}

/// A record is the record made of its parts: two records with the same
/// parts are the same record.
pub proof fn lemma_record_is_its_parts(e: BasicStatusEffect)
    ensures
        e == BasicStatusEffect::with_parts(
            e.entity_id(),
            e.amplifier(),
            e.time_start(),
            e.duration(),
            e.effect_type(),
            e.flags(),
        ),
{
}

/// The status effects on one entity that ask no more of the server than to
/// announce them, in the order in which they were put on it.
pub struct EntityBasicStatusEffects(pub Vec<BasicStatusEffect>);

impl View for EntityBasicStatusEffects {
    type V = Seq<BasicStatusEffect>;

    open spec fn view(&self) -> Seq<BasicStatusEffect> {
        self.0@
    }
}

/// The test that picks the pending effects.
pub open spec fn pending() -> spec_fn(BasicStatusEffect) -> bool {
    |e: BasicStatusEffect| e.is_pending()
}

/// The test that picks the effects that have run out by tick `now`.
pub open spec fn expired(now: u64) -> spec_fn(BasicStatusEffect) -> bool {
    |e: BasicStatusEffect| e.is_expired(now)
}

/// The test that picks the effects that have not run out by tick `now`.
pub open spec fn unexpired(now: u64) -> spec_fn(BasicStatusEffect) -> bool {
    |e: BasicStatusEffect| !e.is_expired(now)
}

/// The test that picks the effects that are due for a refresh at tick `now`.
pub open spec fn resync_due(now: u64) -> spec_fn(BasicStatusEffect) -> bool {
    |e: BasicStatusEffect| e.is_resync_due(now)
}

/// The collection after its pending effects were started at tick `now`:
/// each pending effect has `now` as its start tick, the others are as they
/// were, and all are in their places.
pub open spec fn activated(effects: Seq<BasicStatusEffect>, now: u64) -> Seq<BasicStatusEffect> {
    effects.map_values(
        |e: BasicStatusEffect|
            if e.is_pending() {
                e.started_at(now as i64)
            } else {
                e
            },
    )
}

/// The start packets of the pending effects, in their order.
pub open spec fn start_packets(effects: Seq<BasicStatusEffect>) -> Seq<EntityEffect> {
    effects.filter(pending()).map_values(|e: BasicStatusEffect| e.start_packet())
}

/// The effects that stay at tick `now`: all but those that have run out, in
/// their order.
pub open spec fn retained(effects: Seq<BasicStatusEffect>, now: u64) -> Seq<BasicStatusEffect> {
    effects.filter(unexpired(now))
}

/// One remove packet for each effect that has run out by tick `now`, in
/// their order.
pub open spec fn remove_packets(effects: Seq<BasicStatusEffect>, now: u64) -> Seq<
    RemoveEntityEffect,
> {
    effects.filter(expired(now)).map_values(|e: BasicStatusEffect| e.remove_packet())
}

/// One refresh packet for each effect that is due for one at tick `now`, in
/// their order.
pub open spec fn refresh_packets(effects: Seq<BasicStatusEffect>, now: u64) -> Seq<EntityEffect> {
    effects.filter(resync_due(now)).map_values(|e: BasicStatusEffect| e.refresh_packet(now))
}

/// Picking from a sequence with one more item, and mapping what was picked,
/// adds the image of that item if it is picked and nothing if it is not.
proof fn lemma_pick_and_map_push<A, B>(
    s: Seq<A>,
    last: A,
    pick: spec_fn(A) -> bool,
    image: spec_fn(A) -> B,
)
    ensures
        s.push(last).filter(pick).map_values(image) == if pick(last) {
            s.filter(pick).map_values(image).push(image(last))
        } else {
            s.filter(pick).map_values(image)
        },
        s.push(last).filter(pick) == if pick(last) {
            s.filter(pick).push(last)
        } else {
            s.filter(pick)
        },
{
    s.lemma_filter_push(last, pick);
    if pick(last) {
        assert(s.filter(pick).push(last).map_values(image) =~= s.filter(pick).map_values(
            image,
        ).push(image(last)));
    }
}

impl EntityBasicStatusEffects {
    /// Whether any effect is pending.
    pub fn has_pending(&self) -> (r: bool)
        ensures
            r == exists|i: int| 0 <= i < self@.len() && (#[trigger] self@[i]).is_pending(),
    {
        let mut i: usize = 0;
        while i < self.0.len()
            invariant
                i <= self.0.len(),
                forall|j: int| 0 <= j < i ==> !(#[trigger] self@[j]).is_pending(),
            decreases self.0.len() - i,
        {
            if self.0[i].time_start < 0 {
                assert(self@[i as int].is_pending());
                return true;
            }
            i = i + 1;
        }
        false
    }

    /// Starts the pending effects at tick `now`, and gives the packets that
    /// announce them.
    pub fn activate_pending(&mut self, now: u64) -> (packets: Vec<EntityEffect>)
        requires
            now <= i64::MAX,
        ensures
            final(self)@ == activated(old(self)@, now),
            packets@ == start_packets(old(self)@),
    {
        let mut packets: Vec<EntityEffect> = Vec::new();
        let mut i: usize = 0;
        while i < self.0.len()
            invariant
                now <= i64::MAX,
                i <= self.0.len(),
                self@.len() == old(self)@.len(),
                forall|j: int| 0 <= j < i ==> self@[j] == activated(old(self)@, now)[j],
                forall|j: int| i <= j < self@.len() ==> self@[j] == old(self)@[j],
                packets@ == start_packets(old(self)@.take(i as int)),
            decreases self.0.len() - i,
        {
            let effect = self.0[i];
            proof {
                lemma_pick_and_map_push(
                    old(self)@.take(i as int),
                    effect,
                    pending(),
                    |e: BasicStatusEffect| e.start_packet(),
                );
                assert(old(self)@.take(i as int).push(effect) =~= old(self)@.take(i + 1));
            }
            if effect.time_start < 0 {
                let started = BasicStatusEffect {
                    entity_id: effect.entity_id,
                    amplifier: effect.amplifier,
                    time_start: now as i64,
                    duration: effect.duration,
                    effect_type: effect.effect_type,
                    flags: effect.flags,
                };
                self.0.set(i, started);
                packets.push(started.create_packet());
            }
            i = i + 1;
        }
        proof {
            assert(old(self)@.take(i as int) =~= old(self)@);
            assert(self@ =~= activated(old(self)@, now));
        }
        packets
    }

    /// Takes out the effects that have run out by tick `now`, and gives one
    /// remove packet for each of them. The effects that stay keep their
    /// order.
    pub fn remove_expired(&mut self, now: u64) -> (packets: Vec<RemoveEntityEffect>)
        ensures
            final(self)@ == retained(old(self)@, now),
            packets@ == remove_packets(old(self)@, now),
    {
        let mut packets: Vec<RemoveEntityEffect> = Vec::new();
        let mut kept: Vec<BasicStatusEffect> = Vec::new();
        let mut i: usize = 0;
        while i < self.0.len()
            invariant
                i <= self.0.len(),
                self@ == old(self)@,
                kept@ == retained(old(self)@.take(i as int), now),
                packets@ == remove_packets(old(self)@.take(i as int), now),
            decreases self.0.len() - i,
        {
            let effect = self.0[i];
            proof {
                lemma_pick_and_map_push(
                    old(self)@.take(i as int),
                    effect,
                    expired(now),
                    |e: BasicStatusEffect| e.remove_packet(),
                );
                lemma_pick_and_map_push(
                    old(self)@.take(i as int),
                    effect,
                    unexpired(now),
                    |e: BasicStatusEffect| e,
                );
                assert(old(self)@.take(i as int).push(effect) =~= old(self)@.take(i + 1));
            }
            if effect.has_expired(now) {
                packets.push(
                    RemoveEntityEffect {
                        entity_id: effect.entity_id.0,
                        effect_id: effect.effect_type.protocol_id(),
                    },
                );
            } else {
                kept.push(effect);
            }
            i = i + 1;
        }
        proof {
            assert(old(self)@.take(i as int) =~= old(self)@);
        }
        self.0 = kept;
        packets
    }

    /// The refresh packets that are due at tick `now`: one for each running
    /// effect whose remaining ticks are a multiple of 600.
    pub fn refresh_due(&self, now: u64) -> (packets: Vec<EntityEffect>)
        ensures
            packets@ == refresh_packets(self@, now),
    {
        let mut packets: Vec<EntityEffect> = Vec::new();
        let mut i: usize = 0;
        while i < self.0.len()
            invariant
                i <= self.0.len(),
                packets@ == refresh_packets(self@.take(i as int), now),
            decreases self.0.len() - i,
        {
            let effect = self.0[i];
            proof {
                lemma_pick_and_map_push(
                    self@.take(i as int),
                    effect,
                    resync_due(now),
                    |e: BasicStatusEffect| e.refresh_packet(now),
                );
                assert(self@.take(i as int).push(effect) =~= self@.take(i + 1));
            }
            match effect.refresh_at(now) {
                Some(packet) => {
                    packets.push(packet);
                },
                None => {},
            }
            i = i + 1;
        }
        proof {
            assert(self@.take(i as int) =~= self@);
        }
        packets
    }
}

/// What one tick's update of an entity's basic effects gives to send, in
/// the order in which it is to be sent.
pub struct BasicEffectsUpdate {
    /// The start packets of the effects that the tick started.
    pub started: Vec<EntityEffect>,
    /// The remove packets of the effects that the tick took out.
    pub removed: Vec<RemoveEntityEffect>,
    /// The refresh packets of the effects that stay and are due for one.
    pub refreshed: Vec<EntityEffect>,
}

/// Whether expired effects are looked for at tick `now`.
pub open spec fn is_expiration_tick(now: u64) -> bool {
    now % EXPIRATION_INTERVAL == 0
}

/// Whether expired effects are looked for at tick `now`.
pub fn expiration_due(now: u64) -> (r: bool)
    ensures
        r == is_expiration_tick(now),
{
    now % EXPIRATION_INTERVAL == 0
}

/// The collection after the update of tick `now`: the pending effects are
/// started, and then, on an expiration tick, the effects that have run out
/// are taken out.
pub open spec fn after_tick(effects: Seq<BasicStatusEffect>, now: u64) -> Seq<BasicStatusEffect> {
    if is_expiration_tick(now) {
        retained(activated(effects, now), now)
    } else {
        activated(effects, now)
    }
}

/// The remove packets of the update of tick `now`.
pub open spec fn removed_at_tick(effects: Seq<BasicStatusEffect>, now: u64) -> Seq<
    RemoveEntityEffect,
> {
    if is_expiration_tick(now) {
        remove_packets(activated(effects, now), now)
    } else {
        Seq::empty()
    }
}

/// Runs one tick on the basic effects of one entity. In this order: starts
/// the pending effects; on every fifth tick takes out the effects that have
/// run out; and refreshes the effects that stay and are due for it.
pub fn update_basic_effects(effects: &mut EntityBasicStatusEffects, now: u64) -> (update:
    BasicEffectsUpdate)
    requires
        now <= i64::MAX,
    ensures
        final(effects)@ == after_tick(old(effects)@, now),
        update.started@ == start_packets(old(effects)@),
        update.removed@ == removed_at_tick(old(effects)@, now),
        update.refreshed@ == refresh_packets(after_tick(old(effects)@, now), now),
{
    let started = effects.activate_pending(now);
    let removed = if expiration_due(now) {
        effects.remove_expired(now)
    } else {
        Vec::new()
    };
    let refreshed = effects.refresh_due(now);
    BasicEffectsUpdate { started, removed, refreshed }
}

/// Starting the pending effects at a tick leaves none pending: an effect
/// that was pending has that tick as its start tick and its other parts as
/// before, and an effect that had started is as it was.
pub proof fn lemma_activation(effects: Seq<BasicStatusEffect>, now: u64, i: int)
    requires
        now <= i64::MAX,
        0 <= i < effects.len(),
    ensures
        activated(effects, now).len() == effects.len(),
        !activated(effects, now)[i].is_pending(),
        effects[i].is_pending() ==> activated(effects, now)[i] == effects[i].started_at(now as i64)
            && activated(effects, now)[i].time_start() == now,
        !effects[i].is_pending() ==> activated(effects, now)[i] == effects[i],
{
}

/// An effect is started once: starting the pending effects again at a later
/// tick changes nothing.
pub proof fn lemma_activation_once(effects: Seq<BasicStatusEffect>, first: u64, later: u64)
    requires
        first <= i64::MAX,
    ensures
        activated(activated(effects, first), later) == activated(effects, first),
        start_packets(activated(effects, first)) == Seq::<EntityEffect>::empty(),
{
    let once = activated(effects, first);
    assert(activated(once, later) =~= once);
    assert forall|i: int| 0 <= i < once.len() implies !pending()(#[trigger] once[i]) by {}
    assert(once.filter(pending()).len() == 0) by {
        if once.filter(pending()).len() > 0 {
            let e = once.filter(pending())[0];
            once.lemma_filter_pred(pending(), 0);
            assert(once.filter(pending()).contains(e));
            once.lemma_filter_contains_rev(pending(), e);
        }
    }
    assert(once.filter(pending()) =~= Seq::<BasicStatusEffect>::empty());
}

/// After the update of a tick no effect is pending: an effect that has
/// started never goes back to waiting, and an effect that waited has started.
pub proof fn lemma_nothing_pending_after_tick(effects: Seq<BasicStatusEffect>, now: u64, i: int)
    requires
        now <= i64::MAX,
        0 <= i < after_tick(effects, now).len(),
    ensures
        !after_tick(effects, now)[i].is_pending(),
{
    let started = activated(effects, now);
    let e = after_tick(effects, now)[i];
    if is_expiration_tick(now) {
        assert(started.filter(unexpired(now)).contains(e));
        started.lemma_filter_contains_rev(unexpired(now), e);
    } else {
        assert(started.contains(e));
    }
    let j = choose|j: int| 0 <= j < started.len() && started[j] == e;
    lemma_activation(effects, now, j);
}

/// The first tick at or after `tick` on which expired effects are looked
/// for.
pub open spec fn next_expiration_tick(tick: int) -> int {
    if tick % (EXPIRATION_INTERVAL as int) == 0 {
        tick
    } else {
        tick + (EXPIRATION_INTERVAL - tick % (EXPIRATION_INTERVAL as int))
    }
}

impl BasicStatusEffect {
    /// The tick whose update takes a started effect out: the first
    /// expiration tick at which the effect has run for its whole duration.
    pub open spec fn removal_tick(&self) -> int {
        next_expiration_tick(self.time_start() + self.duration())
    }

    /// Whether the update of tick `now` takes the effect out.
    pub open spec fn leaves_at(&self, now: u64) -> bool {
        is_expiration_tick(now) && self.is_expired(now)
    }

    /// Whether a started effect may still be on its entity when tick `now`
    /// begins: it has started, and no earlier tick was its removal tick.
    pub open spec fn on_schedule(&self, now: int) -> bool {
        !self.is_pending() && self.time_start() <= now <= self.removal_tick()
    }
}

/// The removal tick of a started effect is an expiration tick, comes when
/// the effect has run for its whole duration, and comes at most four ticks
/// after that.
pub proof fn lemma_removal_tick_bounds(e: BasicStatusEffect)
    requires
        !e.is_pending(),
    ensures
        e.removal_tick() % (EXPIRATION_INTERVAL as int) == 0,
        e.time_start() + e.duration() <= e.removal_tick() <= e.time_start() + e.duration() + 4,
{
}

/// A started effect stays through every tick before its removal tick, and
/// the update of its removal tick takes it out: it leaves on the first
/// expiration tick at which it has run for its whole duration.
pub proof fn lemma_leaves_at_removal_tick(e: BasicStatusEffect, now: u64)
    requires
        !e.is_pending(),
    ensures
        now < e.removal_tick() ==> !e.leaves_at(now),
        now == e.removal_tick() ==> e.leaves_at(now),
        e.leaves_at(now) <==> now % EXPIRATION_INTERVAL == 0 && now - e.time_start()
            >= e.duration(),
{
}

/// The update of a tick keeps exactly the effects that do not leave at that
/// tick, in their order.
pub proof fn lemma_after_tick_keeps(effects: Seq<BasicStatusEffect>, now: u64)
    ensures
        after_tick(effects, now) == activated(effects, now).filter(
            |e: BasicStatusEffect| !e.leaves_at(now),
        ),
{
    let a = activated(effects, now);
    let stays = |e: BasicStatusEffect| !e.leaves_at(now);
    if is_expiration_tick(now) {
        lemma_filter_same(a, unexpired(now), stays);
    } else {
        lemma_filter_all(a, stays);
    }
}

/// Two tests that agree on the items of a sequence pick the same items.
proof fn lemma_filter_same<A>(s: Seq<A>, p: spec_fn(A) -> bool, q: spec_fn(A) -> bool)
    requires
        forall|i: int| 0 <= i < s.len() ==> p(#[trigger] s[i]) == q(s[i]),
    ensures
        s.filter(p) == s.filter(q),
    decreases s.len(),
{
    reveal(Seq::filter);
    if s.len() > 0 {
        lemma_filter_same(s.drop_last(), p, q);
    }
}

/// A test that holds of all items of a sequence picks the whole sequence.
proof fn lemma_filter_all<A>(s: Seq<A>, p: spec_fn(A) -> bool)
    requires
        forall|i: int| 0 <= i < s.len() ==> p(#[trigger] s[i]),
    ensures
        s.filter(p) == s,
    decreases s.len(),
{
    reveal(Seq::filter);
    if s.len() > 0 {
        lemma_filter_all(s.drop_last(), p);
        assert(s.drop_last().push(s.last()) =~= s);
    }
}

/// The collection after the updates of `count` ticks in a row, the first of
/// them tick `first`.
pub open spec fn after_ticks(effects: Seq<BasicStatusEffect>, first: u64, count: nat) -> Seq<
    BasicStatusEffect,
>
    decreases count,
{
    if count == 0 {
        effects
    } else {
        after_tick(after_ticks(effects, first, (count - 1) as nat), (first + count - 1) as u64)
    }
}

/// Where every effect is pending or on schedule when a tick begins, every
/// effect that the tick's update leaves on the entity is on schedule when
/// the next tick begins.
pub proof fn lemma_tick_keeps_schedule(effects: Seq<BasicStatusEffect>, now: u64)
    requires
        now < i64::MAX,
        forall|i: int|
            0 <= i < effects.len() ==> (#[trigger] effects[i]).is_pending()
                || effects[i].on_schedule(now as int),
    ensures
        forall|i: int|
            0 <= i < after_tick(effects, now).len() ==> (#[trigger] after_tick(
                effects,
                now,
            )[i]).on_schedule(now + 1),
{
    let a = activated(effects, now);
    let after = after_tick(effects, now);
    assert forall|i: int| 0 <= i < after.len() implies (#[trigger] after[i]).on_schedule(
        now + 1,
    ) by {
        let e = after[i];
        if is_expiration_tick(now) {
            a.lemma_filter_pred(unexpired(now), i);
            assert(a.filter(unexpired(now)).contains(e));
            a.lemma_filter_contains_rev(unexpired(now), e);
            assert(unexpired(now)(e));
        } else {
            assert(a.contains(e));
        }
        let j = choose|j: int| 0 <= j < a.len() && a[j] == e;
        lemma_activation(effects, now, j);
        assert(effects[j].is_pending() || effects[j].on_schedule(now as int));
    }
}

/// While the update runs on every tick, no effect overstays: when a tick
/// begins, every effect on the entity that has been through an update has
/// started, and the ticks since its start are at most its duration plus four.
pub proof fn lemma_never_overdue(effects: Seq<BasicStatusEffect>, first: u64, count: nat)
    requires
        count >= 1,
        first + count <= i64::MAX,
        forall|i: int|
            0 <= i < effects.len() ==> (#[trigger] effects[i]).is_pending()
                || effects[i].on_schedule(first as int),
    ensures
        forall|i: int|
            0 <= i < after_ticks(effects, first, count).len() ==> {
                let e = #[trigger] after_ticks(effects, first, count)[i];
                &&& e.on_schedule(first + count)
                &&& !e.is_pending()
                &&& (first + count) - e.time_start() <= e.duration() + 4
            },
    decreases count,
{
    let before = after_ticks(effects, first, (count - 1) as nat);
    let now = (first + count - 1) as u64;
    if count > 1 {
        lemma_never_overdue(effects, first, (count - 1) as nat);
    }
    lemma_tick_keeps_schedule(before, now);
    assert forall|i: int| 0 <= i < after_ticks(effects, first, count).len() implies {
        let e = #[trigger] after_ticks(effects, first, count)[i];
        &&& e.on_schedule(first + count)
        &&& !e.is_pending()
        &&& (first + count) - e.time_start() <= e.duration() + 4
    } by {
        let e = after_ticks(effects, first, count)[i];
        assert(e == after_tick(before, now)[i]);
        lemma_removal_tick_bounds(e);
    }
}

/// Refresh packets go out only for effects that are due: every refresh
/// packet of a tick belongs to an effect of the collection that is running
/// and whose remaining ticks are a multiple of 600, and it carries those
/// remaining ticks.
pub proof fn lemma_refresh_only_when_due(effects: Seq<BasicStatusEffect>, now: u64, k: int)
    requires
        0 <= k < refresh_packets(effects, now).len(),
    ensures
        exists|i: int|
            0 <= i < effects.len() && (#[trigger] effects[i]).is_resync_due(now)
                && refresh_packets(effects, now)[k] == effects[i].refresh_packet(now),
{
    let due = effects.filter(resync_due(now));
    let e = due[k];
    effects.lemma_filter_pred(resync_due(now), k);
    assert(due.contains(e));
    effects.lemma_filter_contains_rev(resync_due(now), e);
    let i = choose|i: int| 0 <= i < effects.len() && effects[i] == e;
    assert(effects[i].is_resync_due(now));
}

/// An effect that is alone on its entity is refreshed at a tick exactly when
/// it is due.
pub proof fn lemma_refresh_of_one(e: BasicStatusEffect, now: u64)
    ensures
        refresh_packets(seq![e], now) == if e.is_resync_due(now) {
            seq![e.refresh_packet(now)]
        } else {
            Seq::<EntityEffect>::empty()
        },
{
    let none = Seq::<BasicStatusEffect>::empty();
    reveal(Seq::filter);
    assert(none.filter(resync_due(now)) =~= none);
    lemma_pick_and_map_push(
        none,
        e,
        resync_due(now),
        |e: BasicStatusEffect| e.refresh_packet(now),
    );
    assert(none.push(e) =~= seq![e]);
    assert(none.map_values(|e: BasicStatusEffect| e.refresh_packet(now)) =~= Seq::<
        EntityEffect,
    >::empty());
    if e.is_resync_due(now) {
        assert(Seq::<EntityEffect>::empty().push(e.refresh_packet(now)) =~= seq![
            e.refresh_packet(now),
        ]);
    }
}

/// The text of the identifier of the modifier that a speed effect puts on
/// the movement speed of its entity. Every speed effect uses this one
/// identifier, so that the modifier of an earlier speed effect gives way to
/// the modifier of a later one.
pub const SPEED_MODIFIER_UUID: &'static str = "91AEAA56-376B-4498-935B-2F7F68070635";

/// The bit pattern of 0.2, the amount of the modifier that a speed effect
/// puts on the movement speed.
pub const SPEED_MODIFIER_AMOUNT: u64 = 0x3FC9_9999_9999_999A;

/// The 128-bit identifier that a text stands for, if it stands for one.
pub uninterp spec fn parsed_uuid(text: Seq<char>) -> Option<u128>;

/// `uuid::Uuid::parse_str`, with `Uuid::as_u128` on what it gives: the
/// 128-bit identifier that the text stands for, or nothing where the text
/// stands for none. What comes back depends on the text alone.
#[verifier::external_body]
fn parse_uuid(text: &str) -> (id: Option<u128>)
    ensures
        id == parsed_uuid(text@),
{
    match uuid::Uuid::parse_str(text) {
        Ok(id) => Some(id.as_u128()),
        Err(_) => None,
    }
}

/// A speed effect on an entity. Besides being announced, it puts a modifier
/// on the movement speed of the entity, once, when it starts.
#[derive(Debug, Clone, Copy, PartialEq, Eq, Structural)]
pub struct SpeedEffect {
    entity_id: EntityId,
    amplifier: i8,
    start_time: u64,
    duration: u64,
    new: bool,
}

/// What a tick did with a speed effect.
#[derive(Debug, Clone, Copy, PartialEq, Eq, Structural)]
pub enum SpeedUpdate {
    /// The effect had started before; nothing was done.
    Idle,
    /// The effect started: its modifier is on the movement speed, and the
    /// packet announces it.
    Started(EntityEffect),
    /// The entity has no movement speed; the effect is as it was.
    UnknownAttributeName,
    /// The text of the modifier's identifier stands for no identifier; the
    /// effect is as it was.
    InvalidModifierId,
}

impl SpeedEffect {
    pub closed spec fn spec_entity_id(&self) -> EntityId {
        self.entity_id
    }

    pub closed spec fn spec_amplifier(&self) -> i8 {
        self.amplifier
    }

    pub closed spec fn spec_start_time(&self) -> u64 {
        self.start_time
    }

    pub closed spec fn spec_duration(&self) -> u64 {
        self.duration
    }

    pub closed spec fn spec_is_new(&self) -> bool {
        self.new
    }

    /// The effect with the given parts.
    pub closed spec fn with_parts(
        entity_id: EntityId,
        amplifier: i8,
        start_time: u64,
        duration: u64,
        new: bool,
    ) -> SpeedEffect {
        SpeedEffect { entity_id, amplifier, start_time, duration, new }
    }

    /// The effect once it has started at tick `now`.
    pub open spec fn started_at(&self, now: u64) -> SpeedEffect {
        SpeedEffect::with_parts(self.entity_id(), self.amplifier(), now, self.duration(), false)
    }

    /// The packet that announces the start of the effect. It carries the
    /// whole duration in ticks, cut to its low 32 bits, and no flag.
    pub open spec fn start_packet(&self) -> EntityEffect {
        EntityEffect {
            entity_id: self.entity_id().0,
            effect_id: StatusEffect::Speed.wire_id() as i8,
            amplifier: self.amplifier(),
            duration: self.duration() as i32,
            flags: 0,
        }
    }

    /// A speed effect of the given level that has not started. The level is
    /// one more than the amplifier that is stored and sent.
    pub fn new(entity_id: EntityId, level: i8, duration: u64) -> (effect: SpeedEffect)
        requires
            level > i8::MIN,
        ensures
            effect == SpeedEffect::with_parts(entity_id, (level - 1) as i8, 0, duration, true),
            effect.entity_id() == entity_id,
            effect.amplifier() == level - 1,
            effect.start_time() == 0,
            effect.duration() == duration,
            effect.is_new(),
    {
        SpeedEffect { entity_id, amplifier: level - 1, duration, start_time: 0, new: true }
    }

    #[verifier::when_used_as_spec(spec_entity_id)]
    pub fn entity_id(&self) -> (r: EntityId)
        ensures
            r == self.entity_id(),
    {
        self.entity_id
    }

    /// The zero-based amplifier.
    #[verifier::when_used_as_spec(spec_amplifier)]
    pub fn amplifier(&self) -> (r: i8)
        ensures
            r == self.amplifier(),
    {
        self.amplifier
    }

    /// The tick at which the effect started; zero while it has not.
    #[verifier::when_used_as_spec(spec_start_time)]
    pub fn start_time(&self) -> (r: u64)
        ensures
            r == self.start_time(),
    {
        self.start_time
    }

    /// The ticks that the effect runs for.
    #[verifier::when_used_as_spec(spec_duration)]
    pub fn duration(&self) -> (r: u64)
        ensures
            r == self.duration(),
    {
        self.duration
    }

    /// Whether the effect has not started yet.
    #[verifier::when_used_as_spec(spec_is_new)]
    pub fn is_new(&self) -> (r: bool)
        ensures
            r == self.is_new(),
    {
        self.new
    }
}

/// The parts of a speed effect made of given parts are those parts, and a
/// speed effect is the effect made of its parts.
pub proof fn lemma_speed_effect_parts(
    effect: SpeedEffect,
    entity_id: EntityId,
    amplifier: i8,
    start_time: u64,
    duration: u64,
    new: bool,
)
    ensures
        effect == SpeedEffect::with_parts(
            effect.entity_id(),
            effect.amplifier(),
            effect.start_time(),
            effect.duration(),
            effect.is_new(),
        ),
        ({
            let made = SpeedEffect::with_parts(entity_id, amplifier, start_time, duration, new);
            &&& made.entity_id() == entity_id
            &&& made.amplifier() == amplifier
            &&& made.start_time() == start_time
            &&& made.duration() == duration
            &&& made.is_new() == new
        }),
{
}

/// The modifier that a speed effect puts on the movement speed, with the
/// identifier `id`: it multiplies, by the amount 0.2.
pub open spec fn speed_modifier(id: u128) -> PropertyModifier {
    PropertyModifier::with_parts(id, SPEED_MODIFIER_AMOUNT, ModifierOperation::Multiply)
}

/// What an attribute holds once the speed modifier with the identifier `id`
/// is put on it: the modifier stands at the end of the list, in place of
/// every modifier with that identifier.
pub open spec fn with_speed_modifier(property: PropertyModel, id: u128) -> PropertyModel {
    PropertyModel {
        base_value: property.base_value,
        modifiers: property.modifiers.filter(other_than(id)).push(speed_modifier(id)),
    }
}

/// The attributes of an entity once a speed effect has put its modifier,
/// with the identifier `id`, on the movement speed, which the entity must
/// have. The change is marked for the next poll.
pub open spec fn with_speed_applied(properties: SyncedModel, id: u128) -> SyncedModel {
    let place = place_of_name(properties.entries, MOVEMENT_SPEED@);
    SyncedModel {
        entries: properties.entries.update(
            place,
            EntryModel {
                name: MOVEMENT_SPEED@,
                property: with_speed_modifier(properties.entries[place].property, id),
            },
        ),
        dirty: true,
    }
}

/// Whether a tick starts a speed effect: the effect has not started, the
/// modifier has an identifier, and the entity has a movement speed.
pub open spec fn speed_effect_starts(
    effect: SpeedEffect,
    properties: SyncedModel,
    modifier_id: Option<u128>,
) -> bool {
    effect.is_new() && modifier_id is Some && has_name(properties.entries, MOVEMENT_SPEED@)
}

/// What a tick does with a speed effect, given the identifier of the
/// modifier.
pub open spec fn speed_update(
    effect: SpeedEffect,
    properties: SyncedModel,
    modifier_id: Option<u128>,
) -> SpeedUpdate {
    if !effect.is_new() {
        SpeedUpdate::Idle
    } else if modifier_id is None {
        SpeedUpdate::InvalidModifierId
    } else if !has_name(properties.entries, MOVEMENT_SPEED@) {
        SpeedUpdate::UnknownAttributeName
    } else {
        SpeedUpdate::Started(effect.start_packet())
    }
}

/// Runs one tick on a speed effect and the attributes of its entity, given
/// the identifier of the modifier. An effect that has not started starts:
/// its modifier is put on the movement speed, it is stamped with the tick,
/// and its start packet is handed out. Where the identifier or the movement
/// speed is missing, and where the effect had started, nothing changes.
pub fn apply_speed_effect(
    effect: &mut SpeedEffect,
    properties: &mut SyncedProperties,
    now: u64,
    modifier_id: Option<u128>,
) -> (update: SpeedUpdate)
    requires
        old(properties).wf(),
    ensures
        final(properties).wf(),
        update == speed_update(*old(effect), old(properties)@, modifier_id),
        speed_effect_starts(*old(effect), old(properties)@, modifier_id) ==> *final(effect) == old(
            effect,
        ).started_at(now) && final(properties)@ == with_speed_applied(
            old(properties)@,
            modifier_id->0,
        ),
        !speed_effect_starts(*old(effect), old(properties)@, modifier_id) ==> *final(effect)
            == *old(effect) && final(properties)@ == old(properties)@,
{
    if !effect.new {
        return SpeedUpdate::Idle;
    }
    let id = match modifier_id {
        Some(id) => id,
        None => {
            return SpeedUpdate::InvalidModifierId;
        },
    };
    match properties.get_property_mut(MOVEMENT_SPEED) {
        Some(speed) => {
            speed.put_modifier(
                PropertyModifier::new(id, SPEED_MODIFIER_AMOUNT, ModifierOperation::Multiply),
            );
        },
        None => {
            return SpeedUpdate::UnknownAttributeName;
        },
    }
    proof {
        crate::entityproperty::lemma_entry_by_name(
            old(properties)@.entries,
            place_of_name(old(properties)@.entries, MOVEMENT_SPEED@),
        );
    }
    effect.start_time = now;
    effect.new = false;
    SpeedUpdate::Started(
        EntityEffect {
            entity_id: effect.entity_id.0,
            effect_id: StatusEffect::Speed.protocol_id(),
            amplifier: effect.amplifier,
            duration: #[verifier::truncate] (effect.duration as i32),
            flags: EffectFlags::empty().bits(),
        },
    )
}

/// The identifier of the modifier that a speed effect puts on the movement
/// speed: what the text of the identifier stands for.
pub fn speed_modifier_id() -> (id: Option<u128>)
    ensures
        id == parsed_uuid(SPEED_MODIFIER_UUID@),
{
    parse_uuid(SPEED_MODIFIER_UUID)
}

/// Runs one tick on a speed effect and the attributes of its entity. An
/// effect that has not started starts: its modifier is put on the movement
/// speed, it is stamped with the tick, and its start packet is handed out.
pub fn update_speed_effects(effect: &mut SpeedEffect, properties: &mut SyncedProperties, now: u64) -> (update:
    SpeedUpdate)
    requires
        old(properties).wf(),
    ensures
        final(properties).wf(),
        update == speed_update(
            *old(effect),
            old(properties)@,
            parsed_uuid(SPEED_MODIFIER_UUID@),
        ),
        speed_effect_starts(*old(effect), old(properties)@, parsed_uuid(SPEED_MODIFIER_UUID@))
            ==> *final(effect) == old(effect).started_at(now) && final(properties)@
            == with_speed_applied(old(properties)@, parsed_uuid(SPEED_MODIFIER_UUID@)->0),
        !speed_effect_starts(*old(effect), old(properties)@, parsed_uuid(SPEED_MODIFIER_UUID@))
            ==> *final(effect) == *old(effect) && final(properties)@ == old(properties)@,
{
    let id = speed_modifier_id();
    apply_speed_effect(effect, properties, now, id)
}

/// A speed effect starts once: a tick on an effect that has started does
/// nothing, whatever the identifier and the attributes.
pub proof fn lemma_speed_effect_starts_once(
    effect: SpeedEffect,
    now: u64,
    properties: SyncedModel,
    modifier_id: Option<u128>,
)
    ensures
        !effect.started_at(now).is_new(),
        speed_update(effect.started_at(now), properties, modifier_id) == SpeedUpdate::Idle,
        !speed_effect_starts(effect.started_at(now), properties, modifier_id),
{
}

/// Putting the speed modifier on an attribute that has it changes nothing:
/// the speed effects of an entity, one after the other, leave one modifier.
pub proof fn lemma_speed_modifier_idempotent(property: PropertyModel, id: u128)
    ensures
        with_speed_modifier(with_speed_modifier(property, id), id) == with_speed_modifier(
            property,
            id,
        ),
{
    crate::entityproperty::lemma_modifier_parts(
        speed_modifier(id),
        id,
        SPEED_MODIFIER_AMOUNT,
        ModifierOperation::Multiply,
    );
    crate::entityproperty::lemma_put_modifier_idempotent(property.modifiers, speed_modifier(id));
}

} // verus!
