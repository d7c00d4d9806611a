//! The catalog of status effects: a closed set of kinds, each with a stable
//! wire identifier and a stable text identifier.

use vstd::prelude::*;

verus! {

/// The number of status effect kinds.
pub const STATUS_EFFECT_COUNT: u8 = 32;

/// A kind of status effect.
///
/// The variants are listed in catalog order; the position of a variant in
/// this list is its [`index`](StatusEffect::index).
#[derive(Debug, Clone, Copy, PartialEq, Eq, Hash, Structural)]
pub enum StatusEffect {
    Speed,
    Slowness,
    Haste,
    MiningFatigue,
    Strength,
    InstantHealth,
    InstantDamage,
    JumpBoost,
    Nausea,
    Regeneration,
    Resistance,
    FireResistance,
    WaterBreathing,
    Invisibility,
    Blindness,
    NightVision,
    Hunger,
    Weakness,
    Poison,
    Wither,
    HealthBoost,
    Absorption,
    Saturation,
    Glowing,
    Levitation,
    Luck,
    BadLuck,
    SlowFalling,
    ConduitPower,
    DolphinsGrace,
    BadOmen,
    HeroOfTheVillage,
}

impl StatusEffect {
    /// The zero-based position of the kind in the catalog.
    pub open spec fn index(self) -> int {
        match self {
            StatusEffect::Speed => 0,
            StatusEffect::Slowness => 1,
            StatusEffect::Haste => 2,
            StatusEffect::MiningFatigue => 3,
            StatusEffect::Strength => 4,
            StatusEffect::InstantHealth => 5,
            StatusEffect::InstantDamage => 6,
            StatusEffect::JumpBoost => 7,
            StatusEffect::Nausea => 8,
            StatusEffect::Regeneration => 9,
            StatusEffect::Resistance => 10,
            StatusEffect::FireResistance => 11,
            StatusEffect::WaterBreathing => 12,
            StatusEffect::Invisibility => 13,
            StatusEffect::Blindness => 14,
            StatusEffect::NightVision => 15,
            StatusEffect::Hunger => 16,
            StatusEffect::Weakness => 17,
            StatusEffect::Poison => 18,
            StatusEffect::Wither => 19,
            StatusEffect::HealthBoost => 20,
            StatusEffect::Absorption => 21,
            StatusEffect::Saturation => 22,
            StatusEffect::Glowing => 23,
            StatusEffect::Levitation => 24,
            StatusEffect::Luck => 25,
            StatusEffect::BadLuck => 26,
            StatusEffect::SlowFalling => 27,
            StatusEffect::ConduitPower => 28,
            StatusEffect::DolphinsGrace => 29,
            StatusEffect::BadOmen => 30,
            StatusEffect::HeroOfTheVillage => 31,
        }
    }

    /// The kind at a catalog position, if the position is in the catalog.
    pub open spec fn at_index(i: int) -> Option<StatusEffect> {
        if i == 0 {
            Some(StatusEffect::Speed)
        } else if i == 1 {
            Some(StatusEffect::Slowness)
        } else if i == 2 {
            Some(StatusEffect::Haste)
        } else if i == 3 {
            Some(StatusEffect::MiningFatigue)
        } else if i == 4 {
            Some(StatusEffect::Strength)
        } else if i == 5 {
            Some(StatusEffect::InstantHealth)
        } else if i == 6 {
            Some(StatusEffect::InstantDamage)
        } else if i == 7 {
            Some(StatusEffect::JumpBoost)
        } else if i == 8 {
            Some(StatusEffect::Nausea)
        } else if i == 9 {
            Some(StatusEffect::Regeneration)
        } else if i == 10 {
            Some(StatusEffect::Resistance)
        } else if i == 11 {
            Some(StatusEffect::FireResistance)
        } else if i == 12 {
            Some(StatusEffect::WaterBreathing)
        } else if i == 13 {
            Some(StatusEffect::Invisibility)
        } else if i == 14 {
            Some(StatusEffect::Blindness)
        } else if i == 15 {
            Some(StatusEffect::NightVision)
        } else if i == 16 {
            Some(StatusEffect::Hunger)
        } else if i == 17 {
            Some(StatusEffect::Weakness)
        } else if i == 18 {
            Some(StatusEffect::Poison)
        } else if i == 19 {
            Some(StatusEffect::Wither)
        } else if i == 20 {
            Some(StatusEffect::HealthBoost)
        } else if i == 21 {
            Some(StatusEffect::Absorption)
        } else if i == 22 {
            Some(StatusEffect::Saturation)
        } else if i == 23 {
            Some(StatusEffect::Glowing)
        } else if i == 24 {
            Some(StatusEffect::Levitation)
        } else if i == 25 {
            Some(StatusEffect::Luck)
        } else if i == 26 {
            Some(StatusEffect::BadLuck)
        } else if i == 27 {
            Some(StatusEffect::SlowFalling)
        } else if i == 28 {
            Some(StatusEffect::ConduitPower)
        } else if i == 29 {
            Some(StatusEffect::DolphinsGrace)
        } else if i == 30 {
            Some(StatusEffect::BadOmen)
        } else if i == 31 {
            Some(StatusEffect::HeroOfTheVillage)
        } else {
            None
        }
    }

    /// The text identifier of the kind, as a sequence of characters.
    pub open spec fn identifier_text(self) -> Seq<char> {
        match self {
            StatusEffect::Speed => "speed"@,
            StatusEffect::Slowness => "slowness"@,
            StatusEffect::Haste => "haste"@,
            StatusEffect::MiningFatigue => "mining_fatigue"@,
            StatusEffect::Strength => "strength"@,
            StatusEffect::InstantHealth => "instant_health"@,
            StatusEffect::InstantDamage => "instant_damage"@,
            StatusEffect::JumpBoost => "jump_boost"@,
            StatusEffect::Nausea => "nausea"@,
            StatusEffect::Regeneration => "regeneration"@,
            StatusEffect::Resistance => "resistance"@,
            StatusEffect::FireResistance => "fire_resistance"@,
            StatusEffect::WaterBreathing => "water_breathing"@,
            StatusEffect::Invisibility => "invisibility"@,
            StatusEffect::Blindness => "blindness"@,
            StatusEffect::NightVision => "night_vision"@,
            StatusEffect::Hunger => "hunger"@,
            StatusEffect::Weakness => "weakness"@,
            StatusEffect::Poison => "poison"@,
            StatusEffect::Wither => "wither"@,
            StatusEffect::HealthBoost => "health_boost"@,
            StatusEffect::Absorption => "absorption"@,
            StatusEffect::Saturation => "saturation"@,
            StatusEffect::Glowing => "glowing"@,
            StatusEffect::Levitation => "levitation"@,
            StatusEffect::Luck => "luck"@,
            StatusEffect::BadLuck => "unluck"@,
            StatusEffect::SlowFalling => "slow_falling"@,
            StatusEffect::ConduitPower => "conduit_power"@,
            StatusEffect::DolphinsGrace => "dolphins_grace"@,
            StatusEffect::BadOmen => "bad_omen"@,
            StatusEffect::HeroOfTheVillage => "hero_of_the_village"@,
        }
    }

    /// The identifier of the kind on the wire: its catalog position plus
    /// one, so that zero is never sent.
    pub open spec fn wire_id(self) -> int {
        self.index() + 1
    }

    /// The kind that a wire identifier names, if it names one.
    pub open spec fn from_wire_id(id: int) -> Option<StatusEffect> {
        StatusEffect::at_index(id - 1)
    }

    /// The identifier of the kind on the wire.
    pub fn protocol_id(self) -> (id: i8)
        ensures
            id == self.wire_id(),
            1 <= id <= STATUS_EFFECT_COUNT,
    {
        match self {
            StatusEffect::Speed => 1,
            StatusEffect::Slowness => 2,
            StatusEffect::Haste => 3,
            StatusEffect::MiningFatigue => 4,
            StatusEffect::Strength => 5,
            StatusEffect::InstantHealth => 6,
            StatusEffect::InstantDamage => 7,
            StatusEffect::JumpBoost => 8,
            StatusEffect::Nausea => 9,
            StatusEffect::Regeneration => 10,
            StatusEffect::Resistance => 11,
            StatusEffect::FireResistance => 12,
            StatusEffect::WaterBreathing => 13,
            StatusEffect::Invisibility => 14,
            StatusEffect::Blindness => 15,
            StatusEffect::NightVision => 16,
            StatusEffect::Hunger => 17,
            StatusEffect::Weakness => 18,
            StatusEffect::Poison => 19,
            StatusEffect::Wither => 20,
            StatusEffect::HealthBoost => 21,
            StatusEffect::Absorption => 22,
            StatusEffect::Saturation => 23,
            StatusEffect::Glowing => 24,
            StatusEffect::Levitation => 25,
            StatusEffect::Luck => 26,
            StatusEffect::BadLuck => 27,
            StatusEffect::SlowFalling => 28,
            StatusEffect::ConduitPower => 29,
            StatusEffect::DolphinsGrace => 30,
            StatusEffect::BadOmen => 31,
            StatusEffect::HeroOfTheVillage => 32,
        }
    }

    /// The kind with a given wire identifier. Identifiers outside
    /// `1..=32` name no kind.
    pub fn from_protocol_id(id: i8) -> (kind: Option<StatusEffect>)
        ensures
            kind == StatusEffect::from_wire_id(id as int),
            kind is Some <==> 1 <= id <= STATUS_EFFECT_COUNT,
    {
        match id {
            1 => Some(StatusEffect::Speed),
            2 => Some(StatusEffect::Slowness),
            3 => Some(StatusEffect::Haste),
            4 => Some(StatusEffect::MiningFatigue),
            5 => Some(StatusEffect::Strength),
            6 => Some(StatusEffect::InstantHealth),
            7 => Some(StatusEffect::InstantDamage),
            8 => Some(StatusEffect::JumpBoost),
            9 => Some(StatusEffect::Nausea),
            10 => Some(StatusEffect::Regeneration),
            11 => Some(StatusEffect::Resistance),
            12 => Some(StatusEffect::FireResistance),
            13 => Some(StatusEffect::WaterBreathing),
            14 => Some(StatusEffect::Invisibility),
            15 => Some(StatusEffect::Blindness),
            16 => Some(StatusEffect::NightVision),
            17 => Some(StatusEffect::Hunger),
            18 => Some(StatusEffect::Weakness),
            19 => Some(StatusEffect::Poison),
            20 => Some(StatusEffect::Wither),
            21 => Some(StatusEffect::HealthBoost),
            22 => Some(StatusEffect::Absorption),
            23 => Some(StatusEffect::Saturation),
            24 => Some(StatusEffect::Glowing),
            25 => Some(StatusEffect::Levitation),
            26 => Some(StatusEffect::Luck),
            27 => Some(StatusEffect::BadLuck),
            28 => Some(StatusEffect::SlowFalling),
            29 => Some(StatusEffect::ConduitPower),
            30 => Some(StatusEffect::DolphinsGrace),
            31 => Some(StatusEffect::BadOmen),
            32 => Some(StatusEffect::HeroOfTheVillage),
            _ => None,
        }
    }

    /// The lowercase snake-case text identifier of the kind.
    pub fn identifier(self) -> (text: &'static str)
        ensures
            text@ == self.identifier_text(),
    {
        match self {
            StatusEffect::Speed => "speed",
            StatusEffect::Slowness => "slowness",
            StatusEffect::Haste => "haste",
            StatusEffect::MiningFatigue => "mining_fatigue",
            StatusEffect::Strength => "strength",
            StatusEffect::InstantHealth => "instant_health",
            StatusEffect::InstantDamage => "instant_damage",
            StatusEffect::JumpBoost => "jump_boost",
            StatusEffect::Nausea => "nausea",
            StatusEffect::Regeneration => "regeneration",
            StatusEffect::Resistance => "resistance",
            StatusEffect::FireResistance => "fire_resistance",
            StatusEffect::WaterBreathing => "water_breathing",
            StatusEffect::Invisibility => "invisibility",
            StatusEffect::Blindness => "blindness",
            StatusEffect::NightVision => "night_vision",
            StatusEffect::Hunger => "hunger",
            StatusEffect::Weakness => "weakness",
            StatusEffect::Poison => "poison",
            StatusEffect::Wither => "wither",
            StatusEffect::HealthBoost => "health_boost",
            StatusEffect::Absorption => "absorption",
            StatusEffect::Saturation => "saturation",
            StatusEffect::Glowing => "glowing",
            StatusEffect::Levitation => "levitation",
            StatusEffect::Luck => "luck",
            StatusEffect::BadLuck => "unluck",
            StatusEffect::SlowFalling => "slow_falling",
            StatusEffect::ConduitPower => "conduit_power",
            StatusEffect::DolphinsGrace => "dolphins_grace",
            StatusEffect::BadOmen => "bad_omen",
            StatusEffect::HeroOfTheVillage => "hero_of_the_village",
        }
    }
}

/// The catalog position of every kind lies in `0..32`, and looking the
/// position up gives the kind back.
pub proof fn lemma_index_in_catalog(kind: StatusEffect)
    ensures
        0 <= kind.index() < STATUS_EFFECT_COUNT,
        StatusEffect::at_index(kind.index()) == Some(kind),
{
}

/// Every position in `0..32` holds a kind with that position, and no other
/// position holds one.
pub proof fn lemma_at_index_total(i: int)
    ensures
        StatusEffect::at_index(i) is Some <==> 0 <= i < STATUS_EFFECT_COUNT,
        StatusEffect::at_index(i) matches Some(k) ==> k.index() == i,
{
}

/// Decoding the wire identifier of a kind gives the kind back.
pub proof fn lemma_wire_id_round_trip(kind: StatusEffect)
    ensures
        StatusEffect::from_wire_id(kind.wire_id()) == Some(kind),
{
}

/// A wire identifier names a kind exactly when it lies in `1..=32`, and the
/// kind it names has that identifier: with the round trip above, the wire
/// mapping is a bijection between the kinds and `1..=32`.
pub proof fn lemma_from_wire_id(id: int)
    ensures
        StatusEffect::from_wire_id(id) is Some <==> 1 <= id <= STATUS_EFFECT_COUNT,
        StatusEffect::from_wire_id(id) matches Some(k) ==> k.wire_id() == id,
{
}

/// Two kinds with the same catalog position are the same kind.
pub proof fn lemma_index_injective(a: StatusEffect, b: StatusEffect)
    requires
        a.index() == b.index(),
    ensures
        a == b,
{
}

/// Whether a character may occur in a text identifier: a lowercase ASCII
/// letter or an underscore.
pub open spec fn is_identifier_char(c: char) -> bool {
    ('a' <= c && c <= 'z') || c == '_'
}

/// Every text identifier is non-empty lowercase snake case.
pub proof fn lemma_identifier_snake_case(kind: StatusEffect)
    ensures
        kind.identifier_text().len() > 0,
        forall|i: int|
            0 <= i < kind.identifier_text().len() ==> is_identifier_char(
                #[trigger] kind.identifier_text()[i],
            ),
{
    reveal_strlit("speed");
    reveal_strlit("slowness");
    reveal_strlit("haste");
    reveal_strlit("mining_fatigue");
    reveal_strlit("strength");
    reveal_strlit("instant_health");
    reveal_strlit("instant_damage");
    reveal_strlit("jump_boost");
    reveal_strlit("nausea");
    reveal_strlit("regeneration");
    reveal_strlit("resistance");
    reveal_strlit("fire_resistance");
    reveal_strlit("water_breathing");
    reveal_strlit("invisibility");
    reveal_strlit("blindness");
    reveal_strlit("night_vision");
    reveal_strlit("hunger");
    reveal_strlit("weakness");
    reveal_strlit("poison");
    reveal_strlit("wither");
    reveal_strlit("health_boost");
    reveal_strlit("absorption");
    reveal_strlit("saturation");
    reveal_strlit("glowing");
    reveal_strlit("levitation");
    reveal_strlit("luck");
    reveal_strlit("unluck");
    reveal_strlit("slow_falling");
    reveal_strlit("conduit_power");
    reveal_strlit("dolphins_grace");
    reveal_strlit("bad_omen");
    reveal_strlit("hero_of_the_village");
}

/// Two kinds with the same text identifier are the same kind.
pub proof fn lemma_identifier_injective(a: StatusEffect, b: StatusEffect)
    requires
        a.identifier_text() == b.identifier_text(),
    ensures
        a == b,
{
    reveal_strlit("speed");
    reveal_strlit("slowness");
    reveal_strlit("haste");
    reveal_strlit("mining_fatigue");
    reveal_strlit("strength");
    reveal_strlit("instant_health");
    reveal_strlit("instant_damage");
    reveal_strlit("jump_boost");
    reveal_strlit("nausea");
    reveal_strlit("regeneration");
    reveal_strlit("resistance");
    reveal_strlit("fire_resistance");
    reveal_strlit("water_breathing");
    reveal_strlit("invisibility");
    reveal_strlit("blindness");
    reveal_strlit("night_vision");
    reveal_strlit("hunger");
    reveal_strlit("weakness");
    reveal_strlit("poison");
    reveal_strlit("wither");
    reveal_strlit("health_boost");
    reveal_strlit("absorption");
    reveal_strlit("saturation");
    reveal_strlit("glowing");
    reveal_strlit("levitation");
    reveal_strlit("luck");
    reveal_strlit("unluck");
    reveal_strlit("slow_falling");
    reveal_strlit("conduit_power");
    reveal_strlit("dolphins_grace");
    reveal_strlit("bad_omen");
    reveal_strlit("hero_of_the_village");
    let s = a.identifier_text();
    let t = b.identifier_text();
    assert(s.len() == t.len());
    assert(s[1] == t[1]);
    assert(s.len() > 8 ==> s[8] == t[8]);
}

} // verus!
