//! The attributes of an entity on the wire.
//!
//! A set of attributes is its number of attributes as a signed 32-bit
//! number, then each attribute in the ascending order of the names: the
//! name as a string, the base value as a 64-bit pattern, the number of
//! modifiers as a variable-length integer, and the modifiers. A modifier is
//! its 128-bit identifier, its amount as a 64-bit pattern, and the code of
//! its operation as a signed byte.

use vstd::prelude::*;
use vstd::string::StringSliceAdditionalSpecFns;
use vstd::utf8::encode_utf8;
use crate::entityproperty::entries_put;
use crate::entityproperty::has_name;
use crate::entityproperty::lemma_entries_put;
use crate::entityproperty::lemma_rank_at;
use crate::entityproperty::names_ascending;
use crate::entityproperty::EntityProperties;
use crate::entityproperty::EntityProperty;
use crate::entityproperty::EntryModel;
use crate::entityproperty::ModifierOperation;
use crate::entityproperty::PropertyModel;
use crate::entityproperty::PropertyModifier;
use crate::name::lemma_name_before_total;
use crate::wire::i32_bytes;
use crate::wire::i8_bytes;
use crate::wire::lemma_parse_fixed_values;
use crate::wire::lemma_parse_string;
use crate::wire::lemma_parse_var_int;
use crate::wire::parse_i32;
use crate::wire::parse_i8;
use crate::wire::parse_string;
use crate::wire::parse_u128;
use crate::wire::parse_u64;
use crate::wire::parse_var_int;
use crate::wire::push_i32;
use crate::wire::push_i8;
use crate::wire::push_string;
use crate::wire::push_u64;
use crate::wire::push_uuid;
use crate::wire::push_var_int;
use crate::wire::string_bytes;
use crate::wire::u128_bytes;
use crate::wire::u64_bytes;
use crate::wire::var_int_bytes;
use crate::wire::ByteReader;
use crate::wire::MalformedPacket;
use crate::wire::Parsed;

verus! {

/// The items of a sequence on the wire, one after the other, each laid out
/// by `layout`.
pub open spec fn concat_bytes<T>(items: Seq<T>, layout: spec_fn(T) -> Seq<u8>) -> Seq<u8>
    decreases items.len(),
{
    if items.len() == 0 {
        Seq::empty()
    } else {
        concat_bytes(items.drop_last(), layout) + layout(items.last())
    }
}

/// Reads `count` items one after the other, each by `parse_one`. The first
/// item that cannot be read gives the error.
pub open spec fn parse_many<T>(
    bytes: Seq<u8>,
    count: nat,
    parse_one: spec_fn(Seq<u8>) -> Parsed<T>,
) -> Parsed<Seq<T>>
    decreases count,
{
    if count == 0 {
        Ok((Seq::empty(), 0))
    } else {
        match parse_one(bytes) {
            Ok((first, used)) => prepend(
                seq![first],
                used,
                parse_many(bytes.skip(used as int), (count - 1) as nat, parse_one),
            ),
            Err(e) => Err(e),
        }
    }
}

/// What a read gives after `items` were read from `used` bytes before it.
pub open spec fn prepend<T>(items: Seq<T>, used: nat, parsed: Parsed<Seq<T>>) -> Parsed<Seq<T>> {
    match parsed {
        Ok((rest, more)) => Ok((items + rest, used + more)),
        Err(e) => Err(e),
    }
}

/// Laying out a sequence with one more item at its front puts the bytes of
/// that item at the front.
pub proof fn lemma_concat_bytes_front<T>(first: T, rest: Seq<T>, layout: spec_fn(T) -> Seq<u8>)
    ensures
        concat_bytes(seq![first] + rest, layout) == layout(first) + concat_bytes(rest, layout),
    decreases rest.len(),
{
    let all = seq![first] + rest;
    if rest.len() == 0 {
        assert(all.drop_last() =~= rest);
        assert(all.last() == first);
        assert(concat_bytes(rest, layout) =~= Seq::<u8>::empty());
        assert(concat_bytes(all, layout) == concat_bytes(all.drop_last(), layout) + layout(
            all.last(),
        ));
        assert(concat_bytes(all, layout) =~= layout(first) + concat_bytes(rest, layout));
    } else {
        lemma_concat_bytes_front(first, rest.drop_last(), layout);
        assert(all.drop_last() =~= seq![first] + rest.drop_last());
        assert(all.last() == rest.last());
        assert(concat_bytes(all, layout) =~= layout(first) + concat_bytes(rest, layout));
    }
}

/// Where every item of a sequence, laid out with anything after it, reads
/// back as itself, the sequence laid out with anything after it reads back
/// as itself.
pub proof fn lemma_parse_many<T>(
    items: Seq<T>,
    layout: spec_fn(T) -> Seq<u8>,
    parse_one: spec_fn(Seq<u8>) -> Parsed<T>,
    rest: Seq<u8>,
)
    requires
        forall|i: int, after: Seq<u8>|
            0 <= i < items.len() ==> #[trigger] parse_one(layout(items[i]) + after) == Ok::<
                (T, nat),
                MalformedPacket,
            >((items[i], layout(items[i]).len())),
    ensures
        parse_many(concat_bytes(items, layout) + rest, items.len(), parse_one) == Ok::<
            (Seq<T>, nat),
            MalformedPacket,
        >((items, concat_bytes(items, layout).len())),
    decreases items.len(),
{
    if items.len() == 0 {
        assert(concat_bytes(items, layout) =~= Seq::<u8>::empty());
        assert(items =~= Seq::<T>::empty());
    } else {
        let first = items[0];
        let tail = items.drop_first();
        assert(items =~= seq![first] + tail);
        lemma_concat_bytes_front(first, tail, layout);
        let after = concat_bytes(tail, layout) + rest;
        let bytes = concat_bytes(items, layout) + rest;
        assert(bytes =~= layout(first) + after);
        assert(parse_one(layout(items[0]) + after) == Ok::<(T, nat), MalformedPacket>(
            (first, layout(first).len()),
        ));
        assert(bytes.skip(layout(first).len() as int) =~= after);
        assert forall|i: int, after: Seq<u8>| 0 <= i < tail.len() implies #[trigger] parse_one(
            layout(tail[i]) + after,
        ) == Ok::<(T, nat), MalformedPacket>((tail[i], layout(tail[i]).len())) by {
            assert(tail[i] == items[i + 1]);
        }
        lemma_parse_many(tail, layout, parse_one, rest);
        assert(parse_many(after, tail.len(), parse_one) == Ok::<(Seq<T>, nat), MalformedPacket>(
            (tail, concat_bytes(tail, layout).len()),
        ));
        assert(parse_many(bytes, items.len(), parse_one) == prepend(
            seq![first],
            layout(first).len(),
            parse_many(after, (items.len() - 1) as nat, parse_one),
        ));
    }
}

/// Reading many items begins with no item read.
proof fn lemma_parse_many_begin<T>(
    bytes: Seq<u8>,
    count: nat,
    parse_one: spec_fn(Seq<u8>) -> Parsed<T>,
)
    ensures
        parse_many(bytes, count, parse_one) == prepend(
            Seq::empty(),
            0,
            parse_many(bytes.skip(0), count, parse_one),
        ),
{
    assert(bytes.skip(0) =~= bytes);
    if let Ok((items, used)) = parse_many(bytes, count, parse_one) {
        assert(Seq::<T>::empty() + items =~= items);
    }
}

/// Reading many items goes on with the next item: where it cannot be read,
/// the whole read fails with its error, and else it counts as read.
proof fn lemma_parse_many_next<T>(
    bytes: Seq<u8>,
    count: nat,
    parse_one: spec_fn(Seq<u8>) -> Parsed<T>,
    read: Seq<T>,
    used: nat,
    left: nat,
)
    requires
        left > 0,
        used <= bytes.len(),
        parse_many(bytes, count, parse_one) == prepend(
            read,
            used,
            parse_many(bytes.skip(used as int), left, parse_one),
        ),
    ensures
        match parse_one(bytes.skip(used as int)) {
            Err(e) => parse_many(bytes, count, parse_one) == Err::<(Seq<T>, nat), MalformedPacket>(
                e,
            ),
            Ok((item, took)) => used + took <= bytes.len() ==> parse_many(bytes, count, parse_one)
                == prepend(
                read.push(item),
                used + took,
                parse_many(bytes.skip((used + took) as int), (left - 1) as nat, parse_one),
            ),
        },
{
    if let Ok((item, took)) = parse_one(bytes.skip(used as int)) {
        if used + took <= bytes.len() {
            assert(bytes.skip(used as int).skip(took as int) =~= bytes.skip((used + took) as int));
            let rest = parse_many(
                bytes.skip((used + took) as int),
                (left - 1) as nat,
                parse_one,
            );
            if let Ok((more, n)) = rest {
                assert(read + (seq![item] + more) =~= read.push(item) + more);
            }
        }
    }
}

/// Reading many items ends when none is left to read.
proof fn lemma_parse_many_end<T>(
    bytes: Seq<u8>,
    count: nat,
    parse_one: spec_fn(Seq<u8>) -> Parsed<T>,
    read: Seq<T>,
    used: nat,
)
    requires
        parse_many(bytes, count, parse_one) == prepend(
            read,
            used,
            parse_many(bytes.skip(used as int), 0, parse_one),
        ),
    ensures
        parse_many(bytes, count, parse_one) == Ok::<(Seq<T>, nat), MalformedPacket>((read, used)),
{
    assert(read + Seq::<T>::empty() =~= read);
}

/// A modifier on the wire.
pub open spec fn modifier_bytes(modifier: PropertyModifier) -> Seq<u8> {
    u128_bytes(modifier.uuid()) + u64_bytes(modifier.amount()) + i8_bytes(
        modifier.operation().wire_code() as i8,
    )
}

/// Reads a modifier. A code that stands for no operation is an error.
pub open spec fn parse_modifier(bytes: Seq<u8>) -> Parsed<PropertyModifier> {
    match parse_u128(bytes) {
        Err(e) => Err(e),
        Ok((uuid, a)) => match parse_u64(bytes.skip(a as int)) {
            Err(e) => Err(e),
            Ok((amount, b)) => match parse_i8(bytes.skip((a + b) as int)) {
                Err(e) => Err(e),
                Ok((code, c)) => match ModifierOperation::from_wire_code(code as int) {
                    None => Err(MalformedPacket::UnknownOperation(code)),
                    Some(operation) => Ok(
                        (PropertyModifier::with_parts(uuid, amount, operation), a + b + c),
                    ),
                },
            },
        },
    }
}

/// The layout of a modifier, as a function.
pub open spec fn modifier_layout() -> spec_fn(PropertyModifier) -> Seq<u8> {
    |modifier: PropertyModifier| modifier_bytes(modifier)
}

/// The reading of a modifier, as a function.
pub open spec fn modifier_parser() -> spec_fn(Seq<u8>) -> Parsed<PropertyModifier> {
    |bytes: Seq<u8>| parse_modifier(bytes)
}

/// The number of items that a count on the wire announces: a negative
/// count announces none.
pub open spec fn announced(count: i32) -> nat {
    if count < 0 {
        0
    } else {
        count as nat
    }
}

/// An attribute on the wire.
pub open spec fn property_bytes(property: PropertyModel) -> Seq<u8> {
    u64_bytes(property.base_value) + var_int_bytes(property.modifiers.len() as i32) + concat_bytes(
        property.modifiers,
        modifier_layout(),
    )
}

/// Reads an attribute.
pub open spec fn parse_property(bytes: Seq<u8>) -> Parsed<PropertyModel> {
    match parse_u64(bytes) {
        Err(e) => Err(e),
        Ok((base_value, a)) => match parse_var_int(bytes.skip(a as int)) {
            Err(e) => Err(e),
            Ok((count, b)) => match parse_many(
                bytes.skip((a + b) as int),
                announced(count),
                modifier_parser(),
            ) {
                Err(e) => Err(e),
                Ok((modifiers, c)) => Ok((PropertyModel { base_value, modifiers }, a + b + c)),
            },
        },
    }
}

/// A named attribute on the wire.
pub open spec fn entry_bytes(entry: EntryModel) -> Seq<u8> {
    string_bytes(entry.name) + property_bytes(entry.property)
}

/// Reads a named attribute.
pub open spec fn parse_entry(bytes: Seq<u8>) -> Parsed<EntryModel> {
    match parse_string(bytes) {
        Err(e) => Err(e),
        Ok((name, a)) => match parse_property(bytes.skip(a as int)) {
            Err(e) => Err(e),
            Ok((property, b)) => Ok((EntryModel { name, property }, a + b)),
        },
    }
}

/// The layout of a named attribute, as a function.
pub open spec fn entry_layout() -> spec_fn(EntryModel) -> Seq<u8> {
    |entry: EntryModel| entry_bytes(entry)
}

/// The reading of a named attribute, as a function.
pub open spec fn entry_parser() -> spec_fn(Seq<u8>) -> Parsed<EntryModel> {
    |bytes: Seq<u8>| parse_entry(bytes)
}

/// The set that holds the named attributes of a sequence, each put into it
/// in turn: of two attributes with one name the later one stays.
pub open spec fn collected(entries: Seq<EntryModel>) -> Seq<EntryModel>
    decreases entries.len(),
{
    if entries.len() == 0 {
        Seq::empty()
    } else {
        entries_put(collected(entries.drop_last()), entries.last())
    }
}

/// A set of attributes on the wire.
pub open spec fn properties_bytes(entries: Seq<EntryModel>) -> Seq<u8> {
    i32_bytes(entries.len() as i32) + concat_bytes(entries, entry_layout())
}

/// Reads a set of attributes.
pub open spec fn parse_properties(bytes: Seq<u8>) -> Parsed<Seq<EntryModel>> {
    match parse_i32(bytes) {
        Err(e) => Err(e),
        Ok((count, a)) => match parse_many(bytes.skip(a as int), announced(count), entry_parser()) {
            Err(e) => Err(e),
            Ok((entries, b)) => Ok((collected(entries), a + b)),
        },
    }
}

/// Whether an attribute can go on the wire: a signed 32-bit number counts
/// its modifiers.
pub open spec fn property_fits_wire(property: PropertyModel) -> bool {
    property.modifiers.len() <= i32::MAX
}

/// Whether a set of attributes can go on the wire: signed 32-bit numbers
/// count its attributes, the UTF-8 bytes of each name, and the modifiers of
/// each attribute.
pub open spec fn fits_wire(entries: Seq<EntryModel>) -> bool {
    &&& entries.len() <= i32::MAX
    &&& forall|i: int|
        0 <= i < entries.len() ==> encode_utf8((#[trigger] entries[i]).name).len() <= i32::MAX
            && property_fits_wire(entries[i].property)
}

/// A modifier on the wire takes 25 bytes, and with anything after it reads
/// back as itself.
pub proof fn lemma_parse_modifier(modifier: PropertyModifier, rest: Seq<u8>)
    ensures
        modifier_bytes(modifier).len() == 25,
        parse_modifier(modifier_bytes(modifier) + rest) == Ok::<
            (PropertyModifier, nat),
            MalformedPacket,
        >((modifier, 25)),
{
    let code = modifier.operation().wire_code() as i8;
    let after_uuid = u64_bytes(modifier.amount()) + i8_bytes(code) + rest;
    let after_amount = i8_bytes(code) + rest;
    let bytes = modifier_bytes(modifier) + rest;
    lemma_parse_fixed_values(code, 0, modifier.amount(), modifier.uuid(), after_uuid);
    lemma_parse_fixed_values(code, 0, modifier.amount(), modifier.uuid(), after_amount);
    lemma_parse_fixed_values(code, 0, modifier.amount(), modifier.uuid(), rest);
    assert(bytes =~= u128_bytes(modifier.uuid()) + after_uuid);
    assert(bytes.skip(16) =~= after_uuid);
    assert(after_uuid =~= u64_bytes(modifier.amount()) + after_amount);
    assert(bytes.skip(24) =~= after_amount);
    crate::entityproperty::lemma_modifier_parts(
        modifier,
        modifier.uuid(),
        modifier.amount(),
        modifier.operation(),
    );
}

/// An attribute that fits the wire, with anything after it, reads back as
/// itself.
pub proof fn lemma_parse_property(property: PropertyModel, rest: Seq<u8>)
    requires
        property_fits_wire(property),
    ensures
        parse_property(property_bytes(property) + rest) == Ok::<
            (PropertyModel, nat),
            MalformedPacket,
        >((property, property_bytes(property).len())),
{
    let count = property.modifiers.len() as i32;
    let list = concat_bytes(property.modifiers, modifier_layout());
    let after_base = var_int_bytes(count) + list + rest;
    let after_count = list + rest;
    let bytes = property_bytes(property) + rest;
    lemma_parse_fixed_values(0, 0, property.base_value, 0, after_base);
    lemma_parse_var_int(count, after_count);
    assert(bytes =~= u64_bytes(property.base_value) + after_base);
    assert(bytes.skip(8) =~= after_base);
    assert(after_base =~= var_int_bytes(count) + after_count);
    assert(bytes.skip((8 + var_int_bytes(count).len()) as int) =~= after_count);
    assert forall|i: int, after: Seq<u8>|
        0 <= i < property.modifiers.len() implies #[trigger] modifier_parser()(
        modifier_layout()(property.modifiers[i]) + after,
    ) == Ok::<(PropertyModifier, nat), MalformedPacket>(
        (property.modifiers[i], modifier_layout()(property.modifiers[i]).len()),
    ) by {
        lemma_parse_modifier(property.modifiers[i], after);
    }
    lemma_parse_many(property.modifiers, modifier_layout(), modifier_parser(), rest);
}

/// A named attribute that fits the wire, with anything after it, reads back
/// as itself.
pub proof fn lemma_parse_entry(entry: EntryModel, rest: Seq<u8>)
    requires
        encode_utf8(entry.name).len() <= i32::MAX,
        property_fits_wire(entry.property),
    ensures
        parse_entry(entry_bytes(entry) + rest) == Ok::<(EntryModel, nat), MalformedPacket>(
            (entry, entry_bytes(entry).len()),
        ),
{
    let after_name = property_bytes(entry.property) + rest;
    let bytes = entry_bytes(entry) + rest;
    lemma_parse_string(entry.name, after_name);
    lemma_parse_property(entry.property, rest);
    assert(bytes =~= string_bytes(entry.name) + after_name);
    assert(bytes.skip(string_bytes(entry.name).len() as int) =~= after_name);
}

/// Putting the attributes of a set into an empty set, in the ascending
/// order of their names, gives the set.
pub proof fn lemma_collected_of_ascending(entries: Seq<EntryModel>)
    requires
        names_ascending(entries),
    ensures
        collected(entries) == entries,
    decreases entries.len(),
{
    if entries.len() > 0 {
        let front = entries.drop_last();
        let last = entries.last();
        lemma_collected_of_ascending(front);
        assert forall|j: int| 0 <= j < front.len() implies crate::name::name_before(
            (#[trigger] front[j]).name,
            last.name,
        ) by {
            assert(front[j] == entries[j]);
        }
        if has_name(front, last.name) {
            let p = crate::entityproperty::place_of_name(front, last.name);
            lemma_name_before_total(front[p].name, last.name);
        }
        lemma_rank_at(front, last.name, front.len() as int);
        assert(front.insert(front.len() as int, last) =~= entries);
    }
}

/// Whatever is put together from named attributes is a set: its names go
/// up strictly.
pub proof fn lemma_collected_ascending(entries: Seq<EntryModel>)
    ensures
        names_ascending(collected(entries)),
    decreases entries.len(),
{
    if entries.len() > 0 {
        lemma_collected_ascending(entries.drop_last());
        lemma_entries_put(collected(entries.drop_last()), entries.last());
    }
}

/// A set of attributes that fits the wire, with anything after it, reads
/// back as itself: reading is the inverse of laying out.
pub proof fn lemma_parse_properties(entries: Seq<EntryModel>, rest: Seq<u8>)
    requires
        names_ascending(entries),
        fits_wire(entries),
    ensures
        parse_properties(properties_bytes(entries) + rest) == Ok::<
            (Seq<EntryModel>, nat),
            MalformedPacket,
        >((entries, properties_bytes(entries).len())),
{
    let count = entries.len() as i32;
    let list = concat_bytes(entries, entry_layout());
    let after_count = list + rest;
    let bytes = properties_bytes(entries) + rest;
    lemma_parse_fixed_values(0, count, 0, 0, after_count);
    assert(bytes =~= i32_bytes(count) + after_count);
    assert(bytes.skip(4) =~= after_count);
    assert forall|i: int, after: Seq<u8>| 0 <= i < entries.len() implies #[trigger] entry_parser()(
        entry_layout()(entries[i]) + after,
    ) == Ok::<(EntryModel, nat), MalformedPacket>(
        (entries[i], entry_layout()(entries[i]).len()),
    ) by {
        lemma_parse_entry(entries[i], after);
    }
    lemma_parse_many(entries, entry_layout(), entry_parser(), rest);
    lemma_collected_of_ascending(entries);
}

/// Laying out what was read from the bytes of a set gives those bytes
/// again: bytes that a set was laid out in come back byte for byte.
pub proof fn lemma_properties_bytes_round_trip(entries: Seq<EntryModel>)
    requires
        names_ascending(entries),
        fits_wire(entries),
    ensures
        parse_properties(properties_bytes(entries)) matches Ok((read, used)) && properties_bytes(
            read,
        ) == properties_bytes(entries) && used == properties_bytes(entries).len(),
{
    lemma_parse_properties(entries, Seq::empty());
    assert(properties_bytes(entries) + Seq::<u8>::empty() =~= properties_bytes(entries));
}

/// Whether a read of a value with a view went as `parsed` says: on success
/// a value with the view that was read is handed out and the bytes it took
/// are gone from the front, and on failure the error is handed out and no
/// byte is gone.
pub open spec fn read_view_as<T: View>(
    before: Seq<u8>,
    after: Seq<u8>,
    result: Result<T, MalformedPacket>,
    parsed: Parsed<T::V>,
) -> bool {
    match parsed {
        Ok((value, used)) => result matches Ok(got) && got@ == value && used <= before.len()
            && after == before.skip(used as int),
        Err(e) => result matches Err(found) && found == e && after == before,
    }
}

/// Whether an attribute can go on the wire.
pub fn property_is_encodable(property: &EntityProperty) -> (r: bool)
    ensures
        r == property_fits_wire(property@),
{
    property.modifiers().len() <= 0x7fff_ffff
}

/// Whether a set of attributes can go on the wire.
pub fn is_encodable(properties: &EntityProperties) -> (r: bool)
    ensures
        r == fits_wire(properties@),
{
    if properties.len() > 0x7fff_ffff {
        return false;
    }
    let mut i: usize = 0;
    while i < properties.len()
        invariant
            i <= properties@.len(),
            forall|j: int|
                0 <= j < i ==> encode_utf8((#[trigger] properties@[j]).name).len() <= i32::MAX
                    && property_fits_wire(properties@[j].property),
        decreases properties@.len() - i,
    {
        if properties.name_at(i).as_bytes().len() > 0x7fff_ffff || !property_is_encodable(
            properties.property_at(i),
        ) {
            return false;
        }
        i = i + 1;
    }
    true
}

/// A sink of bytes that attributes can be written to.
pub trait EntityPropertyWrite {
    /// The bytes written so far.
    spec fn output(&self) -> Seq<u8>;

    /// Writes a set of attributes.
    fn push_properties(&mut self, properties: &EntityProperties)
        requires
            fits_wire(properties@),
        ensures
            final(self).output() == old(self).output() + properties_bytes(properties@),
    ;

    /// Writes an attribute.
    fn push_property(&mut self, property: &EntityProperty)
        requires
            property_fits_wire(property@),
        ensures
            final(self).output() == old(self).output() + property_bytes(property@),
    ;

    /// Writes a modifier.
    fn push_modifier(&mut self, modifier: &PropertyModifier)
        ensures
            final(self).output() == old(self).output() + modifier_bytes(*modifier),
    ;
}

impl EntityPropertyWrite for Vec<u8> {
    open spec fn output(&self) -> Seq<u8> {
        self@
    }

    fn push_properties(&mut self, properties: &EntityProperties) {
        push_i32(self, properties.len() as i32);
        let ghost head = self@;
        let mut i: usize = 0;
        while i < properties.len()
            invariant
                i <= properties@.len(),
                fits_wire(properties@),
                self@ == head + concat_bytes(properties@.take(i as int), entry_layout()),
            decreases properties@.len() - i,
        {
            let ghost before = self@;
            push_string(self, properties.name_at(i));
            self.push_property(properties.property_at(i));
            proof {
                let entry = properties@[i as int];
                assert(properties@.take(i + 1).drop_last() =~= properties@.take(i as int));
                assert(self@ =~= before + entry_bytes(entry));
                assert(head + concat_bytes(properties@.take(i + 1), entry_layout()) =~= before
                    + entry_bytes(entry));
            }
            i = i + 1;
        }
        proof {
            assert(properties@.take(i as int) =~= properties@);
            assert(old(self)@ + properties_bytes(properties@) =~= head + concat_bytes(
                properties@,
                entry_layout(),
            ));
        }
    }

    fn push_property(&mut self, property: &EntityProperty) {
        push_u64(self, property.base_value());
        let modifiers = property.modifiers();
        push_var_int(self, modifiers.len() as i32);
        let ghost head = self@;
        let mut i: usize = 0;
        while i < modifiers.len()
            invariant
                i <= modifiers@.len(),
                self@ == head + concat_bytes(modifiers@.take(i as int), modifier_layout()),
            decreases modifiers@.len() - i,
        {
            let ghost before = self@;
            self.push_modifier(&modifiers[i]);
            proof {
                assert(modifiers@.take(i + 1).drop_last() =~= modifiers@.take(i as int));
                assert(head + concat_bytes(modifiers@.take(i + 1), modifier_layout()) =~= before
                    + modifier_bytes(modifiers@[i as int]));
            }
            i = i + 1;
        }
        proof {
            assert(modifiers@.take(i as int) =~= modifiers@);
            assert(old(self)@ + property_bytes(property@) =~= head + concat_bytes(
                modifiers@,
                modifier_layout(),
            ));
        }
    }

    fn push_modifier(&mut self, modifier: &PropertyModifier) {
        push_uuid(self, modifier.uuid());
        push_u64(self, modifier.amount());
        push_i8(self, modifier.operation().to_protocol());
        proof {
            assert(self@ =~= old(self)@ + modifier_bytes(*modifier));
        }
    }
}

/// A source of bytes that attributes can be read from.
///
/// A read that fails takes no byte from the source.
pub trait EntityPropertyRead {
    /// The bytes that are still to be read.
    spec fn input(&self) -> Seq<u8>;

    /// Reads a set of attributes. Of two attributes with one name the later
    /// one stays.
    fn try_get_properties(&mut self) -> (r: Result<EntityProperties, MalformedPacket>)
        ensures
            read_view_as(
                old(self).input(),
                final(self).input(),
                r,
                parse_properties(old(self).input()),
            ),
            r matches Ok(properties) ==> properties.wf(),
    ;

    /// Reads an attribute.
    fn try_get_property(&mut self) -> (r: Result<EntityProperty, MalformedPacket>)
        ensures
            read_view_as(
                old(self).input(),
                final(self).input(),
                r,
                parse_property(old(self).input()),
            ),
    ;

    /// Reads a modifier.
    fn try_get_modifier(&mut self) -> (r: Result<PropertyModifier, MalformedPacket>)
        ensures
            crate::wire::read_as(
                old(self).input(),
                final(self).input(),
                r,
                parse_modifier(old(self).input()),
            ),
    ;
}

impl<'a> EntityPropertyRead for ByteReader<'a> {
    open spec fn input(&self) -> Seq<u8> {
        self.unread()
    }

    fn try_get_properties(&mut self) -> (r: Result<EntityProperties, MalformedPacket>) {
        let mut reader = *self;
        let count = match reader.try_get_i32() {
            Ok(count) => count,
            Err(e) => {
                return Err(e);
            },
        };
        let ghost all = old(self).unread();
        let ghost start = reader.unread();
        let ghost total = announced(count);
        let mut properties = EntityProperties::default();
        let ghost mut read: Seq<EntryModel> = Seq::empty();
        let ghost mut used: nat = 0;
        proof {
            lemma_parse_many_begin(start, total, entry_parser());
        }
        let mut i: i32 = 0;
        while i < count
            invariant
                0 <= i,
                i <= count || count < 0,
                total == announced(count),
                all == old(self).unread(),
                *self == *old(self),
                start == all.skip(4),
                4 <= all.len(),
                parse_i32(all) == Ok::<(i32, nat), MalformedPacket>((count, 4)),
                used <= start.len(),
                reader.unread() == start.skip(used as int),
                read.len() == i,
                properties@ == collected(read),
                properties.wf(),
                parse_many(start, total, entry_parser()) == prepend(
                    read,
                    used,
                    parse_many(start.skip(used as int), (total - i) as nat, entry_parser()),
                ),
            decreases count - i,
        {
            let ghost here = reader.unread();
            proof {
                lemma_parse_many_next(start, total, entry_parser(), read, used, (total - i) as nat);
            }
            let name = match reader.try_get_string() {
                Ok(name) => name,
                Err(e) => {
                    return Err(e);
                },
            };
            let property = match reader.try_get_property() {
                Ok(property) => property,
                Err(e) => {
                    return Err(e);
                },
            };
            proof {
                let entry = EntryModel { name: name@, property: property@ };
                let took = (here.len() - reader.unread().len()) as nat;
                assert(parse_entry(here) == Ok::<(EntryModel, nat), MalformedPacket>(
                    (entry, took),
                ));
                assert(here.skip(took as int) =~= reader.unread());
                assert(start.skip(used as int).skip(took as int) =~= start.skip(
                    (used + took) as int,
                ));
                assert(read.push(entry).drop_last() =~= read);
                read = read.push(entry);
                used = used + took;
            }
            properties.add_property(name, property);
            i = i + 1;
        }
        proof {
            lemma_parse_many_end(start, total, entry_parser(), read, used);
            assert(all.skip(4).skip(used as int) =~= all.skip((4 + used) as int));
        }
        *self = reader;
        Ok(properties)
    }

    fn try_get_property(&mut self) -> (r: Result<EntityProperty, MalformedPacket>) {
        let mut reader = *self;
        let base_value = match reader.try_get_u64() {
            Ok(base_value) => base_value,
            Err(e) => {
                return Err(e);
            },
        };
        let ghost all = old(self).unread();
        let ghost after_base = reader.unread();
        let count = match reader.try_get_var_int() {
            Ok(count) => count,
            Err(e) => {
                return Err(e);
            },
        };
        let ghost start = reader.unread();
        let ghost head = (all.len() - start.len()) as nat;
        let ghost total = announced(count);
        let mut property = EntityProperty::new(base_value);
        let ghost mut used: nat = 0;
        proof {
            lemma_parse_many_begin(start, total, modifier_parser());
            assert(all.skip(8).skip((head - 8) as int) =~= all.skip(head as int));
        }
        let mut i: i32 = 0;
        while i < count
            invariant
                0 <= i,
                i <= count || count < 0,
                total == announced(count),
                all == old(self).unread(),
                *self == *old(self),
                8 <= head <= all.len(),
                start == all.skip(head as int),
                parse_u64(all) == Ok::<(u64, nat), MalformedPacket>((base_value, 8)),
                parse_var_int(all.skip(8)) == Ok::<(i32, nat), MalformedPacket>(
                    (count, (head - 8) as nat),
                ),
                used <= start.len(),
                reader.unread() == start.skip(used as int),
                property@.base_value == base_value,
                property@.modifiers.len() == i,
                parse_many(start, total, modifier_parser()) == prepend(
                    property@.modifiers,
                    used,
                    parse_many(start.skip(used as int), (total - i) as nat, modifier_parser()),
                ),
            decreases count - i,
        {
            let ghost here = reader.unread();
            proof {
                lemma_parse_many_next(
                    start,
                    total,
                    modifier_parser(),
                    property@.modifiers,
                    used,
                    (total - i) as nat,
                );
            }
            let modifier = match reader.try_get_modifier() {
                Ok(modifier) => modifier,
                Err(e) => {
                    return Err(e);
                },
            };
            property.add_modifier(modifier);
            proof {
                let took = (here.len() - reader.unread().len()) as nat;
                assert(here.skip(took as int) =~= reader.unread());
                assert(start.skip(used as int).skip(took as int) =~= start.skip(
                    (used + took) as int,
                ));
                used = used + took;
            }
            i = i + 1;
        }
        proof {
            lemma_parse_many_end(start, total, modifier_parser(), property@.modifiers, used);
            assert(all.skip(head as int).skip(used as int) =~= all.skip((head + used) as int));
        }
        *self = reader;
        Ok(property)
    }

    fn try_get_modifier(&mut self) -> (r: Result<PropertyModifier, MalformedPacket>) {
        let ghost bytes = old(self).unread();
        let mut reader = *self;
        let uuid = match reader.try_get_uuid() {
            Ok(uuid) => uuid,
            Err(e) => {
                return Err(e);
            },
        };
        let amount = match reader.try_get_u64() {
            Ok(amount) => amount,
            Err(e) => {
                return Err(e);
            },
        };
        proof {
            assert(bytes.skip(16).skip(8) =~= bytes.skip(24));
        }
        let code = match reader.try_get_i8() {
            Ok(code) => code,
            Err(e) => {
                return Err(e);
            },
        };
        proof {
            assert(bytes.skip(24).skip(1) =~= bytes.skip(25));
        }
        let operation = match ModifierOperation::from_protocol(code) {
            Some(operation) => operation,
            None => {
                return Err(MalformedPacket::UnknownOperation(code));
            },
        };
        *self = reader;
        Ok(PropertyModifier::new(uuid, amount, operation))
    }
}

} // verus!
