//! Attributes of an entity: named numbers, each with a base value and a
//! list of modifiers.
//!
//! A value or an amount is held as the bit pattern of an IEEE 754 binary64
//! number, so that it goes on the wire and comes back bit for bit.

use vstd::prelude::*;
use crate::name::lemma_name_before_total;
use crate::name::lemma_name_before_transitive;
use crate::name::name_before;
use crate::name::rank_names;
use crate::name::NameRank;

verus! {

/// How a modifier combines with the value of its attribute. The modifiers of
/// an attribute apply in the order of the variants: the `Add` modifiers,
/// then the `AddPercent` modifiers, then the `Multiply` modifiers.
#[derive(Debug, Copy, Clone, PartialEq, Eq, Hash, Structural)]
pub enum ModifierOperation {
    Add,
    AddPercent,
    Multiply,
}

impl Default for ModifierOperation {
    fn default() -> (operation: ModifierOperation)
        ensures
            operation == ModifierOperation::Add,
    {
        ModifierOperation::Add
    }
}

impl ModifierOperation {
    /// The code of the operation on the wire.
    pub open spec fn wire_code(self) -> int {
        match self {
            ModifierOperation::Add => 0,
            ModifierOperation::AddPercent => 1,
            ModifierOperation::Multiply => 2,
        }
    }

    /// The operation that a wire code stands for, if it stands for one.
    pub open spec fn from_wire_code(code: int) -> Option<ModifierOperation> {
        if code == 0 {
            Some(ModifierOperation::Add)
        } else if code == 1 {
            Some(ModifierOperation::AddPercent)
        } else if code == 2 {
            Some(ModifierOperation::Multiply)
        } else {
            None
        }
    }

    /// The code of the operation on the wire.
    pub fn to_protocol(self) -> (code: i8)
        ensures
            code == self.wire_code(),
            0 <= code <= 2,
    {
        match self {
            ModifierOperation::Add => 0,
            ModifierOperation::AddPercent => 1,
            ModifierOperation::Multiply => 2,
        }
    }

    /// The operation that a wire code stands for; codes other than 0, 1 and
    /// 2 stand for none.
    pub fn from_protocol(proto_value: i8) -> (operation: Option<ModifierOperation>)
        ensures
            operation == ModifierOperation::from_wire_code(proto_value as int),
            operation is Some <==> 0 <= proto_value <= 2,
    {
        match proto_value {
            0 => Some(ModifierOperation::Add),
            1 => Some(ModifierOperation::AddPercent),
            2 => Some(ModifierOperation::Multiply),
            _ => None,
        }
    }
}

/// Reading the wire code of an operation gives the operation back, and a
/// code that stands for an operation is the code of that operation.
pub proof fn lemma_operation_wire_code_round_trip(operation: ModifierOperation, code: int)
    ensures
        ModifierOperation::from_wire_code(operation.wire_code()) == Some(operation),
        ModifierOperation::from_wire_code(code) matches Some(o) ==> o.wire_code() == code,
        ModifierOperation::from_wire_code(code) is Some <==> 0 <= code <= 2,
{
}

/// A change to the value of an attribute, known by its identifier.
#[derive(Debug, Clone, Copy, PartialEq, Eq, Structural)]
pub struct PropertyModifier {
    uuid: u128,
    amount: u64,
    operation: ModifierOperation,
}

impl Default for PropertyModifier {
    fn default() -> (modifier: PropertyModifier)
        ensures
            modifier == PropertyModifier::with_parts(0, 0, ModifierOperation::Add),
    {
        PropertyModifier { uuid: 0, amount: 0, operation: ModifierOperation::Add }
    }
}

impl PropertyModifier {
    pub closed spec fn spec_uuid(&self) -> u128 {
        self.uuid
    }

    pub closed spec fn spec_amount(&self) -> u64 {
        self.amount
    }

    pub closed spec fn spec_operation(&self) -> ModifierOperation {
        self.operation
    }

    /// The modifier with the given parts.
    pub closed spec fn with_parts(
        uuid: u128,
        amount: u64,
        operation: ModifierOperation,
    ) -> PropertyModifier {
        PropertyModifier { uuid, amount, operation }
    }

    /// A modifier with the 128-bit identifier `uuid`, the amount whose bit
    /// pattern is `amount`, and an operation.
    pub fn new(uuid: u128, amount: u64, operation: ModifierOperation) -> (modifier:
        PropertyModifier)
        ensures
            modifier == PropertyModifier::with_parts(uuid, amount, operation),
            modifier.uuid() == uuid,
            modifier.amount() == amount,
            modifier.operation() == operation,
    {
        PropertyModifier { uuid, amount, operation }
    }

    /// The 128-bit identifier.
    #[verifier::when_used_as_spec(spec_uuid)]
    pub fn uuid(&self) -> (r: u128)
        ensures
            r == self.uuid(),
    {
        self.uuid
    }

    /// The bit pattern of the amount.
    #[verifier::when_used_as_spec(spec_amount)]
    pub fn amount(&self) -> (r: u64)
        ensures
            r == self.amount(),
    {
        self.amount
    }

    #[verifier::when_used_as_spec(spec_operation)]
    pub fn operation(&self) -> (r: ModifierOperation)
        ensures
            r == self.operation(),
    {
        self.operation
    }
}

/// A modifier is the modifier made of its parts, and the parts of a
/// modifier made of given parts are those parts.
pub proof fn lemma_modifier_parts(
    modifier: PropertyModifier,
    uuid: u128,
    amount: u64,
    operation: ModifierOperation,
)
    ensures
        modifier == PropertyModifier::with_parts(
            modifier.uuid(),
            modifier.amount(),
            modifier.operation(),
        ),
        PropertyModifier::with_parts(uuid, amount, operation).uuid() == uuid,
        PropertyModifier::with_parts(uuid, amount, operation).amount() == amount,
        PropertyModifier::with_parts(uuid, amount, operation).operation() == operation,
{
}

/// What an attribute holds: the bit pattern of its base value, and its
/// modifiers in the order in which they were added.
pub struct PropertyModel {
    pub base_value: u64,
    pub modifiers: Seq<PropertyModifier>,
}

/// The test that picks the modifiers with an identifier other than `uuid`.
pub open spec fn other_than(uuid: u128) -> spec_fn(PropertyModifier) -> bool {
    |m: PropertyModifier| m.uuid() != uuid
}

/// The test that picks the modifiers with the operation `operation`.
pub open spec fn with_operation(operation: ModifierOperation) -> spec_fn(PropertyModifier) -> bool {
    |m: PropertyModifier| m.operation() == operation
}

/// An attribute: a base value and the modifiers on it.
#[derive(Debug)]
pub struct EntityProperty {
    base_value: u64,
    modifiers: Vec<PropertyModifier>,
}

impl View for EntityProperty {
    type V = PropertyModel;

    closed spec fn view(&self) -> PropertyModel {
        PropertyModel { base_value: self.base_value, modifiers: self.modifiers@ }
    }
}

impl Default for EntityProperty {
    fn default() -> (property: EntityProperty)
        ensures
            property@ == (PropertyModel { base_value: 0, modifiers: Seq::empty() }),
    {
        EntityProperty { base_value: 0, modifiers: Vec::new() }
    }
}

impl Clone for EntityProperty {
    fn clone(&self) -> (copy: EntityProperty)
        ensures
            copy@ == self@,
    {
        let mut modifiers: Vec<PropertyModifier> = Vec::new();
        let mut i: usize = 0;
        while i < self.modifiers.len()
            invariant
                i <= self.modifiers.len(),
                modifiers@ == self.modifiers@.take(i as int),
            decreases self.modifiers.len() - i,
        {
            modifiers.push(self.modifiers[i]);
            proof {
                assert(self.modifiers@.take(i as int).push(self.modifiers@[i as int])
                    =~= self.modifiers@.take(i + 1));
            }
            i = i + 1;
        }
        proof {
            assert(self.modifiers@.take(i as int) =~= self.modifiers@);
        }
        EntityProperty { base_value: self.base_value, modifiers }
    }
}

impl EntityProperty {
    /// An attribute with the base value whose bit pattern is `base_value`
    /// and no modifier.
    pub fn new(base_value: u64) -> (property: EntityProperty)
        ensures
            property@ == (PropertyModel { base_value, modifiers: Seq::empty() }),
    {
        EntityProperty { base_value, modifiers: Vec::new() }
    }

    /// Adds a modifier at the end of the list. A modifier with the same
    /// identifier that is on the list stays there.
    pub fn add_modifier(&mut self, modifier: PropertyModifier)
        ensures
            final(self)@ == (PropertyModel {
                base_value: old(self)@.base_value,
                modifiers: old(self)@.modifiers.push(modifier),
            }),
    {
        self.modifiers.push(modifier);
    }

    /// Takes every modifier with the identifier `uuid` off the list, and
    /// says whether there was one. The others keep their order.
    pub fn remove_modifier(&mut self, uuid: u128) -> (removed: bool)
        ensures
            final(self)@ == (PropertyModel {
                base_value: old(self)@.base_value,
                modifiers: old(self)@.modifiers.filter(other_than(uuid)),
            }),
            removed == exists|i: int|
                0 <= i < old(self)@.modifiers.len() && (#[trigger] old(self)@.modifiers[i]).uuid()
                    == uuid,
    {
        let mut kept: Vec<PropertyModifier> = Vec::new();
        let mut removed = false;
        let mut i: usize = 0;
        while i < self.modifiers.len()
            invariant
                i <= self.modifiers.len(),
                self@ == old(self)@,
                kept@ == self.modifiers@.take(i as int).filter(other_than(uuid)),
                removed == exists|j: int|
                    0 <= j < i && (#[trigger] self.modifiers@[j]).uuid() == uuid,
            decreases self.modifiers.len() - i,
        {
            let modifier = self.modifiers[i];
            proof {
                self.modifiers@.take(i as int).lemma_filter_push(modifier, other_than(uuid));
                assert(self.modifiers@.take(i as int).push(modifier) =~= self.modifiers@.take(
                    i + 1,
                ));
            }
            if modifier.uuid == uuid {
                removed = true;
                assert(self.modifiers@[i as int].uuid() == uuid);
            } else {
                kept.push(modifier);
            }
            i = i + 1;
        }
        proof {
            assert(self.modifiers@.take(i as int) =~= self.modifiers@);
        }
        self.modifiers = kept;
        removed
    }

    /// Puts a modifier on the list in place of every modifier with the same
    /// identifier: those leave the list, and the modifier is added at the
    /// end. Putting the same modifier twice leaves the list as putting it
    /// once.
    pub fn put_modifier(&mut self, modifier: PropertyModifier)
        ensures
            final(self)@ == (PropertyModel {
                base_value: old(self)@.base_value,
                modifiers: old(self)@.modifiers.filter(other_than(modifier.uuid())).push(modifier),
            }),
    {
        self.remove_modifier(modifier.uuid);
        self.modifiers.push(modifier);
    }

    /// The bit pattern of the base value.
    pub fn base_value(&self) -> (r: u64)
        ensures
            r == self@.base_value,
    {
        self.base_value
    }

    /// The modifiers, in the order in which they were added.
    pub fn modifiers(&self) -> (r: &Vec<PropertyModifier>)
        ensures
            r@ == self@.modifiers,
    {
        &self.modifiers
    }

    /// The modifiers with the operation `operation`, in the order in which
    /// they were added.
    pub fn modifiers_with(&self, operation: ModifierOperation) -> (r: Vec<PropertyModifier>)
        ensures
            r@ == self@.modifiers.filter(with_operation(operation)),
    {
        let mut picked: Vec<PropertyModifier> = Vec::new();
        let mut i: usize = 0;
        while i < self.modifiers.len()
            invariant
                i <= self.modifiers.len(),
                picked@ == self.modifiers@.take(i as int).filter(with_operation(operation)),
            decreases self.modifiers.len() - i,
        {
            let modifier = self.modifiers[i];
            proof {
                self.modifiers@.take(i as int).lemma_filter_push(
                    modifier,
                    with_operation(operation),
                );
                assert(self.modifiers@.take(i as int).push(modifier) =~= self.modifiers@.take(
                    i + 1,
                ));
            }
            if modifier.operation == operation {
                picked.push(modifier);
            }
            i = i + 1;
        }
        proof {
            assert(self.modifiers@.take(i as int) =~= self.modifiers@);
        }
        picked
    }
}

/// Putting a modifier on a list that holds it as its only modifier with
/// that identifier, at the end, changes nothing: putting is idempotent.
pub proof fn lemma_put_modifier_idempotent(modifiers: Seq<PropertyModifier>, m: PropertyModifier)
    ensures
        modifiers.filter(other_than(m.uuid())).push(m).filter(other_than(m.uuid())).push(m)
            == modifiers.filter(other_than(m.uuid())).push(m),
{
    let others = modifiers.filter(other_than(m.uuid()));
    others.lemma_filter_push(m, other_than(m.uuid()));
    lemma_filter_twice(modifiers, other_than(m.uuid()));
}

/// Picking again, with the same test, from what was picked changes nothing.
proof fn lemma_filter_twice<A>(s: Seq<A>, p: spec_fn(A) -> bool)
    ensures
        s.filter(p).filter(p) == s.filter(p),
    decreases s.len(),
{
    reveal(Seq::filter);
    if s.len() > 0 {
        lemma_filter_twice(s.drop_last(), p);
        if p(s.last()) {
            s.drop_last().filter(p).lemma_filter_push(s.last(), p);
        }
    }
}

/// One attribute of a set: its name and what it holds.
pub struct EntryModel {
    pub name: Seq<char>,
    pub property: PropertyModel,
}

/// Whether the names of a list of attributes go up strictly, in the order
/// of names. No name then occurs twice.
pub open spec fn names_ascending(entries: Seq<EntryModel>) -> bool {
    forall|i: int, j: int|
        0 <= i < j < entries.len() ==> name_before(
            (#[trigger] entries[i]).name,
            (#[trigger] entries[j]).name,
        )
}

/// Whether a list of attributes holds one with the name `name`.
pub open spec fn has_name(entries: Seq<EntryModel>, name: Seq<char>) -> bool {
    exists|i: int| 0 <= i < entries.len() && (#[trigger] entries[i]).name == name
}

/// A place in a list of attributes at which the name `name` stands, where
/// the list holds that name.
pub open spec fn place_of_name(entries: Seq<EntryModel>, name: Seq<char>) -> int {
    choose|i: int| 0 <= i < entries.len() && (#[trigger] entries[i]).name == name
}

/// The attributes of a list by their names.
pub open spec fn entries_by_name(entries: Seq<EntryModel>) -> Map<Seq<char>, PropertyModel> {
    Map::new(
        |name: Seq<char>| has_name(entries, name),
        |name: Seq<char>| entries[place_of_name(entries, name)].property,
    )
}

/// The number of attributes of a list whose names come before `name`.
pub open spec fn rank_of_name(entries: Seq<EntryModel>, name: Seq<char>) -> int
    decreases entries.len(),
{
    if entries.len() == 0 {
        0
    } else {
        rank_of_name(entries.drop_last(), name) + if name_before(entries.last().name, name) {
            1int
        } else {
            0int
        }
    }
}

/// A list of attributes with one more attribute put into it: in place of
/// the attribute of that name where there is one, and else at the place
/// that keeps the names ascending.
pub open spec fn entries_put(entries: Seq<EntryModel>, entry: EntryModel) -> Seq<EntryModel> {
    if has_name(entries, entry.name) {
        entries.update(place_of_name(entries, entry.name), entry)
    } else {
        entries.insert(rank_of_name(entries, entry.name), entry)
    }
}

/// In a list with ascending names a name stands at one place at most.
pub proof fn lemma_name_stands_once(entries: Seq<EntryModel>, i: int, j: int)
    requires
        names_ascending(entries),
        0 <= i < entries.len(),
        0 <= j < entries.len(),
        entries[i].name == entries[j].name,
    ensures
        i == j,
{
    lemma_name_before_total(entries[i].name, entries[j].name);
}

/// In a list with ascending names, the attribute at a place is the one that
/// its name leads to.
pub proof fn lemma_entry_by_name(entries: Seq<EntryModel>, i: int)
    requires
        names_ascending(entries),
        0 <= i < entries.len(),
    ensures
        has_name(entries, entries[i].name),
        place_of_name(entries, entries[i].name) == i,
        entries_by_name(entries).contains_key(entries[i].name),
        entries_by_name(entries)[entries[i].name] == entries[i].property,
{
    lemma_name_stands_once(entries, i, place_of_name(entries, entries[i].name));
}

/// In a list with ascending names, the names that come before a name are
/// those at the places below its rank.
pub proof fn lemma_rank_of_name(entries: Seq<EntryModel>, name: Seq<char>)
    requires
        names_ascending(entries),
    ensures
        0 <= rank_of_name(entries, name) <= entries.len(),
        forall|i: int|
            0 <= i < entries.len() ==> (name_before((#[trigger] entries[i]).name, name) <==> i
                < rank_of_name(entries, name)),
    decreases entries.len(),
{
    if entries.len() > 0 {
        let front = entries.drop_last();
        lemma_rank_of_name(front, name);
        let last = entries.len() - 1;
        assert forall|i: int| 0 <= i < entries.len() implies (name_before(
            (#[trigger] entries[i]).name,
            name,
        ) <==> i < rank_of_name(entries, name)) by {
            if i < last {
                assert(front[i] == entries[i]);
                if name_before(entries[last].name, name) {
                    lemma_name_before_transitive(entries[i].name, entries[last].name, name);
                }
            } else {
                if !name_before(entries[last].name, name) {
                    if rank_of_name(front, name) > 0 {
                        let k = rank_of_name(front, name) - 1;
                        assert(front[k] == entries[k]);
                    }
                } else {
                    if rank_of_name(front, name) < last {
                        let k = rank_of_name(front, name);
                        assert(front[k] == entries[k]);
                        assert(!name_before(entries[k].name, name));
                        lemma_name_before_total(entries[k].name, name);
                        if entries[k].name == name {
                        } else {
                            lemma_name_before_transitive(name, entries[k].name, entries[last].name);
                        }
                        lemma_name_before_total(entries[last].name, name);
                    }
                }
            }
        }
    }
}

/// The rank of a name is the place up to which the names come before it,
/// where the name at that place, if there is one, does not.
pub proof fn lemma_rank_at(entries: Seq<EntryModel>, name: Seq<char>, place: int)
    requires
        names_ascending(entries),
        0 <= place <= entries.len(),
        forall|j: int| 0 <= j < place ==> name_before((#[trigger] entries[j]).name, name),
        place < entries.len() ==> !name_before(entries[place].name, name),
    ensures
        rank_of_name(entries, name) == place,
{
    lemma_rank_of_name(entries, name);
    let rank = rank_of_name(entries, name);
    if rank < place {
        assert(name_before(entries[rank].name, name));
    }
    if rank > place {
        assert(name_before(entries[place].name, name));
    }
}

/// Putting an attribute into a list with ascending names gives a list with
/// ascending names that holds the attribute under its name and every other
/// name as before.
pub proof fn lemma_entries_put(entries: Seq<EntryModel>, entry: EntryModel)
    requires
        names_ascending(entries),
    ensures
        names_ascending(entries_put(entries, entry)),
        entries_by_name(entries_put(entries, entry)) == entries_by_name(entries).insert(
            entry.name,
            entry.property,
        ),
        has_name(entries, entry.name) ==> entries_put(entries, entry).len() == entries.len(),
        !has_name(entries, entry.name) ==> entries_put(entries, entry).len() == entries.len() + 1,
{
    let put = entries_put(entries, entry);
    lemma_rank_of_name(entries, entry.name);
    if has_name(entries, entry.name) {
        let p = place_of_name(entries, entry.name);
        assert forall|i: int, j: int| 0 <= i < j < put.len() implies name_before(
            (#[trigger] put[i]).name,
            (#[trigger] put[j]).name,
        ) by {
            assert(put[i].name == entries[i].name);
            assert(put[j].name == entries[j].name);
        }
        assert forall|name: Seq<char>| has_name(put, name) == (has_name(entries, name) || name
            == entry.name) by {
            if has_name(put, name) {
                let i = place_of_name(put, name);
                assert(entries[i].name == name);
            }
            if has_name(entries, name) {
                let i = place_of_name(entries, name);
                assert(put[i].name == name);
            }
            if name == entry.name {
                assert(put[p].name == name);
            }
        }
        assert forall|name: Seq<char>| has_name(put, name) implies #[trigger] entries_by_name(
            put,
        )[name] == entries_by_name(entries).insert(entry.name, entry.property)[name] by {
            let i = place_of_name(put, name);
            lemma_entry_by_name(put, i);
            assert(entries[i].name == name);
            lemma_entry_by_name(entries, i);
            if name == entry.name {
                lemma_name_stands_once(entries, i, p);
            }
        }
        assert(entries_by_name(put) =~= entries_by_name(entries).insert(
            entry.name,
            entry.property,
        ));
    } else {
        let r = rank_of_name(entries, entry.name);
        assert forall|i: int| r <= i < entries.len() implies name_before(
            entry.name,
            (#[trigger] entries[i]).name,
        ) by {
            lemma_name_before_total(entries[i].name, entry.name);
        }
        assert forall|i: int, j: int| 0 <= i < j < put.len() implies name_before(
            (#[trigger] put[i]).name,
            (#[trigger] put[j]).name,
        ) by {
            if i < r {
                assert(put[i] == entries[i]);
            } else if i > r {
                assert(put[i] == entries[i - 1]);
            }
            if j < r {
                assert(put[j] == entries[j]);
            } else if j > r {
                assert(put[j] == entries[j - 1]);
            }
        }
        assert forall|name: Seq<char>| has_name(put, name) == (has_name(entries, name) || name
            == entry.name) by {
            if has_name(put, name) {
                let i = place_of_name(put, name);
                if i < r {
                    assert(entries[i].name == name);
                } else if i > r {
                    assert(entries[i - 1].name == name);
                }
            }
            if has_name(entries, name) {
                let i = place_of_name(entries, name);
                if i < r {
                    assert(put[i].name == name);
                } else {
                    assert(put[i + 1].name == name);
                }
            }
            if name == entry.name {
                assert(put[r].name == name);
            }
        }
        assert forall|name: Seq<char>| has_name(put, name) implies #[trigger] entries_by_name(
            put,
        )[name] == entries_by_name(entries).insert(entry.name, entry.property)[name] by {
            let i = place_of_name(put, name);
            lemma_entry_by_name(put, i);
            if i < r {
                assert(put[i] == entries[i]);
                lemma_entry_by_name(entries, i);
            } else if i > r {
                assert(put[i] == entries[i - 1]);
                lemma_entry_by_name(entries, i - 1);
            }
        }
        assert(entries_by_name(put) =~= entries_by_name(entries).insert(
            entry.name,
            entry.property,
        ));
    }
}

/// Two lists with ascending names that hold the same attributes under the
/// same names are the same list: the names and what they lead to determine
/// the order.
pub proof fn lemma_entries_determined(a: Seq<EntryModel>, b: Seq<EntryModel>)
    requires
        names_ascending(a),
        names_ascending(b),
        entries_by_name(a) == entries_by_name(b),
    ensures
        a == b,
    decreases a.len(),
{
    if a.len() == 0 {
        if b.len() > 0 {
            lemma_entry_by_name(b, 0);
            assert(has_name(a, b[0].name));
        }
        assert(a =~= b);
    } else {
        let la = a.len() - 1;
        lemma_entry_by_name(a, la);
        assert(has_name(b, a[la].name));
        let lb = b.len() - 1;
        lemma_entry_by_name(b, lb);
        assert(has_name(a, b[lb].name));
        let ia = place_of_name(a, b[lb].name);
        let ib = place_of_name(b, a[la].name);
        // The last name of each list is the greatest of both.
        lemma_name_before_total(a[la].name, b[lb].name);
        if ia < la {
            assert(name_before(a[ia].name, a[la].name));
        }
        if ib < lb {
            assert(name_before(b[ib].name, b[lb].name));
        }
        assert(a[la].name == b[lb].name);
        lemma_entry_by_name(b, ib);
        lemma_name_stands_once(b, ib, lb);
        assert(a[la].property == b[lb].property);
        let fa = a.drop_last();
        let fb = b.drop_last();
        assert forall|name: Seq<char>| has_name(fa, name) == has_name(fb, name) by {
            if has_name(fa, name) {
                let i = place_of_name(fa, name);
                assert(a[i].name == name);
                lemma_entry_by_name(a, i);
                assert(has_name(b, name));
                let j = place_of_name(b, name);
                if j == lb {
                    lemma_name_stands_once(a, i, la);
                }
                assert(fb[j].name == name);
            }
            if has_name(fb, name) {
                let j = place_of_name(fb, name);
                assert(b[j].name == name);
                lemma_entry_by_name(b, j);
                assert(has_name(a, name));
                let i = place_of_name(a, name);
                if i == la {
                    lemma_name_stands_once(b, j, lb);
                }
                assert(fa[i].name == name);
            }
        }
        assert forall|name: Seq<char>| has_name(fa, name) implies #[trigger] entries_by_name(
            fa,
        )[name] == entries_by_name(fb)[name] by {
            let i = place_of_name(fa, name);
            let j = place_of_name(fb, name);
            lemma_entry_by_name(fa, i);
            lemma_entry_by_name(fb, j);
            assert(fa[i] == a[i]);
            assert(fb[j] == b[j]);
            lemma_entry_by_name(a, i);
            lemma_entry_by_name(b, j);
        }
        assert(entries_by_name(fa) =~= entries_by_name(fb));
        lemma_entries_determined(fa, fb);
        assert(a =~= fa.push(a[la]));
        assert(b =~= fb.push(b[lb]));
    }
}

/// The name of the attribute that holds the greatest health.
pub const MAX_HEALTH: &'static str = "generic.maxHealth";

/// The name of the attribute that holds the range in which a mob follows.
pub const FOLLOW_RANGE: &'static str = "generic.followRange";

/// The name of the attribute that holds the resistance to knockback.
pub const KNOCKBACK_RESISTANCE: &'static str = "generic.knockbackResistance";

/// The name of the attribute that holds the speed of movement.
pub const MOVEMENT_SPEED: &'static str = "generic.movementSpeed";

/// The name of the attribute that holds the damage of an attack.
pub const ATTACK_DAMAGE: &'static str = "generic.attackDamage";

/// The name of the attribute that holds the speed of attacks.
pub const ATTACK_SPEED: &'static str = "generic.attackSpeed";

/// The name of the attribute that holds the speed of flight.
pub const FLYING_SPEED: &'static str = "generic.flyingSpeed";

/// The bit pattern of 20.0, the base value of the greatest health.
pub const MAX_HEALTH_BASE: u64 = 0x4034_0000_0000_0000;

/// The bit pattern of 32.0, the base value of the follow range.
pub const FOLLOW_RANGE_BASE: u64 = 0x4040_0000_0000_0000;

/// The bit pattern of 0.0, the base value of the knockback resistance.
pub const KNOCKBACK_RESISTANCE_BASE: u64 = 0;

/// The bit pattern of 0.699999988079071, the base value of the movement
/// speed.
pub const MOVEMENT_SPEED_BASE: u64 = 0x3FE6_6666_6000_0000;

/// The bit pattern of 2.0, the base value of the attack damage.
pub const ATTACK_DAMAGE_BASE: u64 = 0x4000_0000_0000_0000;

/// The bit pattern of 4.0, the base value of the attack speed.
pub const ATTACK_SPEED_BASE: u64 = 0x4010_0000_0000_0000;

/// The bit pattern of 0.4000000059604645, the base value of the flying
/// speed.
pub const FLYING_SPEED_BASE: u64 = 0x3FD9_9999_A000_0000;

/// What an attribute with a base value and no modifier holds.
pub open spec fn unmodified(base_value: u64) -> PropertyModel {
    PropertyModel { base_value, modifiers: Seq::empty() }
}

/// The attributes that every new set holds, by their names: the seven
/// well-known attributes with their base values and no modifier.
pub open spec fn default_attributes() -> Map<Seq<char>, PropertyModel> {
    Map::<Seq<char>, PropertyModel>::empty().insert(
        MAX_HEALTH@,
        unmodified(MAX_HEALTH_BASE),
    ).insert(FOLLOW_RANGE@, unmodified(FOLLOW_RANGE_BASE)).insert(
        KNOCKBACK_RESISTANCE@,
        unmodified(KNOCKBACK_RESISTANCE_BASE),
    ).insert(MOVEMENT_SPEED@, unmodified(MOVEMENT_SPEED_BASE)).insert(
        ATTACK_DAMAGE@,
        unmodified(ATTACK_DAMAGE_BASE),
    ).insert(ATTACK_SPEED@, unmodified(ATTACK_SPEED_BASE)).insert(
        FLYING_SPEED@,
        unmodified(FLYING_SPEED_BASE),
    )
}

/// The seven well-known names differ from one another, so that every new
/// set holds seven attributes, each under its name with its base value.
pub proof fn lemma_default_attributes()
    ensures
        MAX_HEALTH@ != FOLLOW_RANGE@,
        MAX_HEALTH@ != KNOCKBACK_RESISTANCE@,
        MAX_HEALTH@ != MOVEMENT_SPEED@,
        MAX_HEALTH@ != ATTACK_DAMAGE@,
        MAX_HEALTH@ != ATTACK_SPEED@,
        MAX_HEALTH@ != FLYING_SPEED@,
        FOLLOW_RANGE@ != KNOCKBACK_RESISTANCE@,
        FOLLOW_RANGE@ != MOVEMENT_SPEED@,
        FOLLOW_RANGE@ != ATTACK_DAMAGE@,
        FOLLOW_RANGE@ != ATTACK_SPEED@,
        FOLLOW_RANGE@ != FLYING_SPEED@,
        KNOCKBACK_RESISTANCE@ != MOVEMENT_SPEED@,
        KNOCKBACK_RESISTANCE@ != ATTACK_DAMAGE@,
        KNOCKBACK_RESISTANCE@ != ATTACK_SPEED@,
        KNOCKBACK_RESISTANCE@ != FLYING_SPEED@,
        MOVEMENT_SPEED@ != ATTACK_DAMAGE@,
        MOVEMENT_SPEED@ != ATTACK_SPEED@,
        MOVEMENT_SPEED@ != FLYING_SPEED@,
        ATTACK_DAMAGE@ != ATTACK_SPEED@,
        ATTACK_DAMAGE@ != FLYING_SPEED@,
        ATTACK_SPEED@ != FLYING_SPEED@,
        default_attributes().contains_key(MAX_HEALTH@),
        default_attributes()[MAX_HEALTH@] == unmodified(MAX_HEALTH_BASE),
        default_attributes().contains_key(FOLLOW_RANGE@),
        default_attributes()[FOLLOW_RANGE@] == unmodified(FOLLOW_RANGE_BASE),
        default_attributes().contains_key(KNOCKBACK_RESISTANCE@),
        default_attributes()[KNOCKBACK_RESISTANCE@] == unmodified(KNOCKBACK_RESISTANCE_BASE),
        default_attributes().contains_key(MOVEMENT_SPEED@),
        default_attributes()[MOVEMENT_SPEED@] == unmodified(MOVEMENT_SPEED_BASE),
        default_attributes().contains_key(ATTACK_DAMAGE@),
        default_attributes()[ATTACK_DAMAGE@] == unmodified(ATTACK_DAMAGE_BASE),
        default_attributes().contains_key(ATTACK_SPEED@),
        default_attributes()[ATTACK_SPEED@] == unmodified(ATTACK_SPEED_BASE),
        default_attributes().contains_key(FLYING_SPEED@),
        default_attributes()[FLYING_SPEED@] == unmodified(FLYING_SPEED_BASE),
{
    reveal_strlit("generic.maxHealth");
    reveal_strlit("generic.followRange");
    reveal_strlit("generic.knockbackResistance");
    reveal_strlit("generic.movementSpeed");
    reveal_strlit("generic.attackDamage");
    reveal_strlit("generic.attackSpeed");
    reveal_strlit("generic.flyingSpeed");
    assert(MAX_HEALTH@.len() == 17 && MAX_HEALTH@[8] == 'm' && MAX_HEALTH@[9] == 'a');
    assert(FOLLOW_RANGE@.len() == 19 && FOLLOW_RANGE@[8] == 'f' && FOLLOW_RANGE@[9] == 'o');
    assert(KNOCKBACK_RESISTANCE@.len() == 27 && KNOCKBACK_RESISTANCE@[8] == 'k' && KNOCKBACK_RESISTANCE@[9] == 'n');
    assert(MOVEMENT_SPEED@.len() == 21 && MOVEMENT_SPEED@[8] == 'm' && MOVEMENT_SPEED@[9] == 'o');
    assert(ATTACK_DAMAGE@.len() == 20 && ATTACK_DAMAGE@[8] == 'a' && ATTACK_DAMAGE@[9] == 't');
    assert(ATTACK_SPEED@.len() == 19 && ATTACK_SPEED@[8] == 'a' && ATTACK_SPEED@[9] == 't');
    assert(FLYING_SPEED@.len() == 19 && FLYING_SPEED@[8] == 'f' && FLYING_SPEED@[9] == 'l');
}

/// An attribute of a set, with its name.
#[derive(Debug)]
struct PropertyEntry {
    name: String,
    property: EntityProperty,
}

impl PropertyEntry {
    spec fn model(self) -> EntryModel {
        EntryModel { name: self.name@, property: self.property@ }
    }
}

/// The attributes of an entity by their names.
///
/// The set keeps its attributes in the ascending order of their names;
/// that is the order in which they go on the wire.
#[derive(Debug)]
pub struct EntityProperties {
    entries: Vec<PropertyEntry>,
}

impl View for EntityProperties {
    type V = Seq<EntryModel>;

    closed spec fn view(&self) -> Seq<EntryModel> {
        self.entries@.map_values(|e: PropertyEntry| e.model())
    }
}

impl Default for EntityProperties {
    /// A set without attributes.
    fn default() -> (properties: EntityProperties)
        ensures
            properties@ == Seq::<EntryModel>::empty(),
            properties.wf(),
    {
        let properties = EntityProperties { entries: Vec::new() };
        assert(properties@ =~= Seq::<EntryModel>::empty());
        properties
    }
}

impl Clone for EntityProperties {
    fn clone(&self) -> (copy: EntityProperties)
        ensures
            copy@ == self@,
    {
        let mut entries: Vec<PropertyEntry> = Vec::new();
        let mut i: usize = 0;
        while i < self.entries.len()
            invariant
                i <= self.entries.len(),
                entries@.len() == i,
                forall|j: int| 0 <= j < i ==> (#[trigger] entries@[j]).model() == self@[j],
            decreases self.entries.len() - i,
        {
            let entry = &self.entries[i];
            entries.push(
                PropertyEntry { name: entry.name.clone(), property: entry.property.clone() },
            );
            i = i + 1;
        }
        let copy = EntityProperties { entries };
        assert(copy@ =~= self@);
        copy
    }
}

impl EntityProperties {
    /// Whether the set is as every set is kept: the names of its attributes
    /// go up strictly.
    pub open spec fn wf(&self) -> bool {
        names_ascending(self@)
    }

    /// The attributes of the set by their names.
    pub open spec fn as_map(&self) -> Map<Seq<char>, PropertyModel> {
        entries_by_name(self@)
    }

    /// A set with the seven well-known attributes, each with its base value
    /// and no modifier.
    pub fn new() -> (properties: EntityProperties)
        ensures
            properties.wf(),
            properties.as_map() == default_attributes(),
    {
        let mut properties = EntityProperties::default();
        properties.add_property(MAX_HEALTH.to_owned(), EntityProperty::new(MAX_HEALTH_BASE));
        properties.add_property(FOLLOW_RANGE.to_owned(), EntityProperty::new(FOLLOW_RANGE_BASE));
        properties.add_property(
            KNOCKBACK_RESISTANCE.to_owned(),
            EntityProperty::new(KNOCKBACK_RESISTANCE_BASE),
        );
        properties.add_property(
            MOVEMENT_SPEED.to_owned(),
            EntityProperty::new(MOVEMENT_SPEED_BASE),
        );
        properties.add_property(ATTACK_DAMAGE.to_owned(), EntityProperty::new(ATTACK_DAMAGE_BASE));
        properties.add_property(ATTACK_SPEED.to_owned(), EntityProperty::new(ATTACK_SPEED_BASE));
        properties.add_property(FLYING_SPEED.to_owned(), EntityProperty::new(FLYING_SPEED_BASE));
        properties
    }

    /// The number of attributes.
    pub fn len(&self) -> (n: usize)
        ensures
            n == self@.len(),
    {
        self.entries.len()
    }

    /// Whether the set is as every set is kept. Every set that was made
    /// and changed by the functions here is.
    pub fn is_well_formed(&self) -> (r: bool)
        ensures
            r == self.wf(),
    {
        if self.entries.len() == 0 {
            return true;
        }
        let mut i: usize = 1;
        while i < self.entries.len()
            invariant
                1 <= i <= self.entries.len(),
                names_ascending(self@.take(i as int)),
            decreases self.entries.len() - i,
        {
            let rank = rank_names(
                self.entries[i - 1].name.as_str(),
                self.entries[i].name.as_str(),
            );
            proof {
                assert(self@[i - 1].name == self.entries@[i - 1].name@);
                assert(self@[i as int].name == self.entries@[i as int].name@);
            }
            match rank {
                NameRank::Before => {},
                _ => {
                    proof {
                        lemma_name_before_total(self@[i - 1].name, self@[i as int].name);
                    }
                    return false;
                },
            }
            proof {
                let longer = self@.take(i + 1);
                assert forall|a: int, b: int| 0 <= a < b < longer.len() implies name_before(
                    (#[trigger] longer[a]).name,
                    (#[trigger] longer[b]).name,
                ) by {
                    if b < i {
                        assert(self@.take(i as int)[a] == longer[a]);
                        assert(self@.take(i as int)[b] == longer[b]);
                    } else if a < i - 1 {
                        assert(self@.take(i as int)[a] == longer[a]);
                        assert(self@.take(i as int)[i - 1] == longer[i - 1]);
                        lemma_name_before_transitive(
                            longer[a].name,
                            longer[i - 1].name,
                            longer[b].name,
                        );
                    }
                }
            }
            i = i + 1;
        }
        proof {
            assert(self@.take(i as int) =~= self@);
        }
        true
    }

    /// Whether the set has no attribute.
    pub fn is_empty(&self) -> (r: bool)
        ensures
            r == (self@.len() == 0),
    {
        self.entries.len() == 0
    }

    /// The name of the attribute at a place, in the ascending order of the
    /// names.
    pub fn name_at(&self, place: usize) -> (name: &str)
        requires
            place < self@.len(),
        ensures
            name@ == self@[place as int].name,
    {
        self.entries[place].name.as_str()
    }

    /// The attribute at a place, in the ascending order of the names.
    pub fn property_at(&self, place: usize) -> (property: &EntityProperty)
        requires
            place < self@.len(),
        ensures
            property@ == self@[place as int].property,
    {
        &self.entries[place].property
    }

    /// The place of a name in the set: the number of names that come before
    /// it, and whether the name is in the set. A name that is in the set
    /// stands at that place.
    fn find(&self, key: &str) -> (r: (usize, bool))
        requires
            self.wf(),
        ensures
            r.0 == rank_of_name(self@, key@),
            r.1 == has_name(self@, key@),
            r.0 <= self@.len(),
            r.1 ==> r.0 < self@.len() && self@[r.0 as int].name == key@ && place_of_name(
                self@,
                key@,
            ) == r.0,
    {
        let mut i: usize = 0;
        while i < self.entries.len()
            invariant
                self.wf(),
                i <= self.entries.len(),
                forall|j: int| 0 <= j < i ==> name_before((#[trigger] self@[j]).name, key@),
            decreases self.entries.len() - i,
        {
            let rank = rank_names(self.entries[i].name.as_str(), key);
            proof {
                assert(self@[i as int].name == self.entries@[i as int].name@);
                lemma_name_before_total(self@[i as int].name, key@);
            }
            match rank {
                NameRank::Before => {},
                NameRank::Same => {
                    proof {
                        lemma_entry_by_name(self@, i as int);
                        lemma_rank_at(self@, key@, i as int);
                    }
                    return (i, true);
                },
                NameRank::After => {
                    proof {
                        lemma_rank_at(self@, key@, i as int);
                        if has_name(self@, key@) {
                            let p = place_of_name(self@, key@);
                            lemma_name_before_total(self@[p].name, key@);
                            if p > i {
                                lemma_name_before_transitive(
                                    key@,
                                    self@[i as int].name,
                                    self@[p].name,
                                );
                            }
                        }
                    }
                    return (i, false);
                },
            }
            i = i + 1;
        }
        proof {
            lemma_rank_at(self@, key@, i as int);
            if has_name(self@, key@) {
                let p = place_of_name(self@, key@);
                lemma_name_before_total(self@[p].name, key@);
            }
        }
        (i, false)
    }

    /// Puts an attribute into the set under a name, in place of the
    /// attribute of that name if there is one.
    pub fn add_property(&mut self, key: String, property: EntityProperty)
        requires
            old(self).wf(),
        ensures
            final(self).wf(),
            final(self)@ == entries_put(
                old(self)@,
                EntryModel { name: key@, property: property@ },
            ),
            final(self).as_map() == old(self).as_map().insert(key@, property@),
    {
        let (place, found) = self.find(key.as_str());
        let entry = PropertyEntry { name: key, property };
        proof {
            lemma_entries_put(old(self)@, entry.model());
        }
        if found {
            self.entries.set(place, entry);
            assert(self@ =~= old(self)@.update(place as int, entry.model()));
        } else {
            self.entries.insert(place, entry);
            assert(self@ =~= old(self)@.insert(place as int, entry.model()));
        }
    }

    /// The attribute of a name, if the set holds one.
    pub fn get_property(&self, key: &str) -> (r: Option<&EntityProperty>)
        requires
            self.wf(),
        ensures
            r is Some <==> has_name(self@, key@),
            r is Some <==> self.as_map().contains_key(key@),
            r matches Some(property) ==> property@ == self.as_map()[key@],
    {
        let (place, found) = self.find(key);
        if found {
            proof {
                lemma_entry_by_name(self@, place as int);
            }
            Some(&self.entries[place].property)
        } else {
            None
        }
    }

    /// The attribute of a name, to change it, if the set holds one. What
    /// the caller leaves in it is what the set then holds under that name;
    /// the other attributes are as before.
    pub fn get_property_mut(&mut self, key: &str) -> (r: Option<&mut EntityProperty>)
        requires
            old(self).wf(),
        ensures
            r is Some <==> has_name(old(self)@, key@),
            match r {
                Some(property) => {
                    &&& (*property)@ == old(self).as_map()[key@]
                    &&& final(self)@ == old(self)@.update(
                        place_of_name(old(self)@, key@),
                        EntryModel { name: key@, property: (*final(property))@ },
                    )
                    &&& final(self).wf()
                    &&& final(self).as_map() == old(self).as_map().insert(
                        key@,
                        (*final(property))@,
                    )
                },
                None => final(self)@ == old(self)@,
            },
    {
        let (place, found) = self.find(key);
        if found {
            proof {
                lemma_entry_by_name(self@, place as int);
            }
            let ghost before = self.entries@;
            let property = &mut self.entries[place].property;
            proof {
                let entry = EntryModel { name: key@, property: (*final(property))@ };
                lemma_entries_put(old(self)@, entry);
                let after = PropertyEntry {
                    name: before[place as int].name,
                    property: *final(property),
                };
                assert(after.model() == entry);
                assert(before.update(place as int, after).map_values(|e: PropertyEntry| e.model())
                    =~= old(self)@.update(place as int, entry));
            }
            Some(property)
        } else {
            None
        }
    }
}

} // verus!
