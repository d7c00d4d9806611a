//! Block entities: the entities that stand for blocks of certain kinds.
//!
//! When a block of a registered kind is placed, an entity is made for it;
//! when a block with an entity changes, the entity is destroyed. The rules
//! here decide, from the block updates of a tick, which entities to make
//! and which to destroy.

use vstd::prelude::*;

verus! {

/// The position of a block in the world.
#[derive(Clone, Copy, Debug, PartialEq, Eq, Hash, Structural)]
pub struct BlockPosition {
    pub x: i32,
    pub y: i32,
    pub z: i32,
}

impl BlockPosition {
    /// The coordinates of the position.
    pub open spec fn key(self) -> (i32, i32, i32) {
        (self.x, self.y, self.z)
    }

    pub fn new(x: i32, y: i32, z: i32) -> (position: BlockPosition)
        ensures
            position == (BlockPosition { x, y, z }),
    {
        BlockPosition { x, y, z }
    }
}

impl Default for BlockPosition {
    fn default() -> (position: BlockPosition)
        ensures
            position == (BlockPosition { x: 0, y: 0, z: 0 }),
    {
        BlockPosition { x: 0, y: 0, z: 0 }
    }
}

/// The position of a block entity. It does not change once the entity is
/// made.
#[derive(Clone, Copy, Debug, PartialEq, Eq, Hash, Structural)]
pub struct BlockPositionComponent(pub BlockPosition);

impl Default for BlockPositionComponent {
    fn default() -> (component: BlockPositionComponent)
        ensures
            component == BlockPositionComponent(BlockPosition { x: 0, y: 0, z: 0 }),
    {
        BlockPositionComponent(BlockPosition { x: 0, y: 0, z: 0 })
    }
}

/// A kind of block, by its number.
#[derive(Clone, Copy, Debug, PartialEq, Eq, Hash, Structural)]
pub struct BlockKind(pub u32);

/// An entity, by its index and its generation.
#[derive(Clone, Copy, Debug, PartialEq, Eq, Hash, Structural)]
pub struct EntityHandle {
    pub index: u32,
    pub generation: i32,
}

impl EntityHandle {
    /// The index and the generation of the entity.
    pub open spec fn pair(self) -> (u32, i32) {
        (self.index, self.generation)
    }

    /// The entity with an index and a generation.
    pub open spec fn of_pair(pair: (u32, i32)) -> EntityHandle {
        EntityHandle { index: pair.0, generation: pair.1 }
    }
}

/// A block at a position has changed from one kind to another.
#[derive(Clone, Copy, Debug, PartialEq, Eq, Structural)]
pub struct BlockUpdateEvent {
    pub pos: BlockPosition,
    pub old_block: BlockKind,
    pub new_block: BlockKind,
}

/// A block entity to make: at a position, by the routine with the number
/// `creator`.
#[derive(Clone, Copy, Debug, PartialEq, Eq, Structural)]
pub struct BlockEntityPlan {
    pub pos: BlockPosition,
    pub creator: usize,
}

/// A set of positions, held in a `hashbrown::HashSet`.
#[verifier::external_body]
pub struct PositionSet {
    inner: hashbrown::HashSet<(i32, i32, i32)>,
}

/// The positions that a set holds.
pub uninterp spec fn position_set(set: PositionSet) -> Set<(i32, i32, i32)>;

/// `hashbrown::HashSet::new`: a set that holds nothing.
#[verifier::external_body]
fn position_set_new() -> (set: PositionSet)
    ensures
        position_set(set) == Set::<(i32, i32, i32)>::empty(),
{
    PositionSet { inner: hashbrown::HashSet::new() }
}

/// `hashbrown::HashSet::insert`: the set then holds the position besides
/// what it held, and the answer says whether it did not hold it before.
#[verifier::external_body]
fn position_set_insert(set: &mut PositionSet, position: (i32, i32, i32)) -> (fresh: bool)
    ensures
        position_set(*final(set)) == position_set(*old(set)).insert(position),
        fresh == !position_set(*old(set)).contains(position),
{
    set.inner.insert(position)
}

/// The block entities by the positions of their blocks, held in a
/// `hashbrown::HashMap`.
#[verifier::external_body]
pub struct BlockEntities {
    inner: hashbrown::HashMap<(i32, i32, i32), (u32, i32)>,
}

/// The entities that a map of block entities holds, by the coordinates of
/// their blocks.
pub uninterp spec fn block_entity_map(entities: BlockEntities) -> Map<(i32, i32, i32), (u32, i32)>;

/// The map that holds no block entity.
pub open spec fn no_block_entities() -> Map<(i32, i32, i32), (u32, i32)> {
    Map::empty()
}

/// `hashbrown::HashMap::new`: a map that holds nothing.
#[verifier::external_body]
fn block_entities_new() -> (entities: BlockEntities)
    ensures
        block_entity_map(entities) == no_block_entities(),
{
    BlockEntities { inner: hashbrown::HashMap::new() }
}

/// `hashbrown::HashMap::insert`: the map then holds the entity at the
/// position and everything else as before, and what it held at the
/// position before is handed out.
#[verifier::external_body]
fn block_entities_insert(
    entities: &mut BlockEntities,
    position: (i32, i32, i32),
    entity: (u32, i32),
) -> (previous: Option<(u32, i32)>)
    ensures
        block_entity_map(*final(entities)) == block_entity_map(*old(entities)).insert(
            position,
            entity,
        ),
        previous == if block_entity_map(*old(entities)).contains_key(position) {
            Some(block_entity_map(*old(entities))[position])
        } else {
            None
        },
{
    entities.inner.insert(position, entity)
}

/// `hashbrown::HashMap::get`: what the map holds at the position, if it
/// holds anything there.
#[verifier::external_body]
fn block_entities_get(entities: &BlockEntities, position: (i32, i32, i32)) -> (entity: Option<
    (u32, i32),
>)
    ensures
        entity == if block_entity_map(*entities).contains_key(position) {
            Some(block_entity_map(*entities)[position])
        } else {
            None
        },
{
    entities.inner.get(&position).copied()
}

impl Default for BlockEntities {
    /// No block entity.
    fn default() -> (entities: BlockEntities)
        ensures
            entities.entries() == no_block_entities(),
    {
        block_entities_new()
    }
}

impl BlockEntities {
    /// The entities by the coordinates of their blocks.
    pub open spec fn entries(&self) -> Map<(i32, i32, i32), (u32, i32)> {
        block_entity_map(*self)
    }

    /// The entity of the block at a position, if the block has one.
    pub open spec fn entity_at(&self, position: BlockPosition) -> Option<EntityHandle> {
        if self.entries().contains_key(position.key()) {
            Some(EntityHandle::of_pair(self.entries()[position.key()]))
        } else {
            None
        }
    }

    /// No block entity.
    pub fn new() -> (entities: BlockEntities)
        ensures
            entities.entries() == no_block_entities(),
    {
        block_entities_new()
    }

    /// Records the entity of the block at a position, and hands out the
    /// entity that was recorded there before.
    pub fn insert(&mut self, position: BlockPosition, entity: EntityHandle) -> (previous: Option<
        EntityHandle,
    >)
        ensures
            final(self).entries() == old(self).entries().insert(position.key(), entity.pair()),
            previous == old(self).entity_at(position),
    {
        match block_entities_insert(
            self,
            (position.x, position.y, position.z),
            (entity.index, entity.generation),
        ) {
            Some(pair) => Some(EntityHandle { index: pair.0, generation: pair.1 }),
            None => None,
        }
    }

    /// The entity of the block at a position, if the block has one.
    pub fn get(&self, position: BlockPosition) -> (entity: Option<EntityHandle>)
        ensures
            entity == self.entity_at(position),
    {
        match block_entities_get(self, (position.x, position.y, position.z)) {
            Some(pair) => Some(EntityHandle { index: pair.0, generation: pair.1 }),
            None => None,
        }
    }
}

/// Whether the update at a place is the first of a list at its position.
pub open spec fn is_first_at_position(events: Seq<BlockUpdateEvent>, place: int) -> bool {
    forall|earlier: int| 0 <= earlier < place ==> (#[trigger] events[earlier]).pos != events[place].pos
}

/// The block entities to make for the first `count` updates of a list, in
/// their order: one for each update that is the first at its position and
/// whose block is now of a kind with a creating routine. `creators` holds,
/// for each update, the number of the routine that makes the entity for the
/// kind that the block at its position has now, if that kind has one.
pub open spec fn planned(
    events: Seq<BlockUpdateEvent>,
    creators: Seq<Option<usize>>,
    count: nat,
) -> Seq<BlockEntityPlan>
    decreases count,
{
    if count == 0 {
        Seq::empty()
    } else {
        let place = count - 1;
        let before = planned(events, creators, place as nat);
        if is_first_at_position(events, place) && creators[place] is Some {
            before.push(BlockEntityPlan { pos: events[place].pos, creator: creators[place]->0 })
        } else {
            before
        }
    }
}

/// The entity that an update destroys: the entity of the block at its
/// position, where the kind of the block has changed and the block has an
/// entity.
pub open spec fn destroyed_by(event: BlockUpdateEvent, entities: Map<(i32, i32, i32), (u32, i32)>) -> Option<
    EntityHandle,
> {
    if event.old_block != event.new_block && entities.contains_key(event.pos.key()) {
        Some(EntityHandle::of_pair(entities[event.pos.key()]))
    } else {
        None
    }
}

/// The entities that the updates of a list destroy, in the order of the
/// updates.
pub open spec fn destroyed(
    events: Seq<BlockUpdateEvent>,
    entities: Map<(i32, i32, i32), (u32, i32)>,
) -> Seq<EntityHandle> {
    events.filter_map(|event: BlockUpdateEvent| destroyed_by(event, entities))
}

/// Decides which block entities to make when blocks are placed.
#[derive(Default, Debug, Clone, Copy)]
pub struct BlockEntityCreateSystem;

impl BlockEntityCreateSystem {
    /// The block entities to make for the updates of a tick. An update
    /// counts once for its position, and by the kind that the block has now,
    /// not by the kind that the update names: `creators` holds, for each
    /// update, the creating routine for that kind, if it has one.
    pub fn run(&self, events: &Vec<BlockUpdateEvent>, creators: &Vec<Option<usize>>) -> (plans:
        Vec<BlockEntityPlan>)
        requires
            creators@.len() == events@.len(),
        ensures
            plans@ == planned(events@, creators@, events@.len()),
    {
        let mut plans: Vec<BlockEntityPlan> = Vec::new();
        let mut processed = position_set_new();
        let mut i: usize = 0;
        while i < events.len()
            invariant
                i <= events@.len(),
                creators@.len() == events@.len(),
                plans@ == planned(events@, creators@, i as nat),
                forall|key: (i32, i32, i32)|
                    position_set(processed).contains(key) <==> exists|j: int|
                        0 <= j < i && (#[trigger] events@[j]).pos.key() == key,
            decreases events@.len() - i,
        {
            let pos = events[i].pos;
            let ghost before = position_set(processed);
            let fresh = position_set_insert(&mut processed, (pos.x, pos.y, pos.z));
            proof {
                assert(fresh == is_first_at_position(events@, i as int)) by {
                    if !fresh {
                        let j = choose|j: int|
                            0 <= j < i && (#[trigger] events@[j]).pos.key() == pos.key();
                        assert(events@[j].pos == pos);
                    } else {
                        assert forall|j: int| 0 <= j < i implies (#[trigger] events@[j]).pos
                            != pos by {
                            if events@[j].pos == pos {
                                assert(events@[j].pos.key() == pos.key());
                                assert(before.contains(pos.key()));
                            }
                        }
                    }
                }
                assert forall|key: (i32, i32, i32)|
                    position_set(processed).contains(key) <==> exists|j: int|
                        0 <= j < i + 1 && (#[trigger] events@[j]).pos.key() == key by {
                    if position_set(processed).contains(key) {
                        if key == pos.key() {
                            assert(events@[i as int].pos.key() == key);
                        } else {
                            assert(before.contains(key));
                            let j = choose|j: int|
                                0 <= j < i && (#[trigger] events@[j]).pos.key() == key;
                            assert(0 <= j < i + 1 && events@[j].pos.key() == key);
                        }
                    }
                    if exists|j: int| 0 <= j < i + 1 && (#[trigger] events@[j]).pos.key() == key {
                        let j = choose|j: int|
                            0 <= j < i + 1 && (#[trigger] events@[j]).pos.key() == key;
                        if j < i {
                            assert(before.contains(key));
                        }
                    }
                }
            }
            if fresh {
                match creators[i] {
                    Some(creator) => {
                        plans.push(BlockEntityPlan { pos, creator });
                    },
                    None => {},
                }
            }
            i = i + 1;
        }
        plans
    }
}

/// Decides which block entities to destroy when blocks change.
#[derive(Default, Debug, Clone, Copy)]
pub struct BlockEntityDestroySystem;

impl BlockEntityDestroySystem {
    /// The entities to destroy for the updates of a tick: for each update
    /// that changes the kind of a block with an entity, that entity.
    pub fn run(&self, events: &Vec<BlockUpdateEvent>, block_entities: &BlockEntities) -> (doomed:
        Vec<EntityHandle>)
        ensures
            doomed@ == destroyed(events@, block_entities.entries()),
    {
        let ghost pick = |event: BlockUpdateEvent| destroyed_by(event, block_entities.entries());
        let mut doomed: Vec<EntityHandle> = Vec::new();
        let mut i: usize = 0;
        while i < events.len()
            invariant
                i <= events@.len(),
                pick == |event: BlockUpdateEvent| destroyed_by(event, block_entities.entries()),
                doomed@ == events@.take(i as int).filter_map(pick),
            decreases events@.len() - i,
        {
            let event = events[i];
            proof {
                events@.lemma_filter_map_take_succ(pick, i as int);
            }
            if event.old_block.0 != event.new_block.0 {
                match block_entities.get(event.pos) {
                    Some(entity) => {
                        doomed.push(entity);
                    },
                    None => {},
                }
            }
            i = i + 1;
        }
        proof {
            assert(events@.take(i as int) =~= events@);
        }
        doomed
    }
}

} // verus!
