use effect_sync::entity::block::BlockEntities;
use effect_sync::entity::block::BlockEntityCreateSystem;
use effect_sync::entity::block::BlockEntityDestroySystem;
use effect_sync::entity::block::BlockEntityPlan;
use effect_sync::entity::block::BlockKind;
use effect_sync::entity::block::BlockPosition;
use effect_sync::entity::block::BlockPositionComponent;
use effect_sync::entity::block::BlockUpdateEvent;
use effect_sync::entity::block::EntityHandle;

const AIR: BlockKind = BlockKind(0);
const DIRT: BlockKind = BlockKind(9);
const STONE: BlockKind = BlockKind(1);

/// The creating routine for a kind of block: dirt has the routine 0, and no
/// other kind has one.
fn creator_for(block: BlockKind) -> Option<usize> {
    if block == DIRT {
        Some(0)
    } else {
        None
    }
}

fn creators(blocks: &[BlockKind]) -> Vec<Option<usize>> {
    blocks.iter().map(|block| creator_for(*block)).collect()
}

#[test]
fn spawn_block_entity() {
    let pos = BlockPosition::new(0, 0, 0);
    let event = BlockUpdateEvent { pos, old_block: AIR, new_block: DIRT };

    let plans = BlockEntityCreateSystem::default().run(&vec![event], &creators(&[DIRT]));

    // Verify that entity was created.
    assert_eq!(plans.len(), 1);

    let first = plans.first().unwrap();

    // Verify that correct components were added.
    assert_eq!(first.creator, 0);
    let block_pos = BlockPositionComponent(first.pos);
    assert_eq!(block_pos.0, pos);

    // Verify that block entity was added to `BlockEntities`.
    let entity = EntityHandle { index: 0, generation: 1 };
    let mut block_entities = BlockEntities::new();
    assert_eq!(block_entities.insert(first.pos, entity), None);
    assert_eq!(block_entities.get(pos), Some(entity));
}

#[test]
fn delete_block_entity() {
    let pos = BlockPosition::new(0, 0, 0);
    let entity = EntityHandle { index: 0, generation: 1 };
    let mut block_entities = BlockEntities::new();
    block_entities.insert(pos, entity);

    let event = BlockUpdateEvent { pos, old_block: DIRT, new_block: AIR };
    let doomed = BlockEntityDestroySystem::default().run(&vec![event], &block_entities);

    // Verify entity was destroyed.
    assert_eq!(doomed, vec![entity]);
}

#[test]
fn position_gets_one_entity_however_often_it_is_updated() {
    let a = BlockPosition::new(1, 2, 3);
    let b = BlockPosition::new(1, 2, 4);
    let events = vec![
        BlockUpdateEvent { pos: a, old_block: AIR, new_block: DIRT },
        BlockUpdateEvent { pos: b, old_block: AIR, new_block: DIRT },
        BlockUpdateEvent { pos: a, old_block: DIRT, new_block: DIRT },
        BlockUpdateEvent { pos: b, old_block: DIRT, new_block: STONE },
    ];
    let blocks = [DIRT, DIRT, DIRT, DIRT];
    let plans = BlockEntityCreateSystem::default().run(&events, &creators(&blocks));
    assert_eq!(
        plans,
        vec![BlockEntityPlan { pos: a, creator: 0 }, BlockEntityPlan { pos: b, creator: 0 }]
    );
}

#[test]
fn current_block_decides_not_the_block_of_the_update() {
    let a = BlockPosition::new(1, 2, 3);
    let b = BlockPosition::new(5, 5, 5);
    let events = vec![
        BlockUpdateEvent { pos: a, old_block: AIR, new_block: DIRT },
        BlockUpdateEvent { pos: b, old_block: AIR, new_block: STONE },
    ];
    let plans = BlockEntityCreateSystem::default().run(&events, &creators(&[STONE, DIRT]));
    assert_eq!(plans, vec![BlockEntityPlan { pos: b, creator: 0 }]);
    let none = BlockEntityCreateSystem::default().run(&events, &creators(&[AIR, AIR]));
    assert!(none.is_empty());
}

#[test]
fn first_update_at_a_position_uses_up_the_position() {
    let a = BlockPosition::new(1, 2, 3);
    let events = vec![
        BlockUpdateEvent { pos: a, old_block: AIR, new_block: STONE },
        BlockUpdateEvent { pos: a, old_block: STONE, new_block: DIRT },
    ];
    let plans = BlockEntityCreateSystem::default().run(&events, &creators(&[STONE, DIRT]));
    assert!(plans.is_empty());
}

#[test]
fn plan_names_the_creating_routine_of_the_kind() {
    let a = BlockPosition::new(1, 2, 3);
    let b = BlockPosition::new(3, 2, 1);
    let events = vec![
        BlockUpdateEvent { pos: a, old_block: AIR, new_block: DIRT },
        BlockUpdateEvent { pos: b, old_block: AIR, new_block: STONE },
    ];
    let plans = BlockEntityCreateSystem::default().run(&events, &vec![Some(4), Some(2)]);
    assert_eq!(
        plans,
        vec![BlockEntityPlan { pos: a, creator: 4 }, BlockEntityPlan { pos: b, creator: 2 }]
    );
    assert!(BlockEntityCreateSystem::default().run(&Vec::new(), &Vec::new()).is_empty());
}

#[test]
fn block_entities_hold_the_latest_entity_of_a_position() {
    let pos = BlockPosition::new(-1, 0, 1);
    let first = EntityHandle { index: 4, generation: 1 };
    let second = EntityHandle { index: 4, generation: 2 };
    let mut block_entities = BlockEntities::new();
    assert_eq!(block_entities.get(pos), None);
    assert_eq!(block_entities.insert(pos, first), None);
    assert_eq!(block_entities.insert(pos, second), Some(first));
    assert_eq!(block_entities.get(pos), Some(second));
    assert_eq!(block_entities.get(BlockPosition::new(-1, 0, 2)), None);
    assert_eq!(block_entities.get(BlockPosition::new(1, 0, -1)), None);
}

#[test]
fn only_changed_blocks_with_entities_are_destroyed() {
    let a = BlockPosition::new(1, 2, 3);
    let b = BlockPosition::new(4, 5, 6);
    let c = BlockPosition::new(7, 8, 9);
    let at_a = EntityHandle { index: 1, generation: 1 };
    let at_b = EntityHandle { index: 2, generation: 1 };
    let mut block_entities = BlockEntities::new();
    block_entities.insert(a, at_a);
    block_entities.insert(b, at_b);
    let events = vec![
        BlockUpdateEvent { pos: b, old_block: DIRT, new_block: AIR },
        BlockUpdateEvent { pos: a, old_block: DIRT, new_block: DIRT },
        BlockUpdateEvent { pos: c, old_block: DIRT, new_block: AIR },
        BlockUpdateEvent { pos: a, old_block: DIRT, new_block: STONE },
        BlockUpdateEvent { pos: b, old_block: AIR, new_block: DIRT },
    ];
    let doomed = BlockEntityDestroySystem::default().run(&events, &block_entities);
    assert_eq!(doomed, vec![at_b, at_a, at_b]);
    assert!(BlockEntityDestroySystem::default().run(&Vec::new(), &block_entities).is_empty());
}

#[test]
fn default_position_is_the_origin() {
    assert_eq!(BlockPosition::default(), BlockPosition::new(0, 0, 0));
    assert_eq!(BlockPositionComponent::default().0, BlockPosition { x: 0, y: 0, z: 0 });
}
