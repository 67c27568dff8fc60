use loomz::terrain::{TerrainType, WorldTerrainChunk};
use loomz::world::{
    actors_groups, batch_actors, batch_terrain, copy_terrain_batch, find_animation, set_terrain_size,
    terrain_type_index, terrain_view_changed, update_world_animation, write_indices, ActorStep, WorldActorData,
    WorldActorUpdate, WorldActors, WorldAnimation, WorldAnimationWithId, WorldBatch, WorldError, WorldFlags,
    SHOW_WORLD, UPDATE_ACTORS, UPDATE_TERRAIN,
};

#[test]
fn flags_insert_remove_set() {
    let mut flags = WorldFlags::from_bits(SHOW_WORLD);
    assert!(flags.contains(SHOW_WORLD));
    assert!(!flags.contains(UPDATE_ACTORS));
    flags.insert(UPDATE_ACTORS);
    assert!(flags.contains(UPDATE_ACTORS));
    assert!(flags.contains(SHOW_WORLD));
    flags.remove(UPDATE_ACTORS);
    assert!(!flags.contains(UPDATE_ACTORS));
    flags.set(UPDATE_TERRAIN, true);
    assert_eq!(flags.bits, SHOW_WORLD | UPDATE_TERRAIN);
    flags.set(SHOW_WORLD, false);
    flags.set(UPDATE_TERRAIN, false);
    assert!(flags.is_empty());
}

#[test]
fn actor_groups_skip_group_boundaries() {
    // The scan skips the actor at which each group ends and stops at the
    // first empty group.
    assert_eq!(actors_groups(&[5, 5, 7, 7, 7, 9]), vec![(5, 2), (7, 2)]);
    assert_eq!(actors_groups(&[1, 1, 1]), vec![(1, 3)]);
    assert_eq!(actors_groups(&[]), vec![]);
    assert_eq!(actors_groups(&[4, 8]), vec![(4, 1)]);
    assert_eq!(actors_groups(&[4, 8, 8, 3, 3]), vec![(4, 1), (8, 1), (3, 1)]);
}

#[test]
fn actor_groups_null_set_joins_next_group() {
    assert_eq!(actors_groups(&[0, 3, 3]), vec![(3, 3)]);
}

#[test]
fn batch_actors_offsets() {
    let batches = batch_actors(&[5, 5, 7, 7, 7, 9]);
    assert_eq!(
        batches,
        vec![
            WorldBatch { set: 5, instances_count: 2, instances_offset: 0 },
            WorldBatch { set: 7, instances_count: 2, instances_offset: 2 },
        ]
    );
}

#[test]
fn animations_cannot_be_replaced() {
    let mut animations: Vec<WorldAnimationWithId> = Vec::new();
    let a = WorldAnimation { texture_id: 1, last_frame: 5 };
    let b = WorldAnimation { texture_id: 2, last_frame: 3 };
    assert_eq!(update_world_animation(&mut animations, 10, a), Ok(()));
    assert_eq!(update_world_animation(&mut animations, 10, b), Err(WorldError::AnimationExists(10)));
    assert_eq!(animations.len(), 1);
    assert_eq!(find_animation(&animations, 10), Some(a));
    assert_eq!(find_animation(&animations, 11), None);
}

fn default_actor() -> WorldActorData {
    WorldActorData {
        descriptor_set: 0,
        animation: WorldAnimation { texture_id: 1, last_frame: 2 },
        position_x: 0,
        position_y: 0,
        current_frame: 0,
        flipped: false,
    }
}

#[test]
fn actor_updates() {
    let mut actors = WorldActors::new(default_actor());
    let mut flags = WorldFlags::from_bits(0);
    let animations = vec![
        WorldAnimationWithId { id: 1, animation: WorldAnimation { texture_id: 1, last_frame: 4 } },
        WorldAnimationWithId { id: 2, animation: WorldAnimation { texture_id: 9, last_frame: 1 } },
    ];

    let r = actors.update_world_actor(&mut flags, &animations, 77, WorldActorUpdate::Position(3, 4));
    assert_eq!(r, Ok(ActorStep::WriteSprite(0)));
    assert_eq!(actors.ids, vec![77]);
    assert_eq!(actors.data[0].position_x, 3);
    assert_eq!(actors.data[0].position_y, 4);

    let r = actors.update_world_actor(&mut flags, &animations, 77, WorldActorUpdate::Flip(true));
    assert_eq!(r, Ok(ActorStep::WriteSprite(0)));
    assert!(actors.data[0].flipped);

    // Same texture: replaced in place.
    let r = actors.update_world_actor(&mut flags, &animations, 77, WorldActorUpdate::Animation(1));
    assert_eq!(r, Ok(ActorStep::WriteSprite(0)));
    assert_eq!(actors.data[0].animation.last_frame, 4);
    assert_eq!(flags.bits, 0);

    // Other texture: the descriptor set must be fetched first.
    let r = actors.update_world_actor(&mut flags, &animations, 77, WorldActorUpdate::Animation(2));
    let animation = WorldAnimation { texture_id: 9, last_frame: 1 };
    assert_eq!(r, Ok(ActorStep::FetchTexture { index: 0, animation }));
    actors.finish_actor_animation(&mut flags, 0, animation, 555);
    assert_eq!(actors.data[0].descriptor_set, 555);
    assert_eq!(actors.data[0].animation, animation);
    assert!(flags.contains(UPDATE_ACTORS));

    // Unknown animation: the actor is still created.
    let r = actors.update_world_actor(&mut flags, &animations, 78, WorldActorUpdate::Animation(3));
    assert_eq!(r, Err(WorldError::UnknownAnimation(3)));
    assert_eq!(actors.ids, vec![77, 78]);
}

#[test]
fn destroy_actor_moves_last_in_place() {
    let mut actors = WorldActors::new(default_actor());
    let mut flags = WorldFlags::from_bits(0);
    let animations: Vec<WorldAnimationWithId> = Vec::new();
    for id in [1u32, 2, 3] {
        actors.update_world_actor(&mut flags, &animations, id, WorldActorUpdate::Position(id, 0)).unwrap();
    }
    let r = actors.update_world_actor(&mut flags, &animations, 1, WorldActorUpdate::Destroy);
    assert_eq!(r, Ok(ActorStep::Destroyed));
    assert_eq!(actors.ids, vec![3, 2]);
    assert_eq!(actors.data[0].position_x, 3);
    assert!(flags.contains(UPDATE_ACTORS));
}

#[test]
fn animation_frames_wrap() {
    let mut actors = WorldActors::new(default_actor());
    let mut flags = WorldFlags::from_bits(0);
    actors.update_world_actor(&mut flags, &[], 1, WorldActorUpdate::Flip(false)).unwrap();
    let frames: Vec<u8> = (0..5)
        .map(|_| {
            actors.animation_update();
            actors.data[0].current_frame
        })
        .collect();
    // last_frame is 2
    assert_eq!(frames, vec![1, 2, 0, 1, 2]);
}

#[test]
fn terrain_chunks_layout() {
    let chunks = set_terrain_size(20, 40, 0u32);
    assert_eq!(chunks.len(), 6);
    assert_eq!((chunks[0].x, chunks[0].y), (0, 0));
    assert_eq!((chunks[1].x, chunks[1].y), (1, 0));
    assert_eq!((chunks[2].x, chunks[2].y), (0, 1));
    assert_eq!((chunks[5].x, chunks[5].y), (1, 2));
    assert!(chunks.iter().all(|c| c.cells.len() == 256 && c.cells.iter().all(|v| *v == 0)));
}

fn sand_chunk(x: u32, y: u32) -> WorldTerrainChunk {
    let mut cells = vec![TerrainType::Grass; 256];
    cells[17] = TerrainType::Sand;
    WorldTerrainChunk { x, y, cells }
}

#[test]
fn copy_terrain_batch_maps_cells_to_tiles() {
    let mut chunks = set_terrain_size(32, 32, 0u32);
    let tilemap = [100u32, 200u32];
    assert_eq!(copy_terrain_batch(&mut chunks, &tilemap, &sand_chunk(1, 0)), Ok(()));
    assert_eq!(chunks[1].cells[17], 200);
    assert_eq!(chunks[1].cells[16], 100);
    assert!(chunks[0].cells.iter().all(|v| *v == 0));
    assert_eq!(terrain_type_index(TerrainType::Grass), 0);
    assert_eq!(terrain_type_index(TerrainType::Sand), 1);
}

#[test]
fn copy_terrain_batch_errors() {
    let mut chunks = set_terrain_size(32, 32, 0u32);
    let tilemap = [100u32, 200u32];
    assert_eq!(copy_terrain_batch(&mut chunks, &tilemap, &sand_chunk(0, 5)), Err(WorldError::ChunkOutOfRange));
    // A terrain 48 cells wide has 3 chunks per row, but the chunk is looked
    // up at y * 16 + x: chunk (3, 0) is looked up at the place of chunk (0, 1).
    let mut wide = set_terrain_size(48, 48, 0u32);
    assert_eq!(copy_terrain_batch(&mut wide, &tilemap, &sand_chunk(3, 0)), Err(WorldError::ChunkMismatch));
    assert!(wide.iter().all(|c| c.cells.iter().all(|v| *v == 0)));
}

#[test]
fn batch_terrain_writes_visible_chunks() {
    let mut chunks = set_terrain_size(32, 32, 0u32);
    let tilemap = [100u32, 200u32];
    copy_terrain_batch(&mut chunks, &tilemap, &sand_chunk(1, 0)).unwrap();
    let mut sprites = vec![7u32; 600];
    let drawn = batch_terrain(&chunks, &[false, true, false, true], &mut sprites);
    assert_eq!(drawn, vec![1, 3]);
    assert_eq!(sprites[17], 200);
    assert_eq!(sprites[16], 100);
    assert_eq!(sprites[256 + 17], 0);
    assert_eq!(sprites[511], 0);
    assert_eq!(sprites[512], 7);
    assert_eq!(sprites.len(), 600);
}

#[test]
fn view_change_detection() {
    assert!(!terrain_view_changed(&[true, false], &[true, false]));
    assert!(terrain_view_changed(&[true, false], &[true, true]));
    assert!(!terrain_view_changed(&[], &[]));
}

#[test]
fn write_indices_quad() {
    let mut index = vec![9];
    write_indices(&mut index, 4);
    assert_eq!(index, vec![9, 4, 5, 6, 6, 7, 5]);
}
