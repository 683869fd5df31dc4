use meralus_world::animation::{RepeatMode, RestartBehaviour, Stepped};
use meralus_world::blocks::{AirBlock, DirtBlock, GrassBlock};
use meralus_world::chunk::{BlockPos, Chunk, ChunkPos, LocalPos, SubChunk, DIRT, FULL_LIGHT, GRASS};
use meralus_world::chunk_manager::ChunkManager;
use meralus_world::color::Color;
use meralus_world::face::{Axis, Face};
use meralus_world::light::{generate_lights, remove_block, set_block_light, update_block_sky_light};
use meralus_world::mesh::{
    ao_factor, compute_chunk_mesh, compute_chunk_mesh_at, compute_world_mesh, vertex_ao, FaceMesh,
};
use meralus_world::model::{
    bounding_box_of, get_model_for, BlockModel, Cuboid, ElementRotation, Element, ElementFace, ModelRegistry, Uv,
};

fn uv(base: u32) -> [Uv; 4] {
    [
        Uv { u: base, v: 0 },
        Uv { u: base + 16, v: 0 },
        Uv { u: base + 16, v: 16 },
        Uv { u: base, v: 16 },
    ]
}

fn full_cube(tint: Option<Color>, tinted_top: bool) -> BlockModel {
    let mut element = Element::new(Cuboid::unit(), None);
    for i in 0..6 {
        let face = Face::from_normal_index(i);
        element.set_face(ElementFace {
            face,
            cull_face: Some(face),
            tint: tinted_top && face == Face::Top,
            is_opaque: true,
            uv: uv(16 * i as u32),
        });
    }
    BlockModel { bounding_box: Cuboid::unit(), ambient_occlusion: true, tint, elements: vec![element] }
}

fn registry() -> ModelRegistry {
    let mut reg = ModelRegistry::new();
    reg.register(DIRT, full_cube(None, false));
    reg.register(GRASS, full_cube(Some(Color::new(165, 216, 165, 255)), true));
    reg
}

fn flat_solidity(height: u16) -> Vec<bool> {
    let mut solid = vec![false; 65536];
    for z in 0..16usize {
        for x in 0..16usize {
            for y in 0..height as usize {
                solid[(z * 16 + x) * 256 + y] = true;
            }
        }
    }
    solid
}

fn flat_world(x_end: i32, z_end: i32) -> ChunkManager {
    let mut cm = ChunkManager::from_range(0, x_end, 0, z_end);
    let solid = flat_solidity(8);
    for i in 0..cm.chunks.len() {
        cm.chunks[i].generate_surface_with(&solid);
    }
    cm
}

fn bucket(mesh: &[FaceMesh], face: Face) -> &FaceMesh {
    &mesh[face.normal_index()]
}

#[test]
fn local_world_round_trip() {
    let chunk = Chunk::new(ChunkPos { x: 1, z: -1 });
    let p = BlockPos { x: 17, y: 5, z: -3 };
    let local = chunk.to_local(p);
    assert_eq!(local, LocalPos { x: 1, y: 5, z: 13 });
    assert_eq!(chunk.to_world(local), p);
    assert!(chunk.contains_position(p));
    assert!(!chunk.contains_position(BlockPos { x: 33, y: 5, z: -3 }));
    assert!(!chunk.contains_position(BlockPos { x: 17, y: 256, z: -3 }));
}

#[test]
fn negative_coordinates_wrap_euclidean() {
    assert_eq!(ChunkManager::to_local(BlockPos { x: -1, y: 0, z: -16 }), ChunkPos { x: -1, z: -1 });
    assert_eq!(ChunkManager::to_local(BlockPos { x: -17, y: 0, z: 15 }), ChunkPos { x: -2, z: 0 });
    let chunk = Chunk::new(ChunkPos { x: -1, z: -1 });
    assert_eq!(chunk.to_local(BlockPos { x: -1, y: 3, z: -16 }), LocalPos { x: 15, y: 3, z: 0 });
}

#[test]
fn subchunk_index_splits_height() {
    let chunk = Chunk::new(ChunkPos { x: 0, z: 0 });
    assert_eq!(chunk.get_subchunk_index(0), [0, 0]);
    assert_eq!(chunk.get_subchunk_index(37), [2, 5]);
    assert_eq!(chunk.get_subchunk_index(255), [15, 15]);
    assert_eq!(chunk.subchunks.len(), 16);
    assert_eq!(SubChunk::empty().blocks.len(), 4096);
}

#[test]
fn chunk_blocks_set_and_get() {
    let mut chunk = Chunk::new(ChunkPos { x: 0, z: 0 });
    let local = LocalPos { x: 3, y: 40, z: 9 };
    assert_eq!(chunk.get_block(local), None);
    chunk.set_block(BlockPos { x: 3, y: 40, z: 9 }, 7);
    assert_eq!(chunk.get_block(local), Some(7));
    assert_eq!(chunk.get_block_unchecked(local), Some(7));
    assert!(chunk.check_for_block(BlockPos { x: 3, y: 40, z: 9 }));
    // Outside the chunk's column: ignored.
    chunk.set_block(BlockPos { x: 20, y: 40, z: 9 }, 9);
    assert_eq!(chunk.get_block(LocalPos { x: 4, y: 40, z: 9 }), None);
    // Out-of-range local positions read as nothing.
    assert_eq!(chunk.get_block(LocalPos { x: 16, y: 0, z: 0 }), None);
    assert_eq!(chunk.get_block(LocalPos { x: 0, y: 256, z: 0 }), None);
    // Air reads as nothing.
    chunk.set_block(BlockPos { x: 3, y: 40, z: 9 }, 0);
    assert_eq!(chunk.get_block(local), None);
}

#[test]
fn light_nibbles_are_independent() {
    let mut chunk = Chunk::new(ChunkPos { x: 0, z: 0 });
    let p = LocalPos { x: 1, y: 2, z: 3 };
    chunk.set_sun_light(p, 12);
    chunk.set_block_light(p, 5);
    assert_eq!(chunk.get_sun_light(p), 12);
    assert_eq!(chunk.get_block_light(p), 5);
    assert_eq!(chunk.get_light_level(p), 12 * 16 + 5);
    chunk.set_light(p, true, 15);
    assert_eq!(chunk.get_light(p, true), 15);
    assert_eq!(chunk.get_light(p, false), 5);
    chunk.set_light(p, false, 0);
    assert_eq!(chunk.get_light_level(p), 240);
}

#[test]
fn light_stays_in_range() {
    let mut chunk = Chunk::new(ChunkPos { x: 0, z: 0 });
    let p = LocalPos { x: 0, y: 0, z: 0 };
    for level in 0..=255u8 {
        chunk.set_light_level(p, level);
        assert!(chunk.get_sun_light(p) <= 15);
        assert!(chunk.get_block_light(p) <= 15);
    }
}

#[test]
fn manager_queries() {
    let mut cm = ChunkManager::from_range(-1, 1, 0, 2);
    assert_eq!(cm.len(), 4);
    assert!(!cm.is_empty());
    assert!(cm.get_chunk(ChunkPos { x: -1, z: 1 }).is_some());
    assert!(cm.get_chunk(ChunkPos { x: 1, z: 0 }).is_none());
    let p = BlockPos { x: -5, y: 10, z: 20 };
    assert!(cm.contains_chunk(p));
    assert!(!cm.contains_block(p));
    cm.set_block(p, 3);
    assert_eq!(cm.get_block(p), Some(3));
    assert!(cm.contains_block(p));
    // Outside the loaded world.
    let far = BlockPos { x: 100, y: 10, z: 20 };
    assert_eq!(cm.get_block(far), None);
    assert_eq!(cm.get_light(far), FULL_LIGHT);
    assert_eq!(cm.get_sun_light(far), 15);
    assert_eq!(cm.get_block_light(far), 15);
    assert_eq!(cm.get_block(BlockPos { x: -5, y: -1, z: 20 }), None);
    assert_eq!(cm.get_block(BlockPos { x: -5, y: 256, z: 20 }), None);
    assert_eq!(cm.get_light(BlockPos { x: -5, y: 10, z: 20 }), 0);
    assert!(ChunkManager::new().is_empty());
}

#[test]
fn terrain_surface_rule() {
    let cm = flat_world(1, 1);
    let chunk = &cm.chunks[0];
    assert_eq!(chunk.get_block(LocalPos { x: 4, y: 7, z: 4 }), Some(GRASS));
    assert_eq!(chunk.get_block(LocalPos { x: 4, y: 6, z: 4 }), Some(DIRT));
    assert_eq!(chunk.get_block(LocalPos { x: 4, y: 0, z: 4 }), Some(DIRT));
    assert_eq!(chunk.get_block(LocalPos { x: 4, y: 8, z: 4 }), None);
    // A column solid up to the ceiling ends in grass.
    let mut tall = Chunk::new(ChunkPos { x: 0, z: 0 });
    let mut solid = vec![false; 65536];
    for y in 250..256usize {
        solid[y] = true;
    }
    tall.generate_surface_with(&solid);
    assert_eq!(tall.get_block(LocalPos { x: 0, y: 255, z: 0 }), Some(GRASS));
    assert_eq!(tall.get_block(LocalPos { x: 0, y: 254, z: 0 }), Some(DIRT));
    assert_eq!(tall.get_block(LocalPos { x: 1, y: 255, z: 0 }), None);
}

#[test]
fn vertex_ao_table() {
    assert_eq!(vertex_ao(false, false, false), 3);
    assert_eq!(vertex_ao(false, false, true), 2);
    assert_eq!(vertex_ao(false, true, false), 2);
    assert_eq!(vertex_ao(true, false, false), 2);
    assert_eq!(vertex_ao(false, true, true), 1);
    assert_eq!(vertex_ao(true, false, true), 1);
    assert_eq!(vertex_ao(true, true, false), 0);
    assert_eq!(vertex_ao(true, true, true), 0);
    assert_eq!(ao_factor(0), 40);
    assert_eq!(ao_factor(1), 55);
    assert_eq!(ao_factor(2), 75);
    assert_eq!(ao_factor(3), 100);
}

#[test]
fn face_tables() {
    assert_eq!(Face::Top.as_vertices(), [2, 6, 7, 3]);
    assert_eq!(Face::Back.as_vertices(), [5, 7, 6, 4]);
    assert_eq!(Face::Front.as_full_vertices(), [1, 3, 2, 2, 0, 1]);
    assert_eq!(Face::Bottom.as_uv(), [(0, 1), (1, 1), (1, 0), (0, 0)]);
    assert_eq!(Face::Left.normal_index(), 0);
    assert_eq!(Face::Back.normal_index(), 5);
    assert!(Face::Top.reverse_order());
    assert!(!Face::Bottom.reverse_order());
    assert_eq!(Face::Left.opposite(), Face::Right);
    assert_eq!(Face::Bottom.as_normal(), (0, -1, 0));
    assert_eq!(Face::from_axis_value(Axis::Z, 1), Face::Front);
    assert_eq!(Face::from_axis_value(Axis::X, 0), Face::Left);
    assert_eq!(Face::Right.world_to_sample(4, 1, 2), (5, 2, 1));
    for i in 0..6 {
        assert_eq!(Face::from_normal_index(i).normal_index(), i);
    }
}

#[test]
fn opaque_needs_a_full_cube() {
    assert!(full_cube(None, false).is_opaque());
    let slab = BlockModel {
        bounding_box: Cuboid { x: 0, y: 0, z: 0, width: 16, height: 8, depth: 16 },
        ambient_occlusion: true,
        tint: None,
        elements: vec![Element::new(Cuboid { x: 0, y: 0, z: 0, width: 16, height: 8, depth: 16 }, None)],
    };
    assert!(!slab.is_opaque());
}

#[test]
fn flat_world_mesh_has_one_top_quad_per_column() {
    let cm = flat_world(1, 1);
    let reg = registry();
    let mesh = compute_chunk_mesh(&cm, &reg, &cm.chunks[0]);
    let top = bucket(&mesh, Face::Top);
    assert_eq!(top.face, Face::Top);
    assert_eq!(top.opaque.len(), 256);
    assert!(top.translucent.is_empty());
    let mut columns = vec![false; 256];
    for v in &top.opaque {
        assert_eq!(v.position.y, 7);
        let c = (v.position.z * 16 + v.position.x) as usize;
        assert!(!columns[c]);
        columns[c] = true;
        // Grass tops are tinted; nothing is above them, so no ambient occlusion.
        assert_eq!(v.color, Color::new(165, 216, 165, 255));
        assert_eq!(v.aos, [100, 100, 100, 100]);
    }
    for face in [Face::Bottom, Face::Left, Face::Right, Face::Front, Face::Back] {
        for v in &bucket(&mesh, face).opaque {
            let p = v.position;
            let interior = p.x > 0 && p.x < 15 && p.z > 0 && p.z < 15 && p.y > 0 && p.y < 7;
            assert!(!interior, "enclosed face emitted at {:?}", p);
        }
    }
    // The world's floor and sides border nothing loaded, so they are emitted.
    assert_eq!(bucket(&mesh, Face::Bottom).opaque.len(), 256);
    assert_eq!(bucket(&mesh, Face::Left).opaque.len(), 16 * 8);
}

#[test]
fn faces_between_opaque_blocks_are_culled_across_chunks() {
    let cm = flat_world(2, 1);
    let reg = registry();
    let mesh = compute_chunk_mesh(&cm, &reg, &cm.chunks[0]);
    // The +X side of chunk (0, 0) touches chunk (1, 0): no Right faces there.
    assert!(bucket(&mesh, Face::Right).opaque.is_empty());
    // The -X side borders nothing loaded: all its faces are emitted.
    assert_eq!(bucket(&mesh, Face::Left).opaque.len(), 16 * 8);
}

#[test]
fn two_opaque_blocks_hide_their_shared_faces() {
    let mut cm = ChunkManager::from_range(0, 1, 0, 1);
    cm.set_block(BlockPos { x: 5, y: 5, z: 5 }, DIRT);
    cm.set_block(BlockPos { x: 6, y: 5, z: 5 }, DIRT);
    let reg = registry();
    let mesh = compute_chunk_mesh(&cm, &reg, &cm.chunks[0]);
    assert_eq!(bucket(&mesh, Face::Right).opaque.len(), 1);
    assert_eq!(bucket(&mesh, Face::Right).opaque[0].position.x, 6);
    assert_eq!(bucket(&mesh, Face::Left).opaque.len(), 1);
    assert_eq!(bucket(&mesh, Face::Left).opaque[0].position.x, 5);
    assert_eq!(bucket(&mesh, Face::Top).opaque.len(), 2);
    // Ambient occlusion samples the layer the face looks into: nothing there.
    assert!(bucket(&mesh, Face::Top).opaque.iter().all(|v| v.aos == [100, 100, 100, 100]));
}

#[test]
fn ambient_occlusion_darkens_corners_under_a_step() {
    let mut cm = ChunkManager::from_range(0, 1, 0, 1);
    cm.set_block(BlockPos { x: 5, y: 5, z: 5 }, DIRT);
    cm.set_block(BlockPos { x: 6, y: 6, z: 5 }, DIRT);
    let reg = registry();
    let mesh = compute_chunk_mesh(&cm, &reg, &cm.chunks[0]);
    let top = bucket(&mesh, Face::Top).opaque.iter().find(|v| v.position.y == 5).expect("lower top face");
    // Corners 0 and 1 of a top quad lie at x = 0, corners 2 and 3 at x = 1,
    // next to the block standing on the step.
    assert_eq!(top.aos, [100, 100, 75, 75]);
    assert_eq!(top.vertices[0].x, 0);
    assert_eq!(top.vertices[2].x, 16);
}

#[test]
fn ambient_occlusion_rotates_the_quad() {
    let mut cm = ChunkManager::from_range(0, 1, 0, 1);
    cm.set_block(BlockPos { x: 5, y: 5, z: 5 }, DIRT);
    // A single block diagonal to corner 0 of the top quad (unit vertex (0, 1, 1)).
    cm.set_block(BlockPos { x: 4, y: 6, z: 6 }, DIRT);
    let reg = registry();
    let mesh = compute_chunk_mesh(&cm, &reg, &cm.chunks[0]);
    let top = bucket(&mesh, Face::Top).opaque.iter().find(|v| v.position.y == 5).expect("lower top face");
    // Unrotated corners would be [75, 100, 100, 100]; 100 + 100 > 75 + 100,
    // so the quad starts at its second corner.
    assert_eq!(top.aos, [100, 100, 100, 75]);
    assert_eq!(top.uvs[3], uv(48)[0]);
    assert_eq!(top.uvs[0], uv(48)[1]);
    assert_eq!((top.vertices[3].x, top.vertices[3].z), (0, 16));
}

#[test]
fn light_reported_on_faces() {
    let mut cm = ChunkManager::from_range(0, 1, 0, 1);
    cm.set_block(BlockPos { x: 5, y: 5, z: 5 }, DIRT);
    cm.set_light(BlockPos { x: 5, y: 6, z: 5 }, true, 9);
    let reg = registry();
    let mesh = compute_chunk_mesh(&cm, &reg, &cm.chunks[0]);
    assert_eq!(bucket(&mesh, Face::Top).opaque[0].light, 9 * 16);
    assert_eq!(bucket(&mesh, Face::Bottom).opaque[0].light, 0);
}

#[test]
fn translucent_faces_go_to_their_own_bucket() {
    let mut element = Element::new(Cuboid::unit(), None);
    element.set_face(ElementFace { face: Face::Top, cull_face: None, tint: false, is_opaque: false, uv: uv(0) });
    let glass = BlockModel { bounding_box: Cuboid::unit(), ambient_occlusion: false, tint: None, elements: vec![element] };
    let mut reg = registry();
    reg.register(9, glass);
    let mut cm = ChunkManager::from_range(0, 1, 0, 1);
    cm.set_block(BlockPos { x: 1, y: 1, z: 1 }, 9);
    let mesh = compute_chunk_mesh(&cm, &reg, &cm.chunks[0]);
    let top = bucket(&mesh, Face::Top);
    assert!(top.opaque.is_empty());
    assert_eq!(top.translucent.len(), 1);
    assert_eq!(top.translucent[0].color, Color::white());
    assert_eq!(top.translucent[0].uvs, uv(0));
}

#[test]
fn sky_light_fills_open_air() {
    let mut cm = flat_world(1, 1);
    let reg = registry();
    generate_lights(&mut cm, &reg);
    assert_eq!(cm.get_sun_light(BlockPos { x: 3, y: 255, z: 3 }), 15);
    // Straight down from full sky light there is no decay.
    assert_eq!(cm.get_sun_light(BlockPos { x: 3, y: 8, z: 3 }), 15);
    for x in 0..16 {
        for z in 0..16 {
            for y in 8..256 {
                assert_eq!(cm.get_sun_light(BlockPos { x, y, z }), 15);
            }
        }
    }
    // Under the ground it stays dark.
    assert_eq!(cm.get_sun_light(BlockPos { x: 3, y: 6, z: 3 }), 0);
    assert_eq!(cm.get_block_light(BlockPos { x: 3, y: 20, z: 3 }), 0);
}

#[test]
fn block_light_spreads_and_decays() {
    let mut cm = ChunkManager::from_range(0, 1, 0, 1);
    let reg = registry();
    cm.set_block(BlockPos { x: 8, y: 10, z: 9 }, DIRT);
    set_block_light(&mut cm, &reg, BlockPos { x: 8, y: 10, z: 8 }, 15);
    assert_eq!(cm.get_block_light(BlockPos { x: 8, y: 10, z: 8 }), 15);
    assert_eq!(cm.get_block_light(BlockPos { x: 9, y: 10, z: 8 }), 14);
    assert_eq!(cm.get_block_light(BlockPos { x: 8, y: 12, z: 8 }), 13);
    assert_eq!(cm.get_block_light(BlockPos { x: 8, y: 10, z: 5 }), 12);
    // The opaque block receives nothing.
    assert_eq!(cm.get_block_light(BlockPos { x: 8, y: 10, z: 9 }), 0);
    // Sky light is untouched.
    assert_eq!(cm.get_sun_light(BlockPos { x: 9, y: 10, z: 8 }), 0);
    // Adjacent open cells differ by at most one level.
    for x in 0..15 {
        for y in 0..30 {
            for z in 0..15 {
                let p = BlockPos { x, y, z };
                if cm.contains_block(p) {
                    continue;
                }
                for q in [BlockPos { x: x + 1, y, z }, BlockPos { x, y: y + 1, z }, BlockPos { x, y, z: z + 1 }] {
                    if cm.contains_block(q) {
                        continue;
                    }
                    let a = cm.get_block_light(p) as i32;
                    let b = cm.get_block_light(q) as i32;
                    assert!((a - b).abs() <= 1, "{:?} {} vs {:?} {}", p, a, q, b);
                }
            }
        }
    }
}

#[test]
fn sky_light_refills_a_dug_hole() {
    let mut cm = flat_world(1, 1);
    let reg = registry();
    generate_lights(&mut cm, &reg);
    let hole = BlockPos { x: 8, y: 7, z: 8 };
    cm.set_block(hole, 0);
    update_block_sky_light(&mut cm, &reg, hole);
    assert_eq!(cm.get_sun_light(hole), 15);
    assert_eq!(cm.get_sun_light(BlockPos { x: 8, y: 6, z: 8 }), 0);
}

#[test]
fn remesh_neighbours_on_chunk_borders() {
    let cm = ChunkManager::from_range(0, 2, 0, 2);
    // Local x = 0 in chunk (1, 0): the chunk at (0, 0) is rebuilt too.
    let edge = cm.chunks_to_remesh(BlockPos { x: 16, y: 10, z: 5 });
    assert!(edge.contains(&ChunkPos { x: 1, z: 0 }));
    assert!(edge.contains(&ChunkPos { x: 0, z: 0 }));
    assert_eq!(edge.len(), 2);
    // Local x = 5 is strictly inside.
    let inner = cm.chunks_to_remesh(BlockPos { x: 21, y: 10, z: 5 });
    assert_eq!(inner, vec![ChunkPos { x: 1, z: 0 }]);
    // A corner touches two borders.
    let corner = cm.chunks_to_remesh(BlockPos { x: 15, y: 0, z: 15 });
    assert_eq!(corner.len(), 3);
    // Neighbours that are not loaded are left out.
    let outer = cm.chunks_to_remesh(BlockPos { x: 0, y: 0, z: 3 });
    assert_eq!(outer, vec![ChunkPos { x: 0, z: 0 }]);
}

#[test]
fn block_types_have_their_ids() {
    assert_eq!(AirBlock.id(), 0);
    assert_eq!(DirtBlock.id(), DIRT);
    assert_eq!(GrassBlock { is_snowy: false }.id(), GRASS);
}

#[test]
fn animation_flags() {
    assert!(RepeatMode::Infinite.is_infinite());
    assert!(!RepeatMode::Times(3).is_infinite());
    assert!(RestartBehaviour::EndValue.is_end_value());
    assert!(!RestartBehaviour::StartValue.is_end_value());
    let mut s = Stepped::new(4);
    assert_eq!(s.step_count, 4);
    assert!(!s.is_initial_step_single_frame && !s.is_final_step_single_frame);
    s.initial_step_single_frame();
    s.final_step_single_frame();
    assert!(s.is_initial_step_single_frame && s.is_final_step_single_frame);
}

#[test]
fn generated_sky_light_is_smooth() {
    let mut cm = flat_world(1, 1);
    cm.set_block(BlockPos { x: 4, y: 12, z: 4 }, DIRT);
    cm.set_block(BlockPos { x: 5, y: 12, z: 4 }, DIRT);
    cm.set_block(BlockPos { x: 4, y: 12, z: 5 }, DIRT);
    let reg = registry();
    generate_lights(&mut cm, &reg);
    // Under the overhang the light is lower than in the open.
    assert!(cm.get_sun_light(BlockPos { x: 4, y: 11, z: 4 }) < 15);
    for x in 0..15 {
        for y in 7..20 {
            for z in 0..15 {
                let p = BlockPos { x, y, z };
                if cm.contains_block(p) {
                    continue;
                }
                for q in [BlockPos { x: x + 1, y, z }, BlockPos { x, y: y + 1, z }, BlockPos { x, y, z: z + 1 }] {
                    if cm.contains_block(q) {
                        continue;
                    }
                    let a = cm.get_sun_light(p) as i32;
                    let b = cm.get_sun_light(q) as i32;
                    assert!((a - b).abs() <= 1, "{:?} {} vs {:?} {}", p, a, q, b);
                }
            }
        }
    }
}

#[test]
fn grid_bounds_and_surface_size() {
    let cm = ChunkManager::from_range(-1, 1, 0, 2);
    assert_eq!(cm.bounds(), ((-16, 0), (0, 16)));
    assert_eq!(cm.surface_size(), (32, 256, 32));
    let far = ChunkManager::from_range(3, 5, 2, 3);
    // The extent always includes chunk (0, 0).
    assert_eq!(far.bounds(), ((0, 0), (64, 32)));
    assert_eq!(far.surface_size(), (80, 256, 48));
}

#[test]
fn world_mesh_covers_every_chunk() {
    let cm = flat_world(2, 1);
    let reg = registry();
    let meshes = compute_world_mesh(&cm, &reg);
    assert_eq!(meshes.len(), 2);
    for (origin, mesh) in &meshes {
        assert_eq!(bucket(mesh, Face::Top).opaque.len(), 256);
        assert!(bucket(mesh, Face::Top).opaque.iter().all(|v| v.origin == *origin));
    }
    assert!(compute_chunk_mesh_at(&cm, &reg, ChunkPos { x: 1, z: 0 }).is_some());
    assert!(compute_chunk_mesh_at(&cm, &reg, ChunkPos { x: 2, z: 0 }).is_none());
}

#[test]
fn model_lookup_by_position() {
    let cm = flat_world(1, 1);
    let reg = registry();
    let grass = get_model_for(&cm, &reg, BlockPos { x: 1, y: 7, z: 1 }).expect("grass model");
    assert!(grass.tint.is_some());
    assert!(get_model_for(&cm, &reg, BlockPos { x: 1, y: 6, z: 1 }).unwrap().tint.is_none());
    assert!(get_model_for(&cm, &reg, BlockPos { x: 1, y: 8, z: 1 }).is_none());
    assert!(get_model_for(&cm, &reg, BlockPos { x: 40, y: 1, z: 1 }).is_none());
}

#[test]
fn removing_a_border_block_relights_and_remeshes() {
    let mut cm = flat_world(2, 1);
    let reg = registry();
    generate_lights(&mut cm, &reg);
    let edge = BlockPos { x: 16, y: 7, z: 5 };
    let chunks = remove_block(&mut cm, &reg, edge);
    assert_eq!(cm.get_block(edge), None);
    // Full sky light falls straight into the hole.
    assert_eq!(cm.get_sun_light(BlockPos { x: 16, y: 8, z: 5 }), 15);
    assert_eq!(cm.get_sun_light(edge), 15);
    assert_eq!(chunks.len(), 2);
    assert!(chunks.contains(&ChunkPos { x: 0, z: 0 }));
    assert!(chunks.contains(&ChunkPos { x: 1, z: 0 }));
    // Outside the loaded world nothing happens.
    assert!(remove_block(&mut cm, &reg, BlockPos { x: 100, y: 7, z: 5 }).is_empty());
    // At the ceiling the freed cell gets full sky light at once.
    let top = BlockPos { x: 3, y: 255, z: 3 };
    cm.set_block(top, DIRT);
    cm.set_light(top, true, 0);
    let inner = remove_block(&mut cm, &reg, top);
    assert_eq!(inner, vec![ChunkPos { x: 0, z: 0 }]);
    assert_eq!(cm.get_sun_light(top), 15);
}

#[test]
fn bounding_box_from_unrotated_elements() {
    let slab = Element::new(Cuboid { x: 0, y: 0, z: 0, width: 16, height: 8, depth: 16 }, None);
    let post = Element::new(Cuboid { x: 6, y: -2, z: 6, width: 4, height: 12, depth: 4 }, None);
    let tilted = Element::new(
        Cuboid { x: -8, y: -8, z: -8, width: 32, height: 32, depth: 32 },
        Some(ElementRotation { axis: Axis::Y, angle: 45, origin_x: 8, origin_y: 8, origin_z: 8 }),
    );
    let b = bounding_box_of(&vec![slab, post, tilted]);
    assert_eq!(b, Cuboid { x: 0, y: -2, z: 0, width: 16, height: 12, depth: 16 });
    assert_eq!(bounding_box_of(&vec![]), Cuboid::unit());
}

#[test]
fn mesh_quads_record_their_element() {
    let cm = flat_world(1, 1);
    let reg = registry();
    let mesh = compute_chunk_mesh(&cm, &reg, &cm.chunks[0]);
    let top = &bucket(&mesh, Face::Top).opaque;
    assert!(top.iter().all(|v| v.element == 0));
    for w in top.windows(2) {
        let a = (w[0].position.y, w[0].position.z, w[0].position.x);
        let b = (w[1].position.y, w[1].position.z, w[1].position.x);
        assert!(a < b);
    }
}
