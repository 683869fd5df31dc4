use meralus_world::chunk::{BlockPos, DIRT};
use meralus_world::chunk_manager::ChunkManager;
use meralus_world::collision::{
    block_box, collides, get_colliders, move_and_collide, move_axis, Aabb, Point, UNITS_PER_BLOCK,
};
use meralus_world::face::{Axis, Face};
use meralus_world::model::{BlockModel, Cuboid, Element, ModelRegistry};
use meralus_world::raycast::{calculate_intercept, raycast, HitType, RayBox};

const U: i64 = UNITS_PER_BLOCK;

fn point(x: f64, y: f64, z: f64) -> Point {
    Point { x: (x * U as f64) as i64, y: (y * U as f64) as i64, z: (z * U as f64) as i64 }
}

fn aabb(min: (f64, f64, f64), max: (f64, f64, f64)) -> Aabb {
    Aabb::new(point(min.0, min.1, min.2), point(max.0, max.1, max.2))
}

fn cube_registry() -> ModelRegistry {
    let mut reg = ModelRegistry::new();
    reg.register(
        DIRT,
        BlockModel {
            bounding_box: Cuboid::unit(),
            ambient_occlusion: true,
            tint: None,
            elements: vec![Element::new(Cuboid::unit(), None)],
        },
    );
    reg
}

#[test]
fn box_inside_a_solid_cell_collides() {
    let mut cm = ChunkManager::from_range(0, 1, 0, 1);
    cm.set_block(BlockPos { x: 2, y: 3, z: 4 }, DIRT);
    assert!(collides(&cm, &aabb((2.25, 3.25, 4.25), (2.75, 3.75, 4.75))));
    assert!(collides(&cm, &aabb((2.0, 3.0, 4.0), (3.0, 4.0, 5.0))));
    // Touching faces do not overlap.
    assert!(!collides(&cm, &aabb((3.0, 3.0, 4.0), (4.0, 4.0, 5.0))));
}

#[test]
fn box_in_the_gap_between_cells_is_free() {
    let mut cm = ChunkManager::from_range(0, 1, 0, 1);
    cm.set_block(BlockPos { x: 2, y: 3, z: 4 }, DIRT);
    cm.set_block(BlockPos { x: 4, y: 3, z: 4 }, DIRT);
    let between = aabb((3.0, 3.0, 4.0), (4.0, 4.0, 5.0));
    assert!(!collides(&cm, &between));
    assert!(!between.intersects(&block_box(BlockPos { x: 2, y: 3, z: 4 })));
    assert!(!between.intersects(&block_box(BlockPos { x: 4, y: 3, z: 4 })));
    assert!(collides(&cm, &aabb((3.0, 3.0, 4.0), (4.01, 4.0, 5.0))));
}

#[test]
fn axis_overlap_tests() {
    let a = aabb((0.0, 0.0, 0.0), (1.0, 1.0, 1.0));
    let b = aabb((0.5, 2.0, 0.5), (1.5, 3.0, 1.5));
    assert!(a.intersects_with_x(&b));
    assert!(!a.intersects_with_y(&b));
    assert!(a.intersects_with_z(&b));
    assert!(a.intersects_on_axis(&b, Axis::Y));
    assert!(!a.intersects_on_axis(&b, Axis::X));
    assert!(!a.intersects(&b));
}

#[test]
fn clip_axis_stops_at_the_obstacle() {
    let a = aabb((0.0, 0.0, 0.0), (1.0, 1.0, 1.0));
    let wall = aabb((0.0, 3.0, 0.0), (1.0, 4.0, 1.0));
    assert_eq!(a.clip_axis(&wall, 5 * U, Axis::Y), 2 * U);
    assert_eq!(a.clip_axis(&wall, U, Axis::Y), U);
    assert_eq!(a.clip_axis(&wall, -5 * U, Axis::Y), -5 * U);
    let floor = aabb((0.0, -2.0, 0.0), (1.0, -1.0, 1.0));
    assert_eq!(a.clip_axis(&floor, -5 * U, Axis::Y), -U);
    let aside = aabb((2.0, 3.0, 0.0), (3.0, 4.0, 1.0));
    assert_eq!(a.clip_axis(&aside, 5 * U, Axis::Y), 5 * U);
}

#[test]
fn movement_backs_off_before_a_wall() {
    let mut cm = ChunkManager::from_range(0, 1, 0, 1);
    cm.set_block(BlockPos { x: 5, y: 10, z: 5 }, DIRT);
    let player = aabb((3.0, 10.0, 5.25), (3.5, 10.5, 5.75));
    let free = move_axis(&cm, &player, U, Axis::X);
    assert_eq!(free, U);
    let blocked = move_axis(&cm, &player, 2 * U, Axis::X);
    // A full two-block step collides; one block (the first halving) is free.
    assert_eq!(blocked, U);
    assert!(!collides(&cm, &player.translated(blocked, Axis::X)));
    let away = move_axis(&cm, &player, -2 * U, Axis::X);
    assert_eq!(away, -2 * U);
    assert_eq!(move_axis(&cm, &player, 0, Axis::Z), 0);
}

#[test]
fn raycast_straight_down_hits_the_top_face() {
    let mut cm = ChunkManager::from_range(0, 1, 0, 1);
    let reg = cube_registry();
    cm.set_block(BlockPos { x: 0, y: 5, z: 0 }, DIRT);
    let origin = point(0.5, 10.5, 0.5);
    let target = point(0.5, -9.5, 0.5);
    let hit = raycast(&cm, &reg, origin, target, false).expect("hit");
    assert_eq!(hit.hit_type, HitType::Block);
    assert_eq!(hit.position, BlockPos { x: 0, y: 5, z: 0 });
    assert_eq!(hit.hit_side, Face::Top);
    assert_eq!(hit.hit_vec, point(0.5, 6.0, 0.5));
    assert_eq!(hit.t_num * 20, hit.t_den * 9 / 2);
}

#[test]
fn raycast_reports_last_empty_cell_on_request() {
    let cm = ChunkManager::from_range(0, 1, 0, 1);
    let reg = cube_registry();
    let origin = point(0.5, 10.5, 0.5);
    let target = point(3.5, 10.5, 0.5);
    assert_eq!(raycast(&cm, &reg, origin, target, false), None);
    let last = raycast(&cm, &reg, origin, target, true).expect("last empty cell");
    assert_eq!(last.hit_type, HitType::Empty);
    assert_eq!(last.position, BlockPos { x: 3, y: 10, z: 0 });
    assert_eq!(last.hit_side, Face::Left);
}

#[test]
fn raycast_from_inside_a_block_hits_it() {
    let mut cm = ChunkManager::from_range(0, 1, 0, 1);
    let reg = cube_registry();
    cm.set_block(BlockPos { x: 2, y: 2, z: 2 }, DIRT);
    let hit = raycast(&cm, &reg, point(1.5, 2.5, 2.5), point(2.5, 2.5, 2.5), false).expect("hit");
    assert_eq!(hit.position, BlockPos { x: 2, y: 2, z: 2 });
    assert_eq!(hit.hit_side, Face::Left);
    assert_eq!(hit.hit_vec, point(2.0, 2.5, 2.5));
}

#[test]
fn intercept_misses_a_box_beside_the_ray() {
    let b = RayBox { min: point(0.0, 0.0, 0.0), max: point(1.0, 1.0, 1.0) };
    let pos = BlockPos { x: 0, y: 0, z: 0 };
    assert_eq!(calculate_intercept(&b, point(2.0, 0.5, 2.0), point(2.0, 0.5, -2.0), pos), None);
    let hit = calculate_intercept(&b, point(0.5, 0.5, 3.0), point(0.5, 0.5, -3.0), pos).expect("hit");
    assert_eq!(hit.hit_side, Face::Front);
    assert_eq!(hit.hit_vec, point(0.5, 0.5, 1.0));
}

#[test]
fn colliders_by_side() {
    let mut cm = ChunkManager::from_range(0, 1, 0, 1);
    cm.set_block(BlockPos { x: 5, y: 9, z: 5 }, DIRT);
    cm.set_block(BlockPos { x: 6, y: 10, z: 5 }, DIRT);
    let body = aabb((5.2, 9.9, 5.2), (6.2, 11.0, 5.8));
    let c = get_colliders(&cm, point(5.5, 10.0, 5.5), &body);
    assert_eq!(c.bottom, Some(BlockPos { x: 5, y: 9, z: 5 }));
    assert_eq!(c.right, Some(BlockPos { x: 6, y: 10, z: 5 }));
    assert_eq!(c.top, None);
    assert_eq!(c.left, None);
    assert_eq!(c.front, None);
    assert_eq!(c.back, None);
}

#[test]
fn falling_box_lands_on_the_floor() {
    let mut cm = ChunkManager::from_range(0, 1, 0, 1);
    for x in 0..16 {
        for z in 0..16 {
            cm.set_block(BlockPos { x, y: 4, z }, DIRT);
        }
    }
    let body = aabb((2.2, 6.0, 2.2), (2.8, 7.8, 2.8));
    let taken = move_and_collide(&cm, &body, Point { x: U / 2, y: -3 * U, z: 0 });
    assert_eq!(taken.x, U / 2);
    // Steps of 3, 1.5 and then 0.75 blocks are tried; the last one is free.
    assert_eq!(taken.y, -3 * U / 4);
    assert_eq!(taken.z, 0);
    let landed = body.translated(taken.x, Axis::X).translated(taken.y, Axis::Y);
    assert!(!collides(&cm, &landed));
    assert_eq!(landed.min.y, 5 * U + U / 4);
}

#[test]
fn raycast_finds_a_block_beyond_empty_cells() {
    let mut cm = ChunkManager::from_range(0, 1, 0, 1);
    let reg = cube_registry();
    cm.set_block(BlockPos { x: 0, y: 5, z: 0 }, DIRT);
    cm.set_block(BlockPos { x: 0, y: 2, z: 0 }, DIRT);
    let hit = raycast(&cm, &reg, point(0.5, 10.5, 0.5), point(0.5, 0.5, 0.5), false).expect("hit");
    // The first block along the ray wins over the one further down.
    assert_eq!(hit.position, BlockPos { x: 0, y: 5, z: 0 });
    assert_eq!(hit.hit_side, Face::Top);
    assert_eq!(hit.hit_vec, point(0.5, 6.0, 0.5));
}

#[test]
fn movement_finds_no_free_step() {
    let mut cm = ChunkManager::from_range(0, 1, 0, 1);
    cm.set_block(BlockPos { x: 4, y: 10, z: 5 }, DIRT);
    // Touching the block already: every tried step enters it.
    let player = aabb((3.5, 10.0, 5.25), (4.0, 10.5, 5.75));
    assert_eq!(move_axis(&cm, &player, U, Axis::X), 0);
}
