use sandgrid::coords::convert_to_grid_position;
use sandgrid::element::ParticleElement;
use sandgrid::grid::{ParticleMap, Placement};
use sandgrid::hitbox::{Hitbox, Point};

fn hb(width: u32, height: u32, x: i32, y: i32) -> Hitbox {
    Hitbox::new(width, height, Point { x, y })
}

#[test]
fn collision_is_symmetric() {
    let boxes = vec![
        hb(10, 10, 0, 0),
        hb(4, 20, 6, 3),
        hb(1, 1, 5, 5),
        hb(30, 2, -10, 0),
        hb(8, 8, 100, 100),
        hb(3, 5, 1, -2),
    ];
    for a in &boxes {
        for b in &boxes {
            assert_eq!(a.collides_with(b), b.collides_with(a));
        }
    }
}

#[test]
fn box_overlaps_itself() {
    for a in [hb(10, 10, 0, 0), hb(1, 1, -7, 3), hb(3, 9, 1000, -1000)] {
        assert!(a.collides_with(&a));
    }
}

#[test]
fn moved_box_separates() {
    let a = hb(10, 6, 0, 0);
    assert!(!a.collides_with(&hb(10, 6, 10, 0)));
    assert!(!a.collides_with(&hb(10, 6, -10, 0)));
    assert!(!a.collides_with(&hb(10, 6, 0, 6)));
    assert!(!a.collides_with(&hb(10, 6, 0, -6)));
    assert!(!a.collides_with(&hb(10, 6, 25, 0)));
    assert!(a.collides_with(&hb(10, 6, 9, 0)));
    assert!(a.collides_with(&hb(10, 6, 0, -5)));
}

#[test]
fn touching_edges_do_not_collide() {
    let a = hb(4, 4, 0, 0);
    let b = hb(4, 4, 4, 2);
    assert!(!a.collides_with(&b));
    assert!(!b.collides_with(&a));
}

#[test]
fn any_collision_checks_every_box() {
    let a = hb(4, 4, 0, 0);
    let others = vec![hb(2, 2, 50, 50), hb(2, 2, 1, 1)];
    assert!(a.all_player_collisions(&others));
    assert!(a.all_enemy_collisions(&others));
    assert!(a.all_ship_collisions(&others));
    assert!(a.player_enemy_collision(&others));
    let far = vec![hb(2, 2, 50, 50)];
    assert!(!a.all_player_collisions(&far));
    assert!(!a.player_enemy_collision(&Vec::new()));
}

#[test]
fn cell_centres_round_trip() {
    for cx in [-3i32, -1, 0, 1, 2, 17, 1000, i32::MAX, i32::MIN] {
        for cy in [-5i32, 0, 4, i32::MIN, i32::MAX] {
            let x = cx as i64 * 4 + 2;
            let y = cy as i64 * 4 + 2;
            assert_eq!(convert_to_grid_position(x, y), (cx, cy));
        }
    }
}

#[test]
fn grid_position_rounds_down() {
    assert_eq!(convert_to_grid_position(0, 3), (0, 0));
    assert_eq!(convert_to_grid_position(4, 7), (1, 1));
    assert_eq!(convert_to_grid_position(-1, -4), (-1, -1));
    assert_eq!(convert_to_grid_position(-5, -8), (-2, -2));
}

#[test]
fn tile_range_of_box() {
    let a = hb(8, 8, 8, 8);
    assert_eq!(a.get_grid_tiles_to_check(), (1, 3, 3, 1));
    let b = hb(16, 4, 12, 6);
    assert_eq!(b.get_grid_tiles_to_check(), (1, 2, 5, 1));
    assert!(b.is_particle_in_hitbox((1, 1)));
    assert!(b.is_particle_in_hitbox((5, 2)));
    assert!(!b.is_particle_in_hitbox((6, 2)));
    assert!(!b.is_particle_in_hitbox((3, 3)));
    assert!(!b.is_particle_in_hitbox((0, 1)));
}

fn sample_map() -> ParticleMap {
    let mut map = ParticleMap::new(10, 10);
    let cells = [
        ((1, 1), ParticleElement::Water),
        ((2, 1), ParticleElement::Water),
        ((3, 1), ParticleElement::Lava),
        ((1, 2), ParticleElement::QuickSand),
        ((2, 2), ParticleElement::Slime),
        ((3, 2), ParticleElement::HealingSpring),
        ((1, 3), ParticleElement::ToxicGas),
        ((9, 9), ParticleElement::Water),
    ];
    for (pos, e) in cells {
        assert!(map.insert_at(pos, e, Placement::ReplaceOnlyAir));
    }
    map
}

#[test]
fn ratios_count_cells_in_range() {
    let map = sample_map();
    let a = hb(8, 8, 8, 8);
    let water = a.ratio_of_water_grid_tiles(&map);
    assert_eq!((water.count, water.total), (2, 9));
    assert_eq!(a.ratio_of_lava_grid_tiles(&map).count, 1);
    assert_eq!(a.ratio_of_quicksand_grid_tiles(&map).count, 1);
    assert_eq!(a.ratio_of_slime_grid_tiles(&map).count, 1);
    assert_eq!(a.ratio_of_healing_spring_grid_tiles(&map).count, 1);
    assert_eq!(a.ratio_of_toxic_gas_tiles(&map).count, 1);
    assert_eq!(a.number_of_water_grid_tiles_colliding(&map), 2);
    assert!(a.are_any_grid_tiles_water(&map));
    assert!(!hb(4, 4, 30, 30).are_any_grid_tiles_water(&map));
}

#[test]
fn ratios_partition_the_range() {
    let map = sample_map();
    for a in [hb(8, 8, 8, 8), hb(40, 40, 20, 20), hb(3, 30, 5, 5), hb(12, 12, 38, 38)] {
        let elements = [
            ParticleElement::Air,
            ParticleElement::Water,
            ParticleElement::Lava,
            ParticleElement::QuickSand,
            ParticleElement::Slime,
            ParticleElement::HealingSpring,
            ParticleElement::ToxicGas,
        ];
        let mut sum = 0u64;
        for e in elements {
            let r = a.ratio_of_element(&map, e);
            assert!(r.count <= r.total);
            assert_eq!(r.total, a.ratio_of_water_grid_tiles(&map).total);
            sum += r.count;
        }
        assert_eq!(sum, a.ratio_of_water_grid_tiles(&map).total);
    }
}

#[test]
fn box_outside_grid_sees_nothing() {
    let map = sample_map();
    let far = hb(8, 8, 400, -400);
    assert_eq!(far.ratio_of_water_grid_tiles(&map).count, 0);
    assert_eq!(far.ratio_of_lava_grid_tiles(&map).count, 0);
    assert_eq!(far.ratio_of_quicksand_grid_tiles(&map).count, 0);
    assert_eq!(far.ratio_of_slime_grid_tiles(&map).count, 0);
    assert_eq!(far.ratio_of_healing_spring_grid_tiles(&map).count, 0);
    assert_eq!(far.ratio_of_toxic_gas_tiles(&map).count, 0);
    for x in 0..10 {
        for y in 0..10 {
            assert!(!far.is_particle_in_hitbox((x, y)));
        }
    }
}

#[test]
fn odd_sizes_use_exact_half_edges() {
    assert!(hb(2, 2, 0, 0).collides_with(&hb(1, 1, 1, 0)));
    assert!(hb(1, 1, 1, 0).collides_with(&hb(2, 2, 0, 0)));
    assert!(!hb(1, 1, 0, 0).collides_with(&hb(1, 1, 1, 0)));
    assert!(hb(3, 3, 0, 0).collides_with(&hb(1, 1, 1, 1)));
    assert!(!hb(3, 3, 0, 0).collides_with(&hb(1, 1, 2, 0)));
    assert_eq!(hb(1, 1, 0, 0).get_grid_tiles_to_check(), (-1, 0, 0, -1));
    assert_eq!(hb(3, 3, 4, 4).get_grid_tiles_to_check(), (0, 1, 1, 0));
    assert_eq!(hb(1, 1, 4, 4).get_grid_tiles_to_check(), (0, 1, 1, 0));
}

#[test]
fn degenerate_box_samples_nothing() {
    let map = sample_map();
    for a in [hb(0, 0, 6, 6), hb(0, 8, 6, 6), hb(8, 0, 6, 6)] {
        let r = a.ratio_of_water_grid_tiles(&map);
        assert_eq!((r.count, r.total), (0, 0));
        assert_eq!(a.ratio_of_element(&map, ParticleElement::Air).total, 0);
        assert_eq!(a.number_of_water_grid_tiles_colliding(&map), 0);
        assert!(!a.are_any_grid_tiles_water(&map));
        for x in -2..12 {
            for y in -2..12 {
                assert!(!a.is_particle_in_hitbox((x, y)));
            }
        }
    }
}
