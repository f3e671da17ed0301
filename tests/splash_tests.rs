use sandgrid::element::ParticleElement;
use sandgrid::grid::{ParticleMap, Placement};
use sandgrid::hitbox::{Hitbox, Point, Ratio};
use sandgrid::splash::{delete_water_in_hitbox, ratio_scaled, splash_count, water_splash, PlayerRatioWaterParticles};

#[test]
fn splash_volume_from_ratio_rise() {
    assert_eq!(splash_count(100_000, 600_000, 10, 250), 2);
    assert_eq!(splash_count(100_000, 600_000, 10, 500), 5);
    assert_eq!(splash_count(100_000, 600_000, 10, 0), 0);
    assert_eq!(splash_count(100_000, 600_000, 10, 1_000_000), 10);
    assert_eq!(splash_count(100_000, 600_000, 10, 250), splash_count(100_000, 600_000, 10, 250));
}

#[test]
fn splash_needs_threshold() {
    assert_eq!(splash_count(300_000, 600_000, 10, 500), 0);
    assert_eq!(splash_count(299_999, 600_000, 10, 500), 3);
    assert_eq!(splash_count(0, 0, 10, 500), 0);
    assert_eq!(splash_count(0, 1_000_000, 4, 500), 4);
}

#[test]
fn splash_never_exceeds_occupied() {
    for speed in [0u32, 1, 250, 500, 10_000, u32::MAX] {
        for occupied in [0u64, 1, 10, u64::MAX] {
            assert!(splash_count(0, 1_000_000, occupied, speed) <= occupied);
        }
    }
}

#[test]
fn ratio_in_millionths() {
    assert_eq!(ratio_scaled(Ratio { count: 6, total: 10 }), 600_000);
    assert_eq!(ratio_scaled(Ratio { count: 1, total: 3 }), 333_333);
    assert_eq!(ratio_scaled(Ratio { count: 0, total: 0 }), 0);
    assert_eq!(ratio_scaled(Ratio { count: 5, total: 5 }), 1_000_000);
}

fn pool() -> ParticleMap {
    let mut map = ParticleMap::new(10, 10);
    for pos in [(1, 1), (2, 1), (3, 1), (4, 1), (5, 1), (1, 2), (7, 1)] {
        map.insert_at(pos, ParticleElement::Water, Placement::ReplaceAll);
    }
    map
}

#[test]
fn player_splash_removes_water_in_box() {
    let mut map = pool();
    let hb = Hitbox::new(16, 4, Point { x: 12, y: 6 });
    let state = PlayerRatioWaterParticles { number: 100_000 };
    let (ratio, deleted) = water_splash(&state, &hb, &mut map, 500);
    assert_eq!(state.number, 100_000);
    assert_eq!(ratio, 600_000);
    assert_eq!(deleted, 3);
    for pos in [(1, 1), (1, 2), (2, 1)] {
        assert_eq!(map.get_element_at(pos), ParticleElement::Air);
    }
    for pos in [(3, 1), (4, 1), (5, 1), (7, 1)] {
        assert_eq!(map.get_element_at(pos), ParticleElement::Water);
    }
    let state = PlayerRatioWaterParticles { number: ratio };
    let (again_ratio, again) = water_splash(&state, &hb, &mut map, 500);
    assert_eq!(again, 0);
    assert_eq!(again_ratio, 300_000);
}

#[test]
fn delete_stops_at_available_water() {
    let mut map = pool();
    let hb = Hitbox::new(16, 4, Point { x: 12, y: 6 });
    assert_eq!(delete_water_in_hitbox(&mut map, &hb, 100), 6);
    assert_eq!(hb.number_of_water_grid_tiles_colliding(&map), 0);
    assert_eq!(map.get_element_at((7, 1)), ParticleElement::Water);
}

#[test]
fn same_splash_twice_removes_same_cells() {
    let hb = Hitbox::new(16, 4, Point { x: 12, y: 6 });
    let state = PlayerRatioWaterParticles { number: 100_000 };
    let mut a = pool();
    let mut b = pool();
    let ra = water_splash(&state, &hb, &mut a, 300);
    let rb = water_splash(&state, &hb, &mut b, 300);
    assert_eq!(ra, rb);
    assert_eq!(ra, (600_000, 1));
    for x in 0..10 {
        for y in 0..10 {
            assert_eq!(a.get_particle_at((x, y)), b.get_particle_at((x, y)));
        }
    }
    assert_eq!(a.get_element_at((1, 1)), ParticleElement::Air);
    assert_eq!(a.get_element_at((1, 2)), ParticleElement::Water);
}

#[test]
fn degenerate_box_splashes_nothing() {
    let mut map = pool();
    let hb = Hitbox::new(0, 4, Point { x: 12, y: 6 });
    let state = PlayerRatioWaterParticles { number: 0 };
    assert_eq!(water_splash(&state, &hb, &mut map, 500), (0, 0));
    assert_eq!(delete_water_in_hitbox(&mut map, &hb, 5), 0);
    assert_eq!(map.get_element_at((1, 1)), ParticleElement::Water);
}
