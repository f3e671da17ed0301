use sandgrid::actor::Health;
use sandgrid::element::ParticleElement;
use sandgrid::grid::{Particle, ParticleMap, Placement};

#[test]
fn new_grid_is_air() {
    let map = ParticleMap::new(3, 2);
    assert_eq!(map.width(), 3);
    assert_eq!(map.height(), 2);
    for x in -1..4 {
        for y in -1..3 {
            assert_eq!(map.get_element_at((x, y)), ParticleElement::Air);
        }
    }
}

#[test]
fn outside_reads_air() {
    let mut map = ParticleMap::new(2, 2);
    assert!(!map.insert_at((5, 0), ParticleElement::Water, Placement::ReplaceAll));
    assert!(!map.insert_at((-1, 0), ParticleElement::Water, Placement::ReplaceAll));
    assert_eq!(map.get_element_at((5, 0)), ParticleElement::Air);
    assert_eq!(map.get_element_at((i32::MIN, i32::MAX)), ParticleElement::Air);
}

#[test]
fn insert_follows_policy() {
    let mut map = ParticleMap::new(4, 4);
    assert!(map.insert_at((1, 1), ParticleElement::Water, Placement::ReplaceOnlyAir));
    assert!(!map.insert_at((1, 1), ParticleElement::Lava, Placement::ReplaceOnlyAir));
    assert_eq!(map.get_element_at((1, 1)), ParticleElement::Water);
    assert!(map.insert_at((1, 1), ParticleElement::Lava, Placement::ReplaceAll));
    assert_eq!(map.get_element_at((1, 1)), ParticleElement::Lava);
    assert_eq!(map.get_element_at((1, 2)), ParticleElement::Air);
}

#[test]
fn delete_turns_cell_to_air() {
    let mut map = ParticleMap::new(4, 4);
    map.insert_at((2, 3), ParticleElement::Slime, Placement::ReplaceAll);
    map.insert_at((2, 2), ParticleElement::Slime, Placement::ReplaceAll);
    map.delete_at((2, 3));
    assert_eq!(map.get_element_at((2, 3)), ParticleElement::Air);
    assert_eq!(map.get_element_at((2, 2)), ParticleElement::Slime);
    map.delete_at((2, 3));
    map.delete_at((9, 9));
    assert_eq!(map.get_element_at((2, 3)), ParticleElement::Air);
}

#[test]
fn velocity_only_on_movable_particles() {
    let mut map = ParticleMap::new(4, 4);
    map.insert_at((0, 0), ParticleElement::Water, Placement::ReplaceAll);
    map.insert_at((1, 0), ParticleElement::HealingSpring, Placement::ReplaceAll);
    map.give_velocity((0, 0), 3, -7);
    map.give_velocity((1, 0), 3, -7);
    map.give_velocity((2, 0), 3, -7);
    assert_eq!(map.get_particle_at((0, 0)), Particle { element: ParticleElement::Water, vx: 3, vy: -7 });
    assert_eq!(map.get_particle_at((1, 0)), Particle { element: ParticleElement::HealingSpring, vx: 0, vy: 0 });
    assert_eq!(map.get_particle_at((2, 0)), Particle { element: ParticleElement::Air, vx: 0, vy: 0 });
}

#[test]
fn movable_elements() {
    assert!(ParticleElement::Water.is_movable());
    assert!(ParticleElement::ToxicGas.is_movable());
    assert!(!ParticleElement::Air.is_movable());
    assert!(!ParticleElement::HealingSpring.is_movable());
}

#[test]
fn health_starts_full() {
    assert_eq!(Health::new().hp, 100);
}
