use sandgrid::element::ParticleElement;
use sandgrid::grid::{ParticleMap, Placement};
use sandgrid::sim::{candidate_moves, find_target, step, step_cell};

fn only(map: &ParticleMap, pos: (i32, i32), e: ParticleElement) {
    for x in 0..map.width() as i32 {
        for y in 0..map.height() as i32 {
            let want = if (x, y) == pos { e } else { ParticleElement::Air };
            assert_eq!(map.get_element_at((x, y)), want, "cell {:?}", (x, y));
        }
    }
}

#[test]
fn lone_water_falls_one_cell_per_tick() {
    let mut map = ParticleMap::new(5, 5);
    map.insert_at((2, 3), ParticleElement::Water, Placement::ReplaceAll);
    step(&mut map, 0);
    only(&map, (2, 2), ParticleElement::Water);
    step(&mut map, 1);
    only(&map, (2, 1), ParticleElement::Water);
    step(&mut map, 2);
    only(&map, (2, 0), ParticleElement::Water);
}

#[test]
fn water_on_floor_spreads_sideways_once() {
    let mut map = ParticleMap::new(5, 5);
    map.insert_at((0, 0), ParticleElement::Water, Placement::ReplaceAll);
    step(&mut map, 1);
    only(&map, (1, 0), ParticleElement::Water);
    step(&mut map, 3);
    only(&map, (2, 0), ParticleElement::Water);
}

#[test]
fn gas_rises_one_cell() {
    let mut map = ParticleMap::new(5, 5);
    map.insert_at((2, 1), ParticleElement::ToxicGas, Placement::ReplaceAll);
    step(&mut map, 0);
    only(&map, (2, 2), ParticleElement::ToxicGas);
}

#[test]
fn water_slides_diagonally_when_blocked() {
    let mut map = ParticleMap::new(5, 5);
    map.insert_at((2, 0), ParticleElement::HealingSpring, Placement::ReplaceAll);
    map.insert_at((2, 1), ParticleElement::Water, Placement::ReplaceAll);
    step(&mut map, 0);
    assert_eq!(map.get_element_at((1, 0)), ParticleElement::Water);
    assert_eq!(map.get_element_at((2, 1)), ParticleElement::Air);
    assert_eq!(map.get_element_at((2, 0)), ParticleElement::HealingSpring);
}

#[test]
fn stacked_column_settles() {
    let mut map = ParticleMap::new(1, 4);
    map.insert_at((0, 2), ParticleElement::QuickSand, Placement::ReplaceAll);
    map.insert_at((0, 3), ParticleElement::QuickSand, Placement::ReplaceAll);
    step(&mut map, 0);
    assert_eq!(map.get_element_at((0, 1)), ParticleElement::QuickSand);
    assert_eq!(map.get_element_at((0, 2)), ParticleElement::QuickSand);
    assert_eq!(map.get_element_at((0, 3)), ParticleElement::Air);
}

#[test]
fn spring_and_air_stay() {
    assert!(candidate_moves(ParticleElement::HealingSpring, 0).is_empty());
    assert!(candidate_moves(ParticleElement::Air, 1).is_empty());
    assert_eq!(candidate_moves(ParticleElement::Lava, 1), vec![(0, -1), (1, -1), (-1, -1)]);
    let mut map = ParticleMap::new(3, 3);
    map.insert_at((1, 1), ParticleElement::HealingSpring, Placement::ReplaceAll);
    assert_eq!(find_target(&map, 1, 1, 0), None);
    step(&mut map, 0);
    only(&map, (1, 1), ParticleElement::HealingSpring);
}

fn census(map: &ParticleMap) -> Vec<usize> {
    let elements = [
        ParticleElement::Air,
        ParticleElement::Water,
        ParticleElement::Lava,
        ParticleElement::QuickSand,
        ParticleElement::Slime,
        ParticleElement::HealingSpring,
        ParticleElement::ToxicGas,
    ];
    let mut counts = vec![0usize; elements.len()];
    for x in 0..map.width() as i32 {
        for y in 0..map.height() as i32 {
            let e = map.get_element_at((x, y));
            let k = elements.iter().position(|f| *f == e).unwrap();
            counts[k] += 1;
        }
    }
    counts
}

#[test]
fn step_keeps_every_particle() {
    let mut map = ParticleMap::new(6, 6);
    let cells = [
        ((0, 5), ParticleElement::Water),
        ((1, 5), ParticleElement::Water),
        ((2, 4), ParticleElement::Lava),
        ((3, 3), ParticleElement::Slime),
        ((4, 0), ParticleElement::ToxicGas),
        ((5, 2), ParticleElement::QuickSand),
        ((2, 0), ParticleElement::HealingSpring),
        ((2, 1), ParticleElement::Water),
    ];
    for (pos, e) in cells {
        map.insert_at(pos, e, Placement::ReplaceAll);
    }
    let before = census(&map);
    for tick in 0..20u64 {
        step(&mut map, tick);
        assert_eq!(census(&map), before);
    }
}

#[test]
fn marked_cell_is_not_moved_again() {
    let mut map = ParticleMap::new(3, 3);
    map.insert_at((1, 2), ParticleElement::Water, Placement::ReplaceAll);
    let mut moved = vec![false; 9];
    moved[2 * 3 + 1] = true;
    step_cell(&mut map, &mut moved, 1, 2, 0);
    only(&map, (1, 2), ParticleElement::Water);
    moved[2 * 3 + 1] = false;
    step_cell(&mut map, &mut moved, 1, 2, 0);
    only(&map, (1, 1), ParticleElement::Water);
    assert!(moved[1 * 3 + 1]);
}
