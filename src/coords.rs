use vstd::prelude::*;

verus! {

/// Edge length of one grid cell, in world units.
pub const PARTICLE_SIZE: i64 = 4;

/// The cell index along one axis of a world coordinate: floor division by the
/// cell size.
pub open spec fn grid_coord(v: int) -> int {
    v / (PARTICLE_SIZE as int)
}

/// World coordinates whose cell index fits in an `i32`.
pub open spec fn in_world(v: int) -> bool {
    (i32::MIN as int) * (PARTICLE_SIZE as int) <= v < (i32::MAX as int + 1) * (PARTICLE_SIZE as int)
}

/// The world coordinate of the centre of the cell with index `c` along one axis.
pub open spec fn cell_center(c: int) -> int {
    c * (PARTICLE_SIZE as int) + (PARTICLE_SIZE as int) / 2
}

/// Maps a world position to the grid cell that contains it. This is the only
/// conversion from world space to grid space.
pub fn convert_to_grid_position(x: i64, y: i64) -> (r: (i32, i32))
    requires
        in_world(x as int),
        in_world(y as int),
    ensures
        r.0 as int == grid_coord(x as int),
        r.1 as int == grid_coord(y as int),
{
    (axis_to_grid(x), axis_to_grid(y))
}

fn axis_to_grid(v: i64) -> (r: i32)
    requires
        in_world(v as int),
    ensures
        r as int == grid_coord(v as int),
{
    let q = v.checked_div_euclid(PARTICLE_SIZE);
    match q {
        Some(c) => c as i32,
        None => 0,
    }
}

/// Converting the centre of any cell gives back that cell.
pub proof fn lemma_cell_center_round_trip(cx: i32, cy: i32)
    ensures
        in_world(cell_center(cx as int)),
        in_world(cell_center(cy as int)),
        grid_coord(cell_center(cx as int)) == cx as int,
        grid_coord(cell_center(cy as int)) == cy as int,
{
    lemma_axis_round_trip(cx as int);
    lemma_axis_round_trip(cy as int);
}

proof fn lemma_axis_round_trip(c: int)
    requires
        i32::MIN <= c <= i32::MAX,
    ensures
        in_world(cell_center(c)),
        grid_coord(cell_center(c)) == c,
{
    let t = PARTICLE_SIZE as int;
    vstd::arithmetic::div_mod::lemma_fundamental_div_mod_converse(cell_center(c), t, c, t / 2);
}

} // verus!
