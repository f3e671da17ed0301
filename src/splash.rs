use vstd::prelude::*;
use crate::element::ParticleElement;
use crate::grid::{air, Particle, ParticleMap};
use crate::hitbox::{col_count, lemma_col_frame, lemma_rect_frame, rect_count, Hitbox, Ratio};

verus! {

/// Fixed-point scale of a ratio: one whole is this many parts.
pub const RATIO_SCALE: u32 = 1_000_000;

/// A splash needs the water ratio to grow by more than this factor in one tick.
pub const SPLASH_THRESHOLD: u32 = 2;

/// At this speed the whole rise of the ratio is splashed; slower actors splash
/// proportionally less.
pub const PLAYER_MAX_SPEED: u32 = 500;

/// The player's water ratio of the previous tick, in parts of `RATIO_SCALE`.
#[derive(Clone, Copy, Debug, PartialEq, Eq, Structural)]
pub struct PlayerRatioWaterParticles {
    pub number: u32,
}

/// A ratio in parts of `RATIO_SCALE`, rounded down; an empty sample is zero.
pub open spec fn scaled(count: int, total: int) -> int {
    if total == 0 {
        0
    } else {
        (count * RATIO_SCALE) / total
    }
}

/// Whether the ratio rose past the threshold: `new > SPLASH_THRESHOLD * prev`.
/// From a previous ratio of zero any water at all triggers.
pub open spec fn splash_triggered(prev: int, new: int) -> bool {
    new > SPLASH_THRESHOLD * prev
}

/// How many water cells a triggered splash removes: the rise of the ratio,
/// times the occupied count, times the speed over `PLAYER_MAX_SPEED`,
/// rounded down and never more than the occupied count.
pub open spec fn splash_volume(prev: int, new: int, occupied: int, speed: int) -> int {
    if !splash_triggered(prev, new) {
        0
    } else {
        let v = (new - prev) * occupied * speed / ((RATIO_SCALE as int) * (PLAYER_MAX_SPEED as int));
        if v < occupied {
            v
        } else {
            occupied
        }
    }
}

/// The water cells of the tile range of `hb` that come before cell `(a, b)`
/// when the range is scanned column by column from the left, each column from
/// the bottom up.
pub open spec fn water_before(m: &ParticleMap, hb: &Hitbox, a: int, b: int) -> int {
    let (tlx, tly, brx, bry) = hb.tiles();
    (rect_count(m, tlx, a, bry, tly + 1, ParticleElement::Water) + col_count(m, a, bry, b, ParticleElement::Water)) as int
}

/// Cell `(a, b)` of `m` once the first `n` water cells of the tile range of
/// `hb`, in scan order, have been turned into air.
pub open spec fn splashed(m: &ParticleMap, hb: &Hitbox, n: int, a: int, b: int) -> Particle {
    if hb.covers(a, b) && m.element_at(a, b) == ParticleElement::Water && water_before(m, hb, a, b) < n {
        air()
    } else {
        m.particle_at(a, b)
    }
}

/// A ratio in parts of `RATIO_SCALE`.
pub fn ratio_scaled(r: Ratio) -> (s: u32)
    requires
        r.count <= r.total,
    ensures
        s == scaled(r.count as int, r.total as int),
        s <= RATIO_SCALE,
{
    if r.total == 0 {
        0
    } else {
        let n: u128 = r.count as u128 * RATIO_SCALE as u128;
        proof {
            vstd::arithmetic::div_mod::lemma_div_is_ordered(
                (r.count * RATIO_SCALE) as int,
                (r.total * RATIO_SCALE) as int,
                r.total as int,
            );
            vstd::arithmetic::div_mod::lemma_div_multiples_vanish(RATIO_SCALE as int, r.total as int);
            assert((r.total * RATIO_SCALE) as int == r.total * (RATIO_SCALE as int)) by (nonlinear_arith);
        }
        (n / r.total as u128) as u32
    }
}

/// The number of water cells to splash when the ratio goes from `prev` to
/// `new` (both in parts of `RATIO_SCALE`) with `occupied` water cells in the
/// box, at `speed`.
pub fn splash_count(prev: u32, new: u32, occupied: u64, speed: u32) -> (r: u64)
    requires
        prev <= RATIO_SCALE,
        new <= RATIO_SCALE,
    ensures
        r == splash_volume(prev as int, new as int, occupied as int, speed as int),
        r <= occupied,
{
    if new as u64 <= SPLASH_THRESHOLD as u64 * prev as u64 {
        return 0;
    }
    let rise: u128 = (new - prev) as u128;
    proof {
        assert(rise * occupied <= 1_000_000 * 0x1_0000_0000_0000_0000) by (nonlinear_arith)
            requires
                rise <= 1_000_000,
                occupied < 0x1_0000_0000_0000_0000,
        ;
        assert(rise * occupied * speed < 0x1_0000_0000_0000_0000_0000_0000_0000_0000) by (nonlinear_arith)
            requires
                0 <= rise * occupied <= 1_000_000 * 0x1_0000_0000_0000_0000,
                speed < 0x1_0000_0000,
        ;
    }
    let product: u128 = rise * occupied as u128 * speed as u128;
    let v: u128 = product / (RATIO_SCALE as u128 * PLAYER_MAX_SPEED as u128);
    if v < occupied as u128 {
        v as u64
    } else {
        occupied
    }
}

/// Removes the first `n` water cells of the tile range of `hb`, scanning the
/// columns left to right and each column bottom to top; all of them if there
/// are fewer. Returns how many were removed.
pub fn delete_water_in_hitbox(map: &mut ParticleMap, hb: &Hitbox, n: u64) -> (deleted: u64)
    requires
        old(map).wf(),
    ensures
        final(map).wf(),
        final(map).spec_width() == old(map).spec_width(),
        final(map).spec_height() == old(map).spec_height(),
        deleted as int == if (n as int) < hb.count_of(old(map), ParticleElement::Water) {
            n as int
        } else {
            hb.count_of(old(map), ParticleElement::Water) as int
        },
        hb.count_of(final(map), ParticleElement::Water) == hb.count_of(old(map), ParticleElement::Water) - deleted,
        forall|x: int, y: int| #[trigger] final(map).particle_at(x, y) == splashed(old(map), hb, n as int, x, y),
{
    proof {
        hb.lemma_tiles_bounded();
    }
    if hb.width == 0 || hb.height == 0 {
        return 0;
    }
    let ghost m0 = *map;
    let ghost nn = n as int;
    let (tlx, tly, brx, bry) = hb.get_grid_tiles_to_check();
    let mut deleted: u64 = 0;
    let mut x: i32 = tlx;
    while x <= brx
        invariant
            map.wf(),
            !hb.degenerate(),
            map.spec_width() == m0.spec_width(),
            map.spec_height() == m0.spec_height(),
            -0x4000_0000 <= tlx <= x <= brx + 1,
            brx < 0x4000_0000,
            -0x4000_0000 <= bry <= tly < 0x4000_0000,
            (tlx as int, tly as int, brx as int, bry as int) == hb.tiles(),
            nn == n,
            forall|i: int, j: int| #[trigger] map.particle_at(i, j) == if i < x {
                splashed(&m0, hb, nn, i, j)
            } else {
                m0.particle_at(i, j)
            },
            rect_count(map, tlx as int, x as int, bry as int, tly + 1, ParticleElement::Water) + deleted
                == rect_count(&m0, tlx as int, x as int, bry as int, tly + 1, ParticleElement::Water),
            deleted as int == if nn < rect_count(&m0, tlx as int, x as int, bry as int, tly + 1, ParticleElement::Water) {
                nn
            } else {
                rect_count(&m0, tlx as int, x as int, bry as int, tly + 1, ParticleElement::Water) as int
            },
        decreases brx + 1 - x,
    {
        let mut y: i32 = bry;
        while y <= tly
            invariant
                map.wf(),
                !hb.degenerate(),
                map.spec_width() == m0.spec_width(),
                map.spec_height() == m0.spec_height(),
                -0x4000_0000 <= tlx <= x <= brx,
                brx < 0x4000_0000,
                -0x4000_0000 <= bry <= y <= tly + 1,
                tly < 0x4000_0000,
                (tlx as int, tly as int, brx as int, bry as int) == hb.tiles(),
                nn == n,
                forall|i: int, j: int| #[trigger] map.particle_at(i, j) == if i < x || (i == x && j < y) {
                    splashed(&m0, hb, nn, i, j)
                } else {
                    m0.particle_at(i, j)
                },
                rect_count(map, tlx as int, x as int, bry as int, tly + 1, ParticleElement::Water) + col_count(map, x as int, bry as int, y as int, ParticleElement::Water) + deleted
                    == rect_count(&m0, tlx as int, x as int, bry as int, tly + 1, ParticleElement::Water) + col_count(&m0, x as int, bry as int, y as int, ParticleElement::Water),
                deleted as int == if nn < water_before(&m0, hb, x as int, y as int) {
                    nn
                } else {
                    water_before(&m0, hb, x as int, y as int)
                },
            decreases tly + 1 - y,
        {
            let ghost before = *map;
            proof {
                assert(before.particle_at(x as int, y as int) == m0.particle_at(x as int, y as int));
            }
            if deleted < n && map.get_element_at((x, y)) == ParticleElement::Water {
                map.delete_at((x, y));
                deleted = deleted + 1;
                proof {
                    assert forall|i: int, j: int| tlx <= i < x && bry <= j < tly + 1 implies #[trigger] map.element_at(i, j)
                        == before.element_at(i, j) by {}
                    lemma_rect_frame(map, &before, tlx as int, x as int, bry as int, tly + 1, ParticleElement::Water);
                    assert forall|j: int| bry <= j < y implies #[trigger] map.element_at(x as int, j)
                        == before.element_at(x as int, j) by {}
                    lemma_col_frame(map, &before, x as int, bry as int, y as int, ParticleElement::Water);
                }
            }
            proof {
                assert(map.particle_at(x as int, y as int) == splashed(&m0, hb, nn, x as int, y as int));
            }
            y = y + 1;
        }
        x = x + 1;
    }
    deleted
}

/// One tick of the splash rule for an actor with box `hb` moving at `speed`,
/// whose water ratio on the previous tick is stored in
/// `player_ratio_water_particles`.
///
/// Samples the water ratio of the box, and when it rose past the threshold
/// removes `splash_volume` water cells from the box. Returns the sampled
/// ratio, for the caller to store for the next tick, and how many cells were
/// removed.
pub fn water_splash(
    player_ratio_water_particles: &PlayerRatioWaterParticles,
    hb: &Hitbox,
    map: &mut ParticleMap,
    speed: u32,
) -> (r: (u32, u64))
    requires
        old(map).wf(),
        player_ratio_water_particles.number <= RATIO_SCALE,
    ensures
        final(map).wf(),
        final(map).spec_width() == old(map).spec_width(),
        final(map).spec_height() == old(map).spec_height(),
        r.0 == scaled(hb.count_of(old(map), ParticleElement::Water) as int, hb.cell_total()),
        r.0 <= RATIO_SCALE,
        r.1 == splash_volume(
            player_ratio_water_particles.number as int,
            r.0 as int,
            hb.count_of(old(map), ParticleElement::Water) as int,
            speed as int,
        ),
        r.1 <= hb.count_of(old(map), ParticleElement::Water),
        hb.count_of(final(map), ParticleElement::Water) == hb.count_of(old(map), ParticleElement::Water) - r.1,
        forall|x: int, y: int| #[trigger] final(map).particle_at(x, y) == splashed(old(map), hb, r.1 as int, x, y),
{
    let ratio = hb.ratio_of_water_grid_tiles(map);
    let new_ratio = ratio_scaled(ratio);
    let occupied = ratio.count;
    let to_splash = splash_count(player_ratio_water_particles.number, new_ratio, occupied, speed);
    let deleted = delete_water_in_hitbox(map, hb, to_splash);
    (new_ratio, deleted)
}

} // verus!
