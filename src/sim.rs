use vstd::prelude::*;
use crate::element::ParticleElement;
use crate::grid::{air, Particle, ParticleMap};
use crate::hitbox::{lemma_rect_one_cell, rect_count};

verus! {

// The rule table. Each element lists the neighbour offsets it tries, in order
// of preference, and moves into the first one that is an air cell of the grid.
// Particles only ever move into air: no element displaces or transmutes
// another. The diagonal and sideways tie-break alternates with the tick: on
// even ticks left is tried first, on odd ticks right.
//
//   Water, Slime       down, then down-diagonals, then sideways (liquids)
//   Lava, QuickSand    down, then down-diagonals (viscous: no sideways spread)
//   ToxicGas           up, then up-diagonals, then sideways
//   HealingSpring, Air stay

/// The side tried first on a tick: `-1` (left) on even ticks, `1` on odd ones.
pub open spec fn first_side(tick: u64) -> i32 {
    if tick % 2 == 0 {
        -1i32
    } else {
        1i32
    }
}

/// The neighbour offsets an element tries, in order of preference.
pub open spec fn moves_of(e: ParticleElement, tick: u64) -> Seq<(i32, i32)> {
    let s = first_side(tick);
    let o = (-s) as i32;
    match e {
        ParticleElement::Water | ParticleElement::Slime => seq![(0i32, -1i32), (s, -1i32), (o, -1i32), (s, 0i32), (o, 0i32)],
        ParticleElement::Lava | ParticleElement::QuickSand => seq![(0i32, -1i32), (s, -1i32), (o, -1i32)],
        ParticleElement::ToxicGas => seq![(0i32, 1i32), (s, 1i32), (o, 1i32), (s, 0i32), (o, 0i32)],
        ParticleElement::Air | ParticleElement::HealingSpring => seq![],
    }
}

/// A cell a particle may move into: inside the grid and holding air.
pub open spec fn open_cell(map: &ParticleMap, x: int, y: int) -> bool {
    map.in_bounds(x, y) && map.element_at(x, y) == ParticleElement::Air
}

/// The first open cell among the moves `ms[k..]` from `(x, y)`.
pub open spec fn first_open(map: &ParticleMap, x: int, y: int, ms: Seq<(i32, i32)>, k: int) -> Option<(int, int)>
    decreases ms.len() - k,
{
    if k < 0 || k >= ms.len() {
        None
    } else if open_cell(map, x + ms[k].0, y + ms[k].1) {
        Some((x + ms[k].0, y + ms[k].1))
    } else {
        first_open(map, x, y, ms, k + 1)
    }
}

/// Where the particle at `(x, y)` goes this tick, if it moves.
pub open spec fn target_of(map: &ParticleMap, x: int, y: int, tick: u64) -> Option<(int, int)> {
    first_open(map, x, y, moves_of(map.element_at(x, y), tick), 0)
}

/// How many cells of the whole grid hold `e`.
pub open spec fn grid_count(m: &ParticleMap, e: ParticleElement) -> nat {
    rect_count(m, 0, m.spec_width(), 0, m.spec_height(), e)
}

/// The position of cell `(x, y)` in the moved marks of a grid of width `w`.
pub open spec fn mark_index(w: int, x: int, y: int) -> int {
    y * w + x
}

/// The neighbour offsets an element tries this tick, in order of preference.
pub fn candidate_moves(e: ParticleElement, tick: u64) -> (r: Vec<(i32, i32)>)
    ensures
        r@ == moves_of(e, tick),
{
    let s: i32 = if tick % 2 == 0 {
        -1
    } else {
        1
    };
    let o: i32 = -s;
    match e {
        ParticleElement::Water | ParticleElement::Slime => vec![(0, -1), (s, -1), (o, -1), (s, 0), (o, 0)],
        ParticleElement::Lava | ParticleElement::QuickSand => vec![(0, -1), (s, -1), (o, -1)],
        ParticleElement::ToxicGas => vec![(0, 1), (s, 1), (o, 1), (s, 0), (o, 0)],
        ParticleElement::Air | ParticleElement::HealingSpring => vec![],
    }
}

/// Where the particle at `(x, y)` goes this tick, if it moves.
pub fn find_target(map: &ParticleMap, x: i32, y: i32, tick: u64) -> (r: Option<(i32, i32)>)
    requires
        map.wf(),
        map.in_bounds(x as int, y as int),
    ensures
        match r {
            Some(t) => target_of(map, x as int, y as int, tick) == Some((t.0 as int, t.1 as int)),
            None => target_of(map, x as int, y as int, tick).is_none(),
        },
{
    let ms = candidate_moves(map.get_element_at((x, y)), tick);
    let mut k: usize = 0;
    while k < ms.len()
        invariant
            map.wf(),
            0 <= x < i32::MAX,
            0 <= y < i32::MAX,
            k <= ms@.len(),
            ms@ == moves_of(map.element_at(x as int, y as int), tick),
            forall|j: int| 0 <= j < ms@.len() ==> -1 <= (#[trigger] ms@[j]).0 <= 1 && -1 <= ms@[j].1 <= 1,
            first_open(map, x as int, y as int, ms@, 0) == first_open(map, x as int, y as int, ms@, k as int),
        decreases ms@.len() - k,
    {
        let (dx, dy) = ms[k];
        let tx = x + dx;
        let ty = y + dy;
        if tx >= 0 && ty >= 0 && (tx as usize) < map.width() && (ty as usize) < map.height()
            && map.get_element_at((tx, ty)) == ParticleElement::Air {
            assert(open_cell(map, x + ms@[k as int].0, y + ms@[k as int].1));
            assert(first_open(map, x as int, y as int, ms@, k as int) == Some((tx as int, ty as int)));
            return Some((tx, ty));
        }
        k = k + 1;
    }
    None
}

/// The grid after the particle at `from` moved into `to`, read at `(i, j)`.
pub open spec fn after_move(m: &ParticleMap, from: (int, int), to: (int, int), i: int, j: int) -> Particle {
    if i == to.0 && j == to.1 {
        m.particle_at(from.0, from.1)
    } else if i == from.0 && j == from.1 {
        air()
    } else {
        m.particle_at(i, j)
    }
}

/// A grid whose only cell that does not hold air is `(x, y)`.
pub open spec fn isolated(m: &ParticleMap, x: int, y: int) -> bool {
    &&& m.in_bounds(x, y)
    &&& forall|i: int, j: int| !(i == x && j == y) ==> #[trigger] m.element_at(i, j) == ParticleElement::Air
}

proof fn lemma_first_open_congruent(m1: &ParticleMap, m2: &ParticleMap, x: int, y: int, ms: Seq<(i32, i32)>, k: int)
    requires
        m1.spec_width() == m2.spec_width(),
        m1.spec_height() == m2.spec_height(),
        forall|i: int, j: int| #[trigger] m1.particle_at(i, j) == m2.particle_at(i, j),
    ensures
        first_open(m1, x, y, ms, k) == first_open(m2, x, y, ms, k),
    decreases ms.len() - k,
{
    if 0 <= k < ms.len() {
        assert(m1.particle_at(x + ms[k].0, y + ms[k].1) == m2.particle_at(x + ms[k].0, y + ms[k].1));
        lemma_first_open_congruent(m1, m2, x, y, ms, k + 1);
    }
}

proof fn lemma_first_open_is_open(map: &ParticleMap, x: int, y: int, ms: Seq<(i32, i32)>, k: int)
    ensures
        match first_open(map, x, y, ms, k) {
            Some(t) => open_cell(map, t.0, t.1) && exists|q: int|
                0 <= q < ms.len() && t == (x + (#[trigger] ms[q]).0, y + ms[q].1),
            None => true,
        },
    decreases ms.len() - k,
{
    if 0 <= k < ms.len() {
        if !open_cell(map, x + ms[k].0, y + ms[k].1) {
            lemma_first_open_is_open(map, x, y, ms, k + 1);
        } else {
            assert(ms[k] == ms[k]);
        }
    }
}

fn mark_of(map: &ParticleMap, x: i32, y: i32) -> (r: usize)
    requires
        map.wf(),
        map.in_bounds(x as int, y as int),
    ensures
        r as int == mark_index(map.spec_width(), x as int, y as int),
        r < map.spec_width() * map.spec_height(),
{
    proof {
        ParticleMap::lemma_index(map.spec_width(), map.spec_height(), x as int, y as int, x as int, y as int);
    }
    y as usize * map.width() + x as usize
}

/// What one update of cell `(x, y)` does, taking grid `m1` with moved marks
/// `mv1` to grid `m2` with marks `mv2`: unless a particle already moved into
/// the cell this tick, its particle moves to its target, and the target is
/// marked as moved. Otherwise nothing changes.
pub open spec fn cell_update(
    m1: &ParticleMap,
    mv1: Seq<bool>,
    m2: &ParticleMap,
    mv2: Seq<bool>,
    x: int,
    y: int,
    tick: u64,
) -> bool {
    let w = m1.spec_width();
    let target = target_of(m1, x, y, tick);
    &&& m2.spec_width() == w
    &&& m2.spec_height() == m1.spec_height()
    &&& if mv1[mark_index(w, x, y)] || target.is_none() {
        *m2 == *m1 && mv2 == mv1
    } else {
        let t = target.unwrap();
        &&& forall|i: int, j: int| #[trigger] m2.particle_at(i, j) == after_move(m1, (x, y), t, i, j)
        &&& mv2 == mv1.update(mark_index(w, t.0, t.1), true)
    }
}

/// A run of one step over grid `m0` ending in `m1`: `maps[k]` and `marks[k]`
/// are the grid and moved marks before cell `k` of the scan order is updated
/// (rows from the bottom up, each left to right), starting with no marks.
pub open spec fn step_trace(
    m0: &ParticleMap,
    m1: &ParticleMap,
    maps: Seq<ParticleMap>,
    marks: Seq<Seq<bool>>,
    tick: u64,
) -> bool {
    let w = m0.spec_width();
    let n = w * m0.spec_height();
    &&& maps.len() == n + 1
    &&& marks.len() == n + 1
    &&& maps[0] == *m0
    &&& maps[n] == *m1
    &&& marks[0] == Seq::new(n as nat, |k: int| false)
    &&& forall|k: int|
        #![trigger maps[k]]
        0 <= k < n ==> cell_update(&maps[k], marks[k], &maps[k + 1], marks[k + 1], k % w, k / w, tick)
}

/// Updates one cell: unless a particle already moved into it this tick, its
/// particle moves to its target, and the target is marked as moved.
pub fn step_cell(map: &mut ParticleMap, moved: &mut Vec<bool>, x: i32, y: i32, tick: u64)
    requires
        old(map).wf(),
        old(map).in_bounds(x as int, y as int),
        old(moved)@.len() == old(map).spec_width() * old(map).spec_height(),
    ensures
        final(map).wf(),
        final(map).spec_width() == old(map).spec_width(),
        final(map).spec_height() == old(map).spec_height(),
        final(moved)@.len() == old(moved)@.len(),
        forall|e: ParticleElement| #[trigger] grid_count(final(map), e) == grid_count(old(map), e),
        cell_update(old(map), old(moved)@, final(map), final(moved)@, x as int, y as int, tick),
{
    let i = mark_of(map, x, y);
    if moved[i] {
        return;
    }
    match find_target(map, x, y, tick) {
        None => {},
        Some(t) => {
            proof {
                lemma_first_open_is_open(
                    map,
                    x as int,
                    y as int,
                    moves_of(map.element_at(x as int, y as int), tick),
                    0,
                );
            }
            let j = mark_of(map, t.0, t.1);
            let p = map.get_particle_at((x, y));
            let ghost m_a = *map;
            map.set_particle(t, p);
            let ghost m_b = *map;
            map.set_particle((x, y), Particle { element: ParticleElement::Air, vx: 0, vy: 0 });
            proof {
                let w = m_a.spec_width();
                let h = m_a.spec_height();
                assert forall|e: ParticleElement| #[trigger] grid_count(map, e) == grid_count(&m_a, e) by {
                    lemma_rect_one_cell(&m_a, &m_b, 0, w, 0, h, t.0 as int, t.1 as int, e);
                    lemma_rect_one_cell(&m_b, map, 0, w, 0, h, x as int, y as int, e);
                }
            }
            moved.set(j, true);
        },
    }
}

/// The outcome of a step for a grid whose one particle sits at `(x, y)`:
/// it moved once, to its target, or stayed where it was.
pub open spec fn moved_once(m0: &ParticleMap, m1: &ParticleMap, x: int, y: int, tick: u64) -> bool {
    match target_of(m0, x, y, tick) {
        None => forall|i: int, j: int| #[trigger] m1.particle_at(i, j) == m0.particle_at(i, j),
        Some(t) => forall|i: int, j: int| #[trigger] m1.particle_at(i, j) == after_move(m0, (x, y), t, i, j),
    }
}

/// Whether cell `(x, y)` comes before cell `(cx, cy)` in the scan order:
/// rows from the bottom up, each from left to right.
pub open spec fn scanned_before(cx: int, cy: int, x: int, y: int) -> bool {
    y < cy || (y == cy && x < cx)
}

/// The state of a scan that has reached `(cx, cy)` on a grid whose one
/// particle started at `(x, y)`.
spec fn scan_state(
    m0: &ParticleMap,
    m: &ParticleMap,
    moved: Seq<bool>,
    cx: int,
    cy: int,
    x: int,
    y: int,
    tick: u64,
) -> bool {
    let t = target_of(m0, x, y, tick);
    if scanned_before(cx, cy, x, y) && t.is_some() {
        &&& forall|i: int, j: int| #[trigger] m.particle_at(i, j) == after_move(m0, (x, y), t.unwrap(), i, j)
        &&& forall|k: int| 0 <= k < moved.len() ==> #[trigger] moved[k] == (k == mark_index(
            m0.spec_width(),
            t.unwrap().0,
            t.unwrap().1,
        ))
    } else {
        &&& forall|i: int, j: int| #[trigger] m.particle_at(i, j) == m0.particle_at(i, j)
        &&& forall|k: int| 0 <= k < moved.len() ==> !#[trigger] moved[k]
    }
}

/// Advances the whole grid by one tick. Rows are scanned from the bottom up,
/// each from left to right, and every cell is updated by `step_cell`; a
/// particle that moved into a cell this tick is not moved again.
pub fn step(map: &mut ParticleMap, tick: u64)
    requires
        old(map).wf(),
    ensures
        final(map).wf(),
        final(map).spec_width() == old(map).spec_width(),
        final(map).spec_height() == old(map).spec_height(),
        forall|e: ParticleElement| #[trigger] grid_count(final(map), e) == grid_count(old(map), e),
        forall|x: int, y: int| #[trigger] isolated(old(map), x, y) ==> moved_once(old(map), final(map), x, y, tick),
        exists|maps: Seq<ParticleMap>, marks: Seq<Seq<bool>>| step_trace(old(map), final(map), maps, marks, tick),
{
    let ghost m0 = *map;
    let w = map.width();
    let h = map.height();
    let n = w * h;
    let mut moved: Vec<bool> = Vec::new();
    let mut k: usize = 0;
    while k < n
        invariant
            k <= n,
            moved@.len() == k,
            forall|q: int| 0 <= q < k ==> !#[trigger] moved@[q],
        decreases n - k,
    {
        moved.push(false);
        k = k + 1;
    }
    assert(moved@ =~= Seq::new(n as nat, |q: int| false));
    let ghost mut maps: Seq<ParticleMap> = seq![*map];
    let ghost mut marks: Seq<Seq<bool>> = seq![moved@];
    let mut y: usize = 0;
    while y < h
        invariant
            map.wf(),
            m0.wf(),
            w == m0.spec_width(),
            h == m0.spec_height(),
            map.spec_width() == w,
            map.spec_height() == h,
            moved@.len() == n,
            n == w * h,
            y <= h,
            maps.len() == y * w + 1,
            marks.len() == y * w + 1,
            maps[0] == m0,
            marks[0] == Seq::new(n as nat, |q: int| false),
            maps[y * w] == *map,
            marks[y * w] == moved@,
            forall|k: int|
                #![trigger maps[k]]
                0 <= k < y * w ==> cell_update(&maps[k], marks[k], &maps[k + 1], marks[k + 1], k % (w as int), k / (w as int), tick),
            forall|e: ParticleElement| #[trigger] grid_count(map, e) == grid_count(&m0, e),
            forall|x0: int, y0: int| #[trigger] isolated(&m0, x0, y0) ==> scan_state(&m0, map, moved@, 0, y as int, x0, y0, tick),
        decreases h - y,
    {
        let mut x: usize = 0;
        while x < w
            invariant
                map.wf(),
                m0.wf(),
                w == m0.spec_width(),
                h == m0.spec_height(),
                map.spec_width() == w,
                map.spec_height() == h,
                moved@.len() == n,
                n == w * h,
                y < h,
                x <= w,
                maps.len() == y * w + x + 1,
                marks.len() == y * w + x + 1,
                maps[0] == m0,
                marks[0] == Seq::new(n as nat, |q: int| false),
                maps[y * w + x] == *map,
                marks[y * w + x] == moved@,
                forall|k: int|
                    #![trigger maps[k]]
                    0 <= k < y * w + x ==> cell_update(&maps[k], marks[k], &maps[k + 1], marks[k + 1], k % (w as int), k / (w as int), tick),
                forall|e: ParticleElement| #[trigger] grid_count(map, e) == grid_count(&m0, e),
                forall|x0: int, y0: int| #[trigger] isolated(&m0, x0, y0) ==> scan_state(&m0, map, moved@, x as int, y as int, x0, y0, tick),
            decreases w - x,
        {
            let ghost mb = *map;
            let ghost mvb = moved@;
            step_cell(map, &mut moved, x as i32, y as i32, tick);
            proof {
                let k = y * w + x;
                vstd::arithmetic::div_mod::lemma_fundamental_div_mod_converse(k as int, w as int, y as int, x as int);
                maps = maps.push(*map);
                marks = marks.push(moved@);
                assert(cell_update(&maps[k as int], marks[k as int], &maps[k + 1], marks[k + 1], (k as int) % (w as int), (k as int) / (w as int), tick));
                assert forall|x0: int, y0: int| #[trigger] isolated(&m0, x0, y0) implies scan_state(
                    &m0,
                    map,
                    moved@,
                    x + 1,
                    y as int,
                    x0,
                    y0,
                    tick,
                ) by {
                    lemma_scan_advance(&m0, &mb, map, mvb, moved@, x as int, y as int, x0, y0, tick);
                }
            }
            x = x + 1;
        }
        proof {
            assert(y * w + w == (y + 1) * w) by (nonlinear_arith);
        }
        y = y + 1;
    }
    proof {
        assert(y * w == n) by (nonlinear_arith)
            requires
                y == h,
                n == w * h,
        ;
        assert(step_trace(&m0, map, maps, marks, tick));
    }
}

/// One call of `step_cell` carries the scan state from one cell to the next.
proof fn lemma_scan_advance(
    m0: &ParticleMap,
    mb: &ParticleMap,
    ma: &ParticleMap,
    mvb: Seq<bool>,
    mva: Seq<bool>,
    cx: int,
    cy: int,
    x: int,
    y: int,
    tick: u64,
)
    requires
        m0.wf(),
        mb.wf(),
        ma.wf(),
        mb.spec_width() == m0.spec_width(),
        mb.spec_height() == m0.spec_height(),
        ma.spec_width() == m0.spec_width(),
        ma.spec_height() == m0.spec_height(),
        mvb.len() == m0.spec_width() * m0.spec_height(),
        m0.in_bounds(cx, cy),
        isolated(m0, x, y),
        scan_state(m0, mb, mvb, cx, cy, x, y, tick),
        cell_update(mb, mvb, ma, mva, cx, cy, tick),
    ensures
        scan_state(m0, ma, mva, cx + 1, cy, x, y, tick),
{
    let w = m0.spec_width();
    let h = m0.spec_height();
    let t = target_of(m0, x, y, tick);
    lemma_first_open_is_open(m0, x, y, moves_of(m0.element_at(x, y), tick), 0);
    if scanned_before(cx, cy, x, y) && t.is_some() {
        let tt = t.unwrap();
        ParticleMap::lemma_index(w, h, cx, cy, tt.0, tt.1);
        if !(cx == tt.0 && cy == tt.1) {
            assert(m0.element_at(cx, cy) == ParticleElement::Air);
            assert(mb.element_at(cx, cy) == ParticleElement::Air);
            assert(target_of(mb, cx, cy, tick).is_none());
        }
    } else if cx == x && cy == y {
        assert(mb.particle_at(x, y) == m0.particle_at(x, y));
        lemma_first_open_congruent(mb, m0, x, y, moves_of(m0.element_at(x, y), tick), 0);
        ParticleMap::lemma_index(w, h, cx, cy, cx, cy);
        assert(!mvb[mark_index(w, cx, cy)]);
        if t.is_some() {
            let tt = t.unwrap();
            ParticleMap::lemma_index(w, h, tt.0, tt.1, tt.0, tt.1);
            assert forall|k: int| 0 <= k < mva.len() implies #[trigger] mva[k] == (k == mark_index(w, tt.0, tt.1)) by {}
        }
    } else {
        assert(m0.element_at(cx, cy) == ParticleElement::Air);
        assert(mb.element_at(cx, cy) == ParticleElement::Air);
        assert(target_of(mb, cx, cy, tick).is_none());
    }
}

/// A lone water particle with the grid open below it falls exactly one cell
/// in a step: afterwards it sits directly below its old cell, and every other
/// cell holds air. On the bottom row it is blocked: it does not go down, and
/// it stays in the grid, on the bottom row.
pub proof fn lemma_isolated_water_falls(m0: &ParticleMap, m1: &ParticleMap, x: int, y: int, tick: u64)
    requires
        m0.wf(),
        isolated(m0, x, y),
        m0.element_at(x, y) == ParticleElement::Water,
        moved_once(m0, m1, x, y, tick),
    ensures
        y >= 1 ==> m1.particle_at(x, y - 1) == m0.particle_at(x, y),
        y >= 1 ==> forall|i: int, j: int| !(i == x && j == y - 1) ==> #[trigger] m1.element_at(i, j)
            == ParticleElement::Air,
        y == 0 ==> exists|i: int|
            m0.in_bounds(i, 0) && #[trigger] m1.particle_at(i, 0) == m0.particle_at(x, y),
{
    let ms = moves_of(m0.element_at(x, y), tick);
    lemma_first_open_is_open(m0, x, y, ms, 0);
    if y >= 1 {
        assert(m0.element_at(x, y - 1) == ParticleElement::Air);
        assert(open_cell(m0, x, y - 1));
        assert(target_of(m0, x, y, tick) == Some((x, y - 1)));
        assert forall|i: int, j: int| !(i == x && j == y - 1) implies #[trigger] m1.element_at(i, j)
            == ParticleElement::Air by {
            assert(m1.particle_at(i, j) == after_move(m0, (x, y), (x, y - 1), i, j));
            if !(i == x && j == y) {
                assert(m0.element_at(i, j) == ParticleElement::Air);
            }
        }
    } else {
        match target_of(m0, x, y, tick) {
            None => {
                assert(m1.particle_at(x, 0) == m0.particle_at(x, y));
            },
            Some(t) => {
                let q = choose|q: int| 0 <= q < ms.len() && t == (x + (#[trigger] ms[q]).0, y + ms[q].1);
                assert(t.1 == 0);
                assert(m1.particle_at(t.0, 0) == m0.particle_at(x, y));
            },
        }
    }
}

} // verus!
