use vstd::prelude::*;
use crate::coords::{convert_to_grid_position, grid_coord, in_world, PARTICLE_SIZE};
use crate::element::ParticleElement;
use crate::grid::ParticleMap;

verus! {

/// A position in world space, in integer world units; `y` grows upward.
#[derive(Clone, Copy, Debug, PartialEq, Eq, Structural)]
pub struct Point {
    pub x: i32,
    pub y: i32,
}

/// An axis-aligned box in world space around the centre `offset`.
///
/// Its edges lie at `offset.x ± width / 2` and `offset.y ± height / 2`, in
/// exact halves; a box with a zero side is degenerate and covers no cell.
#[derive(Clone, Copy, Debug, PartialEq, Eq, Structural)]
pub struct Hitbox {
    pub width: u32,
    pub height: u32,
    pub offset: Point,
}

/// The share of sampled cells that hold one element: `count` of `total`.
/// An empty sample reads as zero.
#[derive(Clone, Copy, Debug, PartialEq, Eq, Structural)]
pub struct Ratio {
    pub count: u64,
    pub total: u64,
}

/// Cells of column `x` with `ylo <= y < yhi` that hold `e`.
pub open spec fn col_count(map: &ParticleMap, x: int, ylo: int, yhi: int, e: ParticleElement) -> nat
    decreases yhi - ylo,
{
    if yhi <= ylo {
        0
    } else {
        col_count(map, x, ylo, yhi - 1, e) + if map.element_at(x, yhi - 1) == e {
            1nat
        } else {
            0nat
        }
    }
}

/// Cells with `xlo <= x < xhi` and `ylo <= y < yhi` that hold `e`.
pub open spec fn rect_count(
    map: &ParticleMap,
    xlo: int,
    xhi: int,
    ylo: int,
    yhi: int,
    e: ParticleElement,
) -> nat
    decreases xhi - xlo,
{
    if xhi <= xlo {
        0
    } else {
        rect_count(map, xlo, xhi - 1, ylo, yhi, e) + col_count(map, xhi - 1, ylo, yhi, e)
    }
}

/// The overlap test of two boxes: open intervals on both axes, so boxes that
/// only touch do not collide. Edges are compared in doubled units, where
/// every half-unit edge is a whole number.
pub open spec fn boxes_collide(a: Hitbox, b: Hitbox) -> bool {
    &&& 2 * a.offset.x + a.width > 2 * b.offset.x - b.width
    &&& 2 * a.offset.x - a.width < 2 * b.offset.x + b.width
    &&& 2 * a.offset.y + a.height > 2 * b.offset.y - b.height
    &&& 2 * a.offset.y - a.height < 2 * b.offset.y + b.height
}

/// The counts of all elements in column `x`, `ylo <= y < yhi`, add up to
/// the number of cells there.
proof fn lemma_col_partition(map: &ParticleMap, x: int, ylo: int, yhi: int)
    requires
        ylo <= yhi,
    ensures
        col_count(map, x, ylo, yhi, ParticleElement::Air) + col_count(map, x, ylo, yhi, ParticleElement::Water)
            + col_count(map, x, ylo, yhi, ParticleElement::Lava) + col_count(map, x, ylo, yhi, ParticleElement::QuickSand)
            + col_count(map, x, ylo, yhi, ParticleElement::Slime) + col_count(
            map,
            x,
            ylo,
            yhi,
            ParticleElement::HealingSpring,
        ) + col_count(map, x, ylo, yhi, ParticleElement::ToxicGas) == yhi - ylo,
    decreases yhi - ylo,
{
    if ylo < yhi {
        lemma_col_partition(map, x, ylo, yhi - 1);
    }
}

/// The counts of all elements in a rectangle add up to its number of cells.
proof fn lemma_rect_partition(map: &ParticleMap, xlo: int, xhi: int, ylo: int, yhi: int)
    requires
        xlo <= xhi,
        ylo <= yhi,
    ensures
        rect_count(map, xlo, xhi, ylo, yhi, ParticleElement::Air) + rect_count(map, xlo, xhi, ylo, yhi, ParticleElement::Water)
            + rect_count(map, xlo, xhi, ylo, yhi, ParticleElement::Lava) + rect_count(
            map,
            xlo,
            xhi,
            ylo,
            yhi,
            ParticleElement::QuickSand,
        ) + rect_count(map, xlo, xhi, ylo, yhi, ParticleElement::Slime) + rect_count(
            map,
            xlo,
            xhi,
            ylo,
            yhi,
            ParticleElement::HealingSpring,
        ) + rect_count(map, xlo, xhi, ylo, yhi, ParticleElement::ToxicGas) == (xhi - xlo) * (yhi - ylo),
    decreases xhi - xlo,
{
    if xlo < xhi {
        lemma_rect_partition(map, xlo, xhi - 1, ylo, yhi);
        lemma_col_partition(map, xhi - 1, ylo, yhi);
        let before = (xhi - 1 - xlo) * (yhi - ylo);
        let after = (xhi - xlo) * (yhi - ylo);
        assert(before + (yhi - ylo) == after) by (nonlinear_arith)
            requires
                before == (xhi - 1 - xlo) * (yhi - ylo),
                after == (xhi - xlo) * (yhi - ylo),
        ;
    } else {
        assert((xhi - xlo) * (yhi - ylo) == 0) by (nonlinear_arith)
            requires
                xhi == xlo,
        ;
    }
}

/// A rectangle none of whose cells holds `e` counts no `e`.
proof fn lemma_rect_absent(map: &ParticleMap, xlo: int, xhi: int, ylo: int, yhi: int, e: ParticleElement)
    requires
        forall|x: int, y: int| xlo <= x < xhi && ylo <= y < yhi ==> #[trigger] map.element_at(x, y) != e,
    ensures
        rect_count(map, xlo, xhi, ylo, yhi, e) == 0,
    decreases xhi - xlo,
{
    if xlo < xhi {
        lemma_rect_absent(map, xlo, xhi - 1, ylo, yhi, e);
        lemma_col_absent(map, xhi - 1, ylo, yhi, e);
    }
}

proof fn lemma_col_absent(map: &ParticleMap, x: int, ylo: int, yhi: int, e: ParticleElement)
    requires
        forall|y: int| ylo <= y < yhi ==> #[trigger] map.element_at(x, y) != e,
    ensures
        col_count(map, x, ylo, yhi, e) == 0,
    decreases yhi - ylo,
{
    if ylo < yhi {
        lemma_col_absent(map, x, ylo, yhi - 1, e);
    }
}

/// A doubled coordinate `d` within one half unit above `2 * v` lies in the
/// cell of `v`.
proof fn lemma_halve_cell(v: int, d: int)
    requires
        2 * v <= d <= 2 * v + 1,
    ensures
        grid_coord(v) == d / (2 * PARTICLE_SIZE as int),
{
    let t = PARTICLE_SIZE as int;
    let q = v / t;
    vstd::arithmetic::div_mod::lemma_fundamental_div_mod(v, t);
    vstd::arithmetic::div_mod::lemma_fundamental_div_mod_converse(d, 2 * t, q, d - 2 * t * q);
}

/// Two grids that agree on column `x`, `ylo <= y < yhi`, count the same there.
pub proof fn lemma_col_frame(m1: &ParticleMap, m2: &ParticleMap, x: int, ylo: int, yhi: int, e: ParticleElement)
    requires
        forall|y: int| ylo <= y < yhi ==> #[trigger] m1.element_at(x, y) == m2.element_at(x, y),
    ensures
        col_count(m1, x, ylo, yhi, e) == col_count(m2, x, ylo, yhi, e),
    decreases yhi - ylo,
{
    if ylo < yhi {
        lemma_col_frame(m1, m2, x, ylo, yhi - 1, e);
    }
}

/// Two grids that agree on a rectangle count the same there.
pub proof fn lemma_rect_frame(
    m1: &ParticleMap,
    m2: &ParticleMap,
    xlo: int,
    xhi: int,
    ylo: int,
    yhi: int,
    e: ParticleElement,
)
    requires
        forall|x: int, y: int| xlo <= x < xhi && ylo <= y < yhi ==> #[trigger] m1.element_at(x, y) == m2.element_at(x, y),
    ensures
        rect_count(m1, xlo, xhi, ylo, yhi, e) == rect_count(m2, xlo, xhi, ylo, yhi, e),
    decreases xhi - xlo,
{
    if xlo < xhi {
        lemma_rect_frame(m1, m2, xlo, xhi - 1, ylo, yhi, e);
        lemma_col_frame(m1, m2, xhi - 1, ylo, yhi, e);
    }
}

/// Changing one cell of column `x` changes its counts by that cell alone.
pub proof fn lemma_col_one_cell(m1: &ParticleMap, m2: &ParticleMap, x: int, ylo: int, yhi: int, cy: int, e: ParticleElement)
    requires
        forall|j: int| j != cy ==> #[trigger] m1.element_at(x, j) == m2.element_at(x, j),
        ylo <= cy < yhi,
    ensures
        col_count(m2, x, ylo, yhi, e) + (if m1.element_at(x, cy) == e { 1int } else { 0int }) == col_count(m1, x, ylo, yhi, e)
            + (if m2.element_at(x, cy) == e { 1int } else { 0int }),
    decreases yhi - ylo,
{
    if cy < yhi - 1 {
        lemma_col_one_cell(m1, m2, x, ylo, yhi - 1, cy, e);
    } else {
        lemma_col_frame(m1, m2, x, ylo, yhi - 1, e);
    }
}

/// Changing one cell of a rectangle changes its counts by that cell alone.
pub proof fn lemma_rect_one_cell(
    m1: &ParticleMap,
    m2: &ParticleMap,
    xlo: int,
    xhi: int,
    ylo: int,
    yhi: int,
    cx: int,
    cy: int,
    e: ParticleElement,
)
    requires
        forall|i: int, j: int| !(i == cx && j == cy) ==> #[trigger] m1.element_at(i, j) == m2.element_at(i, j),
        xlo <= cx < xhi,
        ylo <= cy < yhi,
    ensures
        rect_count(m2, xlo, xhi, ylo, yhi, e) + (if m1.element_at(cx, cy) == e { 1int } else { 0int }) == rect_count(
            m1,
            xlo,
            xhi,
            ylo,
            yhi,
            e,
        ) + (if m2.element_at(cx, cy) == e { 1int } else { 0int }),
    decreases xhi - xlo,
{
    assert forall|j: int| j != cy implies #[trigger] m1.element_at(cx, j) == m2.element_at(cx, j) by {}
    if cx < xhi - 1 {
        lemma_rect_one_cell(m1, m2, xlo, xhi - 1, ylo, yhi, cx, cy, e);
        assert forall|j: int| ylo <= j < yhi implies #[trigger] m1.element_at(xhi - 1, j) == m2.element_at(xhi - 1, j) by {}
        lemma_col_frame(m1, m2, xhi - 1, ylo, yhi, e);
    } else {
        assert forall|i: int, j: int| xlo <= i < xhi - 1 && ylo <= j < yhi implies #[trigger] m1.element_at(i, j)
            == m2.element_at(i, j) by {}
        lemma_rect_frame(m1, m2, xlo, xhi - 1, ylo, yhi, e);
        lemma_col_one_cell(m1, m2, cx, ylo, yhi, cy, e);
    }
}

/// Overlap is symmetric: `a` collides with `b` exactly when `b` collides with `a`.
pub proof fn lemma_collision_symmetric(a: Hitbox, b: Hitbox)
    ensures
        boxes_collide(a, b) == boxes_collide(b, a),
{
}

/// A box of positive size collides with itself, and no longer collides with
/// a copy of itself moved by at least its width across, or by at least its
/// height up or down.
pub proof fn lemma_self_overlap_and_separation(a: Hitbox, dx: int, dy: int)
    requires
        a.width > 0,
        a.height > 0,
        i32::MIN <= a.offset.x + dx <= i32::MAX,
        i32::MIN <= a.offset.y + dy <= i32::MAX,
    ensures
        boxes_collide(a, a),
        dx >= a.width || dx <= -(a.width as int) ==> !boxes_collide(
            a,
            Hitbox { offset: Point { x: (a.offset.x + dx) as i32, y: a.offset.y }, ..a },
        ),
        dy >= a.height || dy <= -(a.height as int) ==> !boxes_collide(
            a,
            Hitbox { offset: Point { x: a.offset.x, y: (a.offset.y + dy) as i32 }, ..a },
        ),
{
}

impl Hitbox {
    /// The left edge `offset.x - width / 2` taken down to a whole unit,
    /// which lies in the same cell as the exact edge.
    pub open spec fn left(self) -> int {
        self.offset.x - (self.width - self.width / 2)
    }

    /// The right edge `offset.x + width / 2` taken down to a whole unit.
    pub open spec fn right(self) -> int {
        self.offset.x + self.width / 2
    }

    /// The bottom edge `offset.y - height / 2` taken down to a whole unit.
    pub open spec fn bottom(self) -> int {
        self.offset.y - (self.height - self.height / 2)
    }

    /// The top edge `offset.y + height / 2` taken down to a whole unit.
    pub open spec fn top(self) -> int {
        self.offset.y + self.height / 2
    }

    /// A box with a zero side: it covers no cell and samples nothing.
    pub open spec fn degenerate(self) -> bool {
        self.width == 0 || self.height == 0
    }

    /// The tile range: the cells of the top-left and bottom-right corners,
    /// as `(top_left_x, top_left_y, bottom_right_x, bottom_right_y)`.
    pub open spec fn tiles(self) -> (int, int, int, int) {
        (grid_coord(self.left()), grid_coord(self.top()), grid_coord(self.right()), grid_coord(self.bottom()))
    }

    /// Whether cell `(x, y)` lies in the tile range, bounds included.
    pub open spec fn covers(self, x: int, y: int) -> bool {
        let (tlx, tly, brx, bry) = self.tiles();
        !self.degenerate() && tlx <= x <= brx && bry <= y <= tly
    }

    /// The number of cells in the tile range; none for a degenerate box.
    pub open spec fn cell_total(self) -> int {
        let (tlx, tly, brx, bry) = self.tiles();
        if self.degenerate() {
            0
        } else {
            (brx + 1 - tlx) * (tly + 1 - bry)
        }
    }

    /// The cells of the tile range that hold `e`; none for a degenerate box.
    pub open spec fn count_of(self, map: &ParticleMap, e: ParticleElement) -> nat {
        let (tlx, tly, brx, bry) = self.tiles();
        if self.degenerate() {
            0
        } else {
            rect_count(map, tlx, brx + 1, bry, tly + 1, e)
        }
    }

    pub fn new(width: u32, height: u32, offset: Point) -> (r: Hitbox)
        ensures
            r.width == width,
            r.height == height,
            r.offset == offset,
    {
        Hitbox { width, height, offset }
    }

    /// Whether the two boxes overlap with positive area.
    pub fn collides_with(&self, other: &Hitbox) -> (r: bool)
        ensures
            r == boxes_collide(*self, *other),
    {
        let sx = 2 * self.offset.x as i64;
        let sy = 2 * self.offset.y as i64;
        let ox = 2 * other.offset.x as i64;
        let oy = 2 * other.offset.y as i64;
        sx + self.width as i64 > ox - other.width as i64 && sx - (self.width as i64) < ox + other.width as i64
            && sy + self.height as i64 > oy - other.height as i64 && sy - (self.height as i64) < oy
            + other.height as i64
    }

    /// Whether this box collides with any of `others`.
    fn collides_with_any(&self, others: &Vec<Hitbox>) -> (r: bool)
        ensures
            r == exists|i: int| 0 <= i < others@.len() && boxes_collide(*self, #[trigger] others@[i]),
    {
        let mut i: usize = 0;
        while i < others.len()
            invariant
                i <= others@.len(),
                forall|k: int| 0 <= k < i ==> !boxes_collide(*self, #[trigger] others@[k]),
            decreases others@.len() - i,
        {
            if self.collides_with(&others[i]) {
                return true;
            }
            i = i + 1;
        }
        false
    }

    /// Whether a candidate player box hits any other actor's box.
    pub fn all_player_collisions(&self, hitboxes: &Vec<Hitbox>) -> (r: bool)
        ensures
            r == exists|i: int| 0 <= i < hitboxes@.len() && boxes_collide(*self, #[trigger] hitboxes@[i]),
    {
        self.collides_with_any(hitboxes)
    }

    /// Whether a candidate player box hits any enemy's box.
    pub fn player_enemy_collision(&self, hitboxes: &Vec<Hitbox>) -> (r: bool)
        ensures
            r == exists|i: int| 0 <= i < hitboxes@.len() && boxes_collide(*self, #[trigger] hitboxes@[i]),
    {
        self.collides_with_any(hitboxes)
    }

    /// Whether a candidate enemy box hits any non-enemy box.
    pub fn all_enemy_collisions(&self, hitboxes: &Vec<Hitbox>) -> (r: bool)
        ensures
            r == exists|i: int| 0 <= i < hitboxes@.len() && boxes_collide(*self, #[trigger] hitboxes@[i]),
    {
        self.collides_with_any(hitboxes)
    }

    /// Whether a candidate ship box hits any non-ship box.
    pub fn all_ship_collisions(&self, hitboxes: &Vec<Hitbox>) -> (r: bool)
        ensures
            r == exists|i: int| 0 <= i < hitboxes@.len() && boxes_collide(*self, #[trigger] hitboxes@[i]),
    {
        self.collides_with_any(hitboxes)
    }

    /// The edges lie in world range, so the tile range is well defined,
    /// ordered, and small enough to count in a `u64`.
    pub proof fn lemma_tiles_bounded(self)
        ensures
            in_world(self.left()),
            in_world(self.right()),
            in_world(self.bottom()),
            in_world(self.top()),
            -0x4000_0000 <= self.tiles().0 <= self.tiles().2 < 0x4000_0000,
            -0x4000_0000 <= self.tiles().3 <= self.tiles().1 < 0x4000_0000,
    {
        let t = PARTICLE_SIZE as int;
        vstd::arithmetic::div_mod::lemma_div_is_ordered(-0x1_0000_0000, self.left(), t);
        vstd::arithmetic::div_mod::lemma_div_is_ordered(self.left(), self.right(), t);
        vstd::arithmetic::div_mod::lemma_div_is_ordered(self.right(), 0x1_0000_0000 - 1, t);
        vstd::arithmetic::div_mod::lemma_div_is_ordered(-0x1_0000_0000, self.bottom(), t);
        vstd::arithmetic::div_mod::lemma_div_is_ordered(self.bottom(), self.top(), t);
        vstd::arithmetic::div_mod::lemma_div_is_ordered(self.top(), 0x1_0000_0000 - 1, t);
        assert(-0x1_0000_0000int / 4 == -0x4000_0000);
        assert((0x1_0000_0000int - 1) / 4 == 0x4000_0000 - 1);
    }

    /// The cells of the top-left and bottom-right corners, as
    /// `(top_left_x, top_left_y, bottom_right_x, bottom_right_y)`.
    pub fn get_grid_tiles_to_check(&self) -> (r: (i32, i32, i32, i32))
        ensures
            (r.0 as int, r.1 as int, r.2 as int, r.3 as int) == self.tiles(),
    {
        proof {
            self.lemma_tiles_bounded();
        }
        let left = self.offset.x as i64 - (self.width - self.width / 2) as i64;
        let right = self.offset.x as i64 + (self.width / 2) as i64;
        let bottom = self.offset.y as i64 - (self.height - self.height / 2) as i64;
        let top = self.offset.y as i64 + (self.height / 2) as i64;
        let top_left = convert_to_grid_position(left, top);
        let bottom_right = convert_to_grid_position(right, bottom);
        (top_left.0, top_left.1, bottom_right.0, bottom_right.1)
    }

    /// Whether cell `pos` lies in the tile range, bounds included; never for
    /// a degenerate box.
    pub fn is_particle_in_hitbox(&self, pos: (i32, i32)) -> (r: bool)
        ensures
            r == self.covers(pos.0 as int, pos.1 as int),
            self.degenerate() ==> !r,
    {
        if self.width == 0 || self.height == 0 {
            return false;
        }
        let (top_left_x, top_left_y, bottom_right_x, bottom_right_y) = self.get_grid_tiles_to_check();
        pos.0 >= top_left_x && pos.0 <= bottom_right_x && pos.1 <= top_left_y && pos.1 >= bottom_right_y
    }

    /// How many cells of the tile range hold `e`, out of all its cells. A
    /// degenerate box samples nothing: zero of zero.
    pub fn ratio_of_element(&self, map: &ParticleMap, e: ParticleElement) -> (r: Ratio)
        requires
            map.wf(),
        ensures
            r.count == self.count_of(map, e),
            r.total == self.cell_total(),
            r.count <= r.total,
            !self.degenerate() ==> r.total > 0,
            self.degenerate() ==> r.count == 0 && r.total == 0,
    {
        proof {
            self.lemma_tiles_bounded();
        }
        if self.width == 0 || self.height == 0 {
            return Ratio { count: 0, total: 0 };
        }
        let (tlx, tly, brx, bry) = self.get_grid_tiles_to_check();
        let column: u64 = (tly as i64 - bry as i64 + 1) as u64;
        let mut count: u64 = 0;
        let mut total: u64 = 0;
        let mut x: i32 = tlx;
        while x <= brx
            invariant
                map.wf(),
                -0x4000_0000 <= tlx <= x <= brx + 1,
                brx < 0x4000_0000,
                -0x4000_0000 <= bry <= tly < 0x4000_0000,
                column == tly - bry + 1,
                count == rect_count(map, tlx as int, x as int, bry as int, tly + 1, e),
                total == (x - tlx) * column,
                count <= total,
            decreases brx + 1 - x,
        {
            let mut y: i32 = bry;
            let mut c: u64 = 0;
            while y <= tly
                invariant
                    map.wf(),
                    bry <= y <= tly + 1,
                    -0x4000_0000 <= bry,
                    tly < 0x4000_0000,
                    c == col_count(map, x as int, bry as int, y as int, e),
                    c <= y - bry,
                decreases tly + 1 - y,
            {
                if map.get_element_at((x, y)) == e {
                    c = c + 1;
                }
                y = y + 1;
            }
            proof {
                assert(total + column == (x + 1 - tlx) * column <= 0x8000_0000int * 0x8000_0000int)
                    by (nonlinear_arith)
                    requires
                        total == (x - tlx) * column,
                        0 <= x + 1 - tlx <= 0x8000_0000,
                        0 < column <= 0x8000_0000,
                ;
            }
            count = count + c;
            total = total + column;
            x = x + 1;
        }
        proof {
            assert(total > 0) by (nonlinear_arith)
                requires
                    total == (x - tlx) * column,
                    x > tlx,
                    column > 0,
            ;
        }
        Ratio { count, total }
    }

    /// The share of the tile range that holds water.
    pub fn ratio_of_water_grid_tiles(&self, map: &ParticleMap) -> (r: Ratio)
        requires
            map.wf(),
        ensures
            r.count == self.count_of(map, ParticleElement::Water),
            r.total == self.cell_total(),
            r.count <= r.total,
            !self.degenerate() ==> r.total > 0,
            self.degenerate() ==> r.count == 0 && r.total == 0,
    {
        self.ratio_of_element(map, ParticleElement::Water)
    }

    /// The share of the tile range that holds lava.
    pub fn ratio_of_lava_grid_tiles(&self, map: &ParticleMap) -> (r: Ratio)
        requires
            map.wf(),
        ensures
            r.count == self.count_of(map, ParticleElement::Lava),
            r.total == self.cell_total(),
            r.count <= r.total,
            !self.degenerate() ==> r.total > 0,
            self.degenerate() ==> r.count == 0 && r.total == 0,
    {
        self.ratio_of_element(map, ParticleElement::Lava)
    }

    /// The share of the tile range that holds quicksand.
    pub fn ratio_of_quicksand_grid_tiles(&self, map: &ParticleMap) -> (r: Ratio)
        requires
            map.wf(),
        ensures
            r.count == self.count_of(map, ParticleElement::QuickSand),
            r.total == self.cell_total(),
            r.count <= r.total,
            !self.degenerate() ==> r.total > 0,
            self.degenerate() ==> r.count == 0 && r.total == 0,
    {
        self.ratio_of_element(map, ParticleElement::QuickSand)
    }

    /// The share of the tile range that holds slime.
    pub fn ratio_of_slime_grid_tiles(&self, map: &ParticleMap) -> (r: Ratio)
        requires
            map.wf(),
        ensures
            r.count == self.count_of(map, ParticleElement::Slime),
            r.total == self.cell_total(),
            r.count <= r.total,
            !self.degenerate() ==> r.total > 0,
            self.degenerate() ==> r.count == 0 && r.total == 0,
    {
        self.ratio_of_element(map, ParticleElement::Slime)
    }

    /// The share of the tile range that holds a healing spring.
    pub fn ratio_of_healing_spring_grid_tiles(&self, map: &ParticleMap) -> (r: Ratio)
        requires
            map.wf(),
        ensures
            r.count == self.count_of(map, ParticleElement::HealingSpring),
            r.total == self.cell_total(),
            r.count <= r.total,
            !self.degenerate() ==> r.total > 0,
            self.degenerate() ==> r.count == 0 && r.total == 0,
    {
        self.ratio_of_element(map, ParticleElement::HealingSpring)
    }

    /// The share of the tile range that holds toxic gas.
    pub fn ratio_of_toxic_gas_tiles(&self, map: &ParticleMap) -> (r: Ratio)
        requires
            map.wf(),
        ensures
            r.count == self.count_of(map, ParticleElement::ToxicGas),
            r.total == self.cell_total(),
            r.count <= r.total,
            !self.degenerate() ==> r.total > 0,
            self.degenerate() ==> r.count == 0 && r.total == 0,
    {
        self.ratio_of_element(map, ParticleElement::ToxicGas)
    }

    /// The number of water cells in the tile range.
    pub fn number_of_water_grid_tiles_colliding(&self, map: &ParticleMap) -> (r: u64)
        requires
            map.wf(),
        ensures
            r == self.count_of(map, ParticleElement::Water),
    {
        self.ratio_of_element(map, ParticleElement::Water).count
    }

    /// Whether any cell of the tile range holds water.
    pub fn are_any_grid_tiles_water(&self, map: &ParticleMap) -> (r: bool)
        requires
            map.wf(),
        ensures
            r == (self.count_of(map, ParticleElement::Water) > 0),
    {
        self.number_of_water_grid_tiles_colliding(map) > 0
    }

    /// Over every element, the counts in the tile range add up to the number
    /// of cells in it: the element ratios of one box partition the whole.
    pub proof fn lemma_ratios_partition(self, map: &ParticleMap)
        ensures
            self.count_of(map, ParticleElement::Air) + self.count_of(map, ParticleElement::Water) + self.count_of(
                map,
                ParticleElement::Lava,
            ) + self.count_of(map, ParticleElement::QuickSand) + self.count_of(map, ParticleElement::Slime)
                + self.count_of(map, ParticleElement::HealingSpring) + self.count_of(map, ParticleElement::ToxicGas)
                == self.cell_total(),
    {
        self.lemma_tiles_bounded();
        let (tlx, tly, brx, bry) = self.tiles();
        if !self.degenerate() {
            lemma_rect_partition(map, tlx, brx + 1, bry, tly + 1);
        }
    }

    /// A box whose tile range lies wholly outside the grid finds none of any
    /// element but air, and covers no cell of the grid.
    pub proof fn lemma_outside_grid(self, map: &ParticleMap, e: ParticleElement)
        requires
            map.wf(),
            e != ParticleElement::Air,
            self.tiles().2 < 0 || self.tiles().0 >= map.spec_width() || self.tiles().1 < 0 || self.tiles().3
                >= map.spec_height(),
        ensures
            self.count_of(map, e) == 0,
            forall|x: int, y: int| map.in_bounds(x, y) ==> !#[trigger] self.covers(x, y),
    {
        let (tlx, tly, brx, bry) = self.tiles();
        assert forall|x: int, y: int| tlx <= x < brx + 1 && bry <= y < tly + 1 implies #[trigger] map.element_at(
            x,
            y,
        ) != e by {
            map.lemma_outside_is_air(x, y);
        }
        lemma_rect_absent(map, tlx, brx + 1, bry, tly + 1, e);
    }

    /// The tile range holds the cells of the exact edges: in doubled units the
    /// left edge is `2 * offset.x - width` and a cell spans `2 * PARTICLE_SIZE`.
    pub proof fn lemma_tiles_exact(self)
        ensures
            self.tiles().0 == (2 * self.offset.x - self.width) / (2 * PARTICLE_SIZE as int),
            self.tiles().1 == (2 * self.offset.y + self.height) / (2 * PARTICLE_SIZE as int),
            self.tiles().2 == (2 * self.offset.x + self.width) / (2 * PARTICLE_SIZE as int),
            self.tiles().3 == (2 * self.offset.y - self.height) / (2 * PARTICLE_SIZE as int),
    {
        lemma_halve_cell(self.left(), 2 * self.offset.x - self.width);
        lemma_halve_cell(self.top(), 2 * self.offset.y + self.height);
        lemma_halve_cell(self.right(), 2 * self.offset.x + self.width);
        lemma_halve_cell(self.bottom(), 2 * self.offset.y - self.height);
    }
}

} // verus!
