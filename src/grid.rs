use vstd::prelude::*;
use crate::element::{ParticleElement, movable};

verus! {

/// What one cell holds: an element and the velocity it carries.
#[derive(Clone, Copy, Debug, PartialEq, Eq, Structural)]
pub struct Particle {
    pub element: ParticleElement,
    pub vx: i32,
    pub vy: i32,
}

/// The air particle, at rest.
pub open spec fn air() -> Particle {
    Particle { element: ParticleElement::Air, vx: 0, vy: 0 }
}

/// Which cells an insertion may overwrite.
#[derive(Clone, Copy, Debug, PartialEq, Eq, Structural)]
pub enum Placement {
    /// Place only into a cell that holds air.
    ReplaceOnlyAir,
    /// Place into any cell of the grid.
    ReplaceAll,
}

/// A dense grid of particles, stored row by row from the bottom row up.
/// Cell `(x, y)` exists when `0 <= x < width` and `0 <= y < height`.
pub struct ParticleMap {
    width: usize,
    height: usize,
    cells: Vec<Particle>,
}

impl ParticleMap {
    /// Grid dimensions fit cell coordinates, and there is one particle per cell.
    pub open spec fn wf(&self) -> bool {
        &&& self.spec_width() <= i32::MAX
        &&& self.spec_height() <= i32::MAX
        &&& self.spec_width() * self.spec_height() <= usize::MAX
        &&& self.storage_wf()
    }

    /// One stored particle per cell.
    pub closed spec fn storage_wf(&self) -> bool {
        &&& self.cells@.len() == self.width * self.height
        &&& self.width * self.height <= usize::MAX
    }

    pub closed spec fn spec_width(&self) -> int {
        self.width as int
    }

    pub closed spec fn spec_height(&self) -> int {
        self.height as int
    }

    pub open spec fn in_bounds(&self, x: int, y: int) -> bool {
        0 <= x < self.spec_width() && 0 <= y < self.spec_height()
    }

    closed spec fn index_of(&self, x: int, y: int) -> int {
        y * self.width + x
    }

    /// The particle at a cell; air outside the grid.
    pub closed spec fn particle_at(&self, x: int, y: int) -> Particle {
        if self.in_bounds(x, y) {
            self.cells@[self.index_of(x, y)]
        } else {
            air()
        }
    }

    /// The element at a cell; air outside the grid.
    pub open spec fn element_at(&self, x: int, y: int) -> ParticleElement {
        self.particle_at(x, y).element
    }

    /// Two grids of equal size that agree on every cell but `(x, y)`.
    pub open spec fn same_except(&self, other: &ParticleMap, x: int, y: int) -> bool {
        &&& self.spec_width() == other.spec_width()
        &&& self.spec_height() == other.spec_height()
        &&& forall|i: int, j: int|
            !(i == x && j == y) ==> #[trigger] self.particle_at(i, j) == other.particle_at(i, j)
    }

    /// Row-major positions of the cells of a `w` by `h` grid lie in
    /// `[0, w * h)` and tell cells apart.
    pub proof fn lemma_index(w: int, h: int, x: int, y: int, a: int, b: int)
        requires
            0 <= x < w,
            0 <= y < h,
            0 <= a < w,
            0 <= b < h,
        ensures
            0 <= y * w + x < w * h,
            (y * w + x == b * w + a) ==> (x == a && y == b),
    {
        assert(0 <= y * w + x < w * h) by (nonlinear_arith)
            requires
                0 <= x < w,
                0 <= y < h,
        ;
        if y * w + x == b * w + a {
            if y < b {
                assert(y * w + x < b * w + a) by (nonlinear_arith)
                    requires
                        0 <= x < w,
                        y < b,
                        0 <= a,
                ;
            } else if b < y {
                assert(b * w + a < y * w + x) by (nonlinear_arith)
                    requires
                        0 <= a < w,
                        b < y,
                        0 <= x,
                ;
            }
        }
    }

    /// Cells outside the grid read as air at rest.
    pub proof fn lemma_outside_is_air(&self, x: int, y: int)
        requires
            !self.in_bounds(x, y),
        ensures
            self.particle_at(x, y) == air(),
    {
    }

    /// An empty grid of the given size, all air.
    pub fn new(width: usize, height: usize) -> (r: ParticleMap)
        requires
            width <= i32::MAX,
            height <= i32::MAX,
            width * height <= usize::MAX,
        ensures
            r.wf(),
            r.spec_width() == width,
            r.spec_height() == height,
            forall|x: int, y: int| #[trigger] r.particle_at(x, y) == air(),
    {
        let n = width * height;
        let mut cells: Vec<Particle> = Vec::new();
        let mut i: usize = 0;
        while i < n
            invariant
                i <= n,
                cells@.len() == i,
                forall|k: int| 0 <= k < i ==> #[trigger] cells@[k] == air(),
            decreases n - i,
        {
            cells.push(Particle { element: ParticleElement::Air, vx: 0, vy: 0 });
            i = i + 1;
        }
        let r = ParticleMap { width, height, cells };
        proof {
            assert forall|x: int, y: int| #[trigger] r.particle_at(x, y) == air() by {
                if r.in_bounds(x, y) {
                    Self::lemma_index(width as int, height as int, x, y, x, y);
                }
            }
        }
        r
    }

    pub fn width(&self) -> (r: usize)
        ensures
            r == self.spec_width(),
    {
        self.width
    }

    pub fn height(&self) -> (r: usize)
        ensures
            r == self.spec_height(),
    {
        self.height
    }

    /// The index of an in-bounds cell in the backing vector.
    fn index(&self, x: i32, y: i32) -> (r: Option<usize>)
        requires
            self.wf(),
        ensures
            match r {
                Some(i) => self.in_bounds(x as int, y as int) && i == self.index_of(x as int, y as int)
                    && 0 <= i < self.cells@.len(),
                None => !self.in_bounds(x as int, y as int),
            },
    {
        if x < 0 || y < 0 || x as usize >= self.width || y as usize >= self.height {
            None
        } else {
            proof {
                assert(0 <= y * self.width + x < self.width * self.height) by (nonlinear_arith)
                    requires
                        0 <= x < self.width,
                        0 <= y < self.height,
                ;
            }
            Some(y as usize * self.width + x as usize)
        }
    }

    /// The particle at a cell; air outside the grid.
    pub fn get_particle_at(&self, pos: (i32, i32)) -> (r: Particle)
        requires
            self.wf(),
        ensures
            r == self.particle_at(pos.0 as int, pos.1 as int),
    {
        match self.index(pos.0, pos.1) {
            Some(i) => self.cells[i],
            None => Particle { element: ParticleElement::Air, vx: 0, vy: 0 },
        }
    }

    /// The element at a cell; air outside the grid. Never fails.
    pub fn get_element_at(&self, pos: (i32, i32)) -> (r: ParticleElement)
        requires
            self.wf(),
        ensures
            r == self.element_at(pos.0 as int, pos.1 as int),
    {
        self.get_particle_at(pos).element
    }

    /// Writes a particle into an in-bounds cell.
    fn set(&mut self, x: i32, y: i32, p: Particle)
        requires
            old(self).wf(),
            old(self).in_bounds(x as int, y as int),
        ensures
            final(self).wf(),
            final(self).same_except(old(self), x as int, y as int),
            final(self).particle_at(x as int, y as int) == p,
    {
        let i = self.index(x, y).unwrap();
        self.cells.set(i, p);
        proof {
            assert(self.cells@ == old(self).cells@.update(i as int, p));
            assert forall|a: int, b: int| !(a == x && b == y) implies #[trigger] self.particle_at(a, b)
                == old(self).particle_at(a, b) by {
                if self.in_bounds(a, b) {
                    Self::lemma_index(self.width as int, self.height as int, a, b, x as int, y as int);
                }
            }
        }
    }

    /// Places an element at rest in a cell when the placement policy allows it.
    /// Returns whether it was placed; a cell outside the grid is never written.
    pub fn insert_at(&mut self, pos: (i32, i32), element: ParticleElement, policy: Placement) -> (r: bool)
        requires
            old(self).wf(),
        ensures
            final(self).wf(),
            r == (old(self).in_bounds(pos.0 as int, pos.1 as int) && (policy == Placement::ReplaceAll
                || old(self).element_at(pos.0 as int, pos.1 as int) == ParticleElement::Air)),
            r ==> final(self).same_except(old(self), pos.0 as int, pos.1 as int)
                && final(self).particle_at(pos.0 as int, pos.1 as int) == (Particle { element, vx: 0, vy: 0 }),
            !r ==> *final(self) == *old(self),
    {
        let (x, y) = pos;
        match self.index(x, y) {
            None => false,
            Some(i) => {
                let allowed = match policy {
                    Placement::ReplaceAll => true,
                    Placement::ReplaceOnlyAir => self.cells[i].element == ParticleElement::Air,
                };
                if allowed {
                    self.set(x, y, Particle { element, vx: 0, vy: 0 });
                }
                allowed
            },
        }
    }

    /// Turns a cell into air. Cells outside the grid, and cells that already
    /// hold air, are left as they are.
    pub fn delete_at(&mut self, pos: (i32, i32))
        requires
            old(self).wf(),
        ensures
            final(self).wf(),
            final(self).same_except(old(self), pos.0 as int, pos.1 as int),
            old(self).element_at(pos.0 as int, pos.1 as int) == ParticleElement::Air ==> *final(self) == *old(self),
            old(self).element_at(pos.0 as int, pos.1 as int) != ParticleElement::Air ==> final(self).particle_at(
                pos.0 as int,
                pos.1 as int,
            ) == air(),
    {
        let (x, y) = pos;
        match self.index(x, y) {
            None => {},
            Some(i) => {
                if self.cells[i].element != ParticleElement::Air {
                    self.set(x, y, Particle { element: ParticleElement::Air, vx: 0, vy: 0 });
                }
            },
        }
    }

    /// Sets the velocity of a movable particle; a no-op on air, on stationary
    /// elements and outside the grid.
    pub fn give_velocity(&mut self, pos: (i32, i32), vx: i32, vy: i32)
        requires
            old(self).wf(),
        ensures
            final(self).wf(),
            final(self).same_except(old(self), pos.0 as int, pos.1 as int),
            ({
                let p = old(self).particle_at(pos.0 as int, pos.1 as int);
                final(self).particle_at(pos.0 as int, pos.1 as int) == if movable(p.element) {
                    Particle { element: p.element, vx, vy }
                } else {
                    p
                }
            }),
    {
        let (x, y) = pos;
        match self.index(x, y) {
            None => {},
            Some(i) => {
                let p = self.cells[i];
                if p.element.is_movable() {
                    self.set(x, y, Particle { element: p.element, vx, vy });
                }
            },
        }
    }

    /// Writes a particle, velocity included, into a cell of the grid.
    pub(crate) fn set_particle(&mut self, pos: (i32, i32), p: Particle)
        requires
            old(self).wf(),
            old(self).in_bounds(pos.0 as int, pos.1 as int),
        ensures
            final(self).wf(),
            final(self).same_except(old(self), pos.0 as int, pos.1 as int),
            final(self).particle_at(pos.0 as int, pos.1 as int) == p,
    {
        self.set(pos.0, pos.1, p);
    }
}

} // verus!
