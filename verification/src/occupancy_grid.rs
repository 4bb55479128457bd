//! The spatial occupancy index: a uniform grid over the arena floor, rebuilt
//! wholesale every tick from the agents' current positions, serving
//! near-constant-time neighborhood queries.

use crate::math::{dist2, distance_squared, Vec2i, COORD_LIMIT};
use vstd::arithmetic::div_mod::{
    lemma_div_is_ordered, lemma_div_plus_one, lemma_div_pos_is_pos, lemma_multiply_divide_lt,
};
use vstd::prelude::*;

verus! {

/// The grid: `cells[cx + width * cy]` lists the identifiers of the agents
/// whose position falls in the cell at `(cx, cy)`, in increasing order.
pub struct OccupancyGrid {
    /// Lower corner of the gridded floor region.
    pub min: Vec2i,
    /// Side length of a square cell; at least the largest query radius.
    pub cell_size: i64,
    /// Number of cells along the x axis.
    pub width: usize,
    /// Number of cells along the z axis.
    pub height: usize,
    /// Cell membership, row-major.
    pub cells: Vec<Vec<usize>>,
}

impl OccupancyGrid {
    /// Geometric well-formedness: positive cells covering a bounded region.
    pub open spec fn dims_ok(self) -> bool {
        &&& self.min.ok()
        &&& 0 < self.cell_size
        &&& 0 < self.width < 65536
        &&& 0 < self.height < 65536
        &&& self.width as int * self.cell_size as int <= 2 * COORD_LIMIT
        &&& self.height as int * self.cell_size as int <= 2 * COORD_LIMIT
        &&& self.cells@.len() == self.width as int * self.height as int
    }

    /// The gridded region covers this point.
    pub open spec fn in_bounds(self, p: Vec2i) -> bool {
        &&& self.min.x <= p.x < self.min.x + self.width as int * self.cell_size as int
        &&& self.min.y <= p.y < self.min.y + self.height as int * self.cell_size as int
    }

    pub open spec fn cell_x(self, p: Vec2i) -> int {
        (p.x - self.min.x) / (self.cell_size as int)
    }

    pub open spec fn cell_y(self, p: Vec2i) -> int {
        (p.y - self.min.y) / (self.cell_size as int)
    }

    /// Index of the unique cell containing `p`.
    pub open spec fn cell_of(self, p: Vec2i) -> int {
        self.cell_x(p) + self.width as int * self.cell_y(p)
    }

    /// The grid faithfully indexes `positions`: every listed identifier is an
    /// agent whose position lies in that very cell, every agent is listed in
    /// the cell containing its position, and each cell lists its agents in
    /// strictly increasing order (so none twice).
    pub open spec fn indexes(self, positions: Seq<Vec2i>) -> bool {
        &&& forall|c: int, k: int|
            0 <= c < self.cells@.len() && 0 <= k < self.cells@[c]@.len() ==> {
                &&& (#[trigger] self.cells@[c]@[k]) < positions.len()
                &&& self.cell_of(positions[self.cells@[c]@[k] as int]) == c
            }
        &&& forall|id: int|
            0 <= id < positions.len() ==> self.cells@[self.cell_of(#[trigger] positions[id])]@
                .contains(id as usize)
        &&& forall|c: int, k: int, l: int|
            0 <= c < self.cells@.len() && 0 <= k < l < self.cells@[c]@.len()
                ==> (#[trigger] self.cells@[c]@[k]) < (#[trigger] self.cells@[c]@[l])
    }

    /// The cell coordinates of an in-bounds point are on the grid, so its
    /// cell index is valid.
    pub proof fn lemma_cell_in_range(self, p: Vec2i)
        requires
            self.dims_ok(),
            self.in_bounds(p),
        ensures
            0 <= self.cell_x(p) < self.width,
            0 <= self.cell_y(p) < self.height,
            0 <= self.cell_of(p) < self.cells@.len(),
    {
        let cs = self.cell_size as int;
        let ax = p.x - self.min.x;
        let ay = p.y - self.min.y;
        lemma_div_pos_is_pos(ax, cs);
        lemma_div_pos_is_pos(ay, cs);
        assert(ax < (cs * self.width as int)) by (nonlinear_arith)
            requires
                ax < self.width as int * cs;
        assert(ay < (cs * self.height as int)) by (nonlinear_arith)
            requires
                ay < self.height as int * cs;
        lemma_multiply_divide_lt(ax, cs, self.width as int);
        lemma_multiply_divide_lt(ay, cs, self.height as int);
        assert((self.cell_x(p) + self.width as int * self.cell_y(p)) < (self.width as int
            * self.height as int)) by (nonlinear_arith)
            requires
                self.cell_x(p) < self.width as int,
                0 <= self.cell_y(p) < self.height as int,
                0 < self.width;
    }

    /// A fresh, empty grid.
    pub fn new(min: Vec2i, cell_size: i64, width: usize, height: usize) -> (g: OccupancyGrid)
        requires
            min.ok(),
            0 < cell_size,
            0 < width < 65536,
            0 < height < 65536,
            width as int * cell_size as int <= 2 * COORD_LIMIT,
            height as int * cell_size as int <= 2 * COORD_LIMIT,
        ensures
            g.dims_ok(),
            g.min == min,
            g.cell_size == cell_size,
            g.width == width,
            g.height == height,
            forall|c: int| 0 <= c < g.cells@.len() ==> (#[trigger] g.cells@[c])@.len() == 0,
    {
        proof {
            assert((width as int * height as int) < (65536 * 65536)) by (nonlinear_arith)
                requires
                    0 < width < 65536,
                    0 < height < 65536;
        }
        let n_cells: usize = width * height;
        let mut cells: Vec<Vec<usize>> = Vec::new();
        let mut c: usize = 0;
        while c < n_cells
            invariant
                c <= n_cells,
                cells@.len() == c,
                forall|k: int| 0 <= k < c ==> (#[trigger] cells@[k])@.len() == 0,
            decreases n_cells - c,
        {
            cells.push(Vec::new());
            c = c + 1;
        }
        OccupancyGrid { min, cell_size, width, height, cells }
    }

    /// The valid cell index of an in-bounds point.
    fn cell_index(&self, p: Vec2i) -> (c: usize)
        requires
            self.dims_ok(),
            self.in_bounds(p),
        ensures
            c == self.cell_of(p),
            c < self.cells@.len(),
    {
        proof {
            self.lemma_cell_in_range(p);
        }
        let cx = ((p.x - self.min.x) / self.cell_size) as usize;
        let cy = ((p.y - self.min.y) / self.cell_size) as usize;
        let n_cells = self.cells.len();
        proof {
            assert((cx as int + self.width as int * cy as int) < (self.width as int
                * self.height as int)) by (nonlinear_arith)
                requires
                    cx as int == self.cell_x(p),
                    cy as int == self.cell_y(p),
                    self.cell_x(p) < self.width as int,
                    0 <= self.cell_x(p),
                    0 <= self.cell_y(p) < self.height as int,
                    0 < self.width;
            assert((cx as int + self.width as int * cy as int) < (n_cells as int));
        }
        cx + self.width * cy
    }

    /// Rebuilds the index in one pass: clears every cell, then files each
    /// agent identifier under the cell containing its current position.
    /// Rebuilt wholesale, never patched, so no stale entry can survive a fast
    /// mover.
    pub fn update(&mut self, positions: &Vec<Vec2i>)
        requires
            old(self).dims_ok(),
            forall|i: int|
                0 <= i < positions@.len() ==> old(self).in_bounds(#[trigger] positions@[i]),
        ensures
            final(self).dims_ok(),
            final(self).min == old(self).min,
            final(self).cell_size == old(self).cell_size,
            final(self).width == old(self).width,
            final(self).height == old(self).height,
            final(self).indexes(positions@),
    {
        let ghost dims = *self;
        let n_cells = self.cells.len();
        let mut c: usize = 0;
        while c < n_cells
            invariant
                self.min == dims.min,
                self.cell_size == dims.cell_size,
                self.width == dims.width,
                self.height == dims.height,
                self.cells@.len() == n_cells,
                dims.dims_ok(),
                n_cells == dims.cells@.len(),
                c <= n_cells,
                forall|k: int| 0 <= k < c ==> (#[trigger] self.cells@[k])@.len() == 0,
            decreases n_cells - c,
        {
            self.cells[c] = Vec::new();
            c = c + 1;
        }
        let mut id: usize = 0;
        while id < positions.len()
            invariant
                self.min == dims.min,
                self.cell_size == dims.cell_size,
                self.width == dims.width,
                self.height == dims.height,
                self.cells@.len() == dims.cells@.len(),
                dims.dims_ok(),
                forall|i: int|
                    0 <= i < positions@.len() ==> dims.in_bounds(#[trigger] positions@[i]),
                id <= positions@.len(),
                forall|cc: int, k: int|
                    0 <= cc < self.cells@.len() && 0 <= k < self.cells@[cc]@.len() ==> {
                        &&& (#[trigger] self.cells@[cc]@[k]) < id
                        &&& self.cell_of(positions@[self.cells@[cc]@[k] as int]) == cc
                    },
                forall|i: int|
                    0 <= i < id ==> self.cells@[self.cell_of(#[trigger] positions@[i])]@.contains(
                        i as usize,
                    ),
                forall|cc: int, k: int, l: int|
                    0 <= cc < self.cells@.len() && 0 <= k < l < self.cells@[cc]@.len()
                        ==> (#[trigger] self.cells@[cc]@[k]) < (#[trigger] self.cells@[cc]@[l]),
            decreases positions@.len() - id,
        {
            let p = positions[id];
            let cidx = self.cell_index(p);
            let ghost before = self.cells@;
            self.cells[cidx].push(id);
            proof {
                assert(self.cells@[cidx as int]@ == before[cidx as int]@.push(id));
                assert(forall|cc: int|
                    0 <= cc < before.len() && cc != cidx ==> #[trigger] self.cells@[cc]
                        == before[cc]);
                assert forall|i: int| 0 <= i < id + 1 implies self.cells@[self.cell_of(
                    #[trigger] positions@[i],
                )]@.contains(i as usize) by {
                    let ci = self.cell_of(positions@[i]);
                    assert(self.dims_ok());
                    self.lemma_cell_in_range(positions@[i]);
                    if i < id {
                        assert(before[ci]@.contains(i as usize));
                        let k = choose|k: int|
                            0 <= k < before[ci]@.len() && before[ci]@[k] == i as usize;
                        assert(self.cells@[ci]@[k] == i as usize);
                    } else {
                        assert(self.cells@[cidx as int]@[before[cidx as int]@.len() as int]
                            == id);
                    }
                }
            }
            id = id + 1;
        }
    }
}

impl OccupancyGrid {
    /// The cell of `q` lies in the three-by-three block around the cell of `p`.
    pub open spec fn in_neighborhood(self, p: Vec2i, q: Vec2i) -> bool {
        &&& self.cell_x(p) - 1 <= self.cell_x(q) <= self.cell_x(p) + 1
        &&& self.cell_y(p) - 1 <= self.cell_y(q) <= self.cell_y(p) + 1
    }

    /// The cell of `q` was already scanned when the neighborhood walk around
    /// the cell of `p` stands at row offset `oy`, column offset `ox`
    /// (row-major over offsets 0..3).
    pub open spec fn scanned_before(self, p: Vec2i, q: Vec2i, oy: int, ox: int) -> bool {
        let ddx = self.cell_x(q) - self.cell_x(p) + 1;
        let ddy = self.cell_y(q) - self.cell_y(p) + 1;
        &&& 0 <= ddx < 3
        &&& 0 <= ddy < 3
        &&& (ddy < oy || (ddy == oy && ddx < ox))
    }

    /// Points within one cell side of each other on both axes sit in the same
    /// or adjacent cells.
    pub proof fn lemma_cell_proximity(self, p: Vec2i, q: Vec2i)
        requires
            self.dims_ok(),
            self.in_bounds(p),
            self.in_bounds(q),
            vstd::math::abs(p.x - q.x) <= self.cell_size,
            vstd::math::abs(p.y - q.y) <= self.cell_size,
        ensures
            self.in_neighborhood(p, q),
    {
        let cs = self.cell_size as int;
        let a = q.x - self.min.x;
        let b = p.x - self.min.x;
        lemma_div_is_ordered(a, b + cs, cs);
        lemma_div_plus_one(b, cs);
        assert(b + cs == cs + b);
        lemma_div_is_ordered(b, a + cs, cs);
        lemma_div_plus_one(a, cs);
        assert(a + cs == cs + a);
        let ay = q.y - self.min.y;
        let by = p.y - self.min.y;
        lemma_div_is_ordered(ay, by + cs, cs);
        lemma_div_plus_one(by, cs);
        assert(by + cs == cs + by);
        lemma_div_is_ordered(by, ay + cs, cs);
        lemma_div_plus_one(ay, cs);
        assert(ay + cs == cs + ay);
    }

    /// A valid cell index decomposes into unique cell coordinates.
    pub proof fn lemma_cell_decompose(self, q: Vec2i, gx: int, gy: int)
        requires
            self.dims_ok(),
            self.in_bounds(q),
            0 <= gx < self.width,
            0 <= gy < self.height,
            self.cell_of(q) == gx + self.width as int * gy,
        ensures
            self.cell_x(q) == gx,
            self.cell_y(q) == gy,
    {
        self.lemma_cell_in_range(q);
        assert(self.cell_x(q) == gx && self.cell_y(q) == gy) by (nonlinear_arith)
            requires
                0 <= self.cell_x(q) < self.width as int,
                0 <= gx < self.width as int,
                self.cell_x(q) + self.width as int * self.cell_y(q) == gx + self.width as int * gy;
    }

    /// An identifier is listed in cell `c` exactly when `c` is the cell of
    /// its position.
    pub proof fn lemma_listed_iff_cell(self, positions: Seq<Vec2i>, c: int, id: usize)
        requires
            self.dims_ok(),
            self.indexes(positions),
            0 <= c < self.cells@.len(),
            0 <= id < positions.len(),
        ensures
            self.cells@[c]@.contains(id) <==> self.cell_of(positions[id as int]) == c,
    {
        if self.cells@[c]@.contains(id) {
            let k = choose|k: int| 0 <= k < self.cells@[c]@.len() && self.cells@[c]@[k] == id;
            assert(self.cell_of(positions[self.cells@[c]@[k] as int]) == c);
        }
        if self.cell_of(positions[id as int]) == c {
            assert(self.cells@[self.cell_of(positions[id as int])]@.contains(id));
        }
    }

    /// The walk's bookkeeping: the result holds exactly the agents within
    /// reach whose cell the walk has already scanned.
    pub open spec fn walk_inv(
        self,
        positions: Seq<Vec2i>,
        p: Vec2i,
        radius: i64,
        r: Seq<usize>,
        oy: int,
        ox: int,
    ) -> bool {
        forall|id: usize|
            #[trigger] r.contains(id) <==> {
                &&& (id as int) < positions.len()
                &&& dist2(p, positions[id as int]) <= radius * radius
                &&& self.scanned_before(p, positions[id as int], oy, ox)
            }
    }

    /// The agents within `radius` of `p`, each exactly once, found by
    /// scanning the cell of `p` and its eight neighbors; the scan is complete
    /// because a cell side is no shorter than the query radius.
    pub fn query_neighbors(&self, positions: &Vec<Vec2i>, p: Vec2i, radius: i64) -> (r: Vec<usize>)
        requires
            self.dims_ok(),
            self.indexes(positions@),
            forall|i: int|
                0 <= i < positions@.len() ==> (#[trigger] positions@[i]).ok() && self.in_bounds(
                    positions@[i],
                ),
            p.ok(),
            self.in_bounds(p),
            0 < radius <= self.cell_size,
        ensures
            forall|id: usize|
                #[trigger] r@.contains(id) <==> (id as int) < positions@.len() && dist2(
                    p,
                    positions@[id as int],
                ) <= radius * radius,
            forall|k: int, l: int| 0 <= k < l < r@.len() ==> r@[k] != r@[l],
    {
        proof {
            self.lemma_cell_in_range(p);
            assert(radius <= 2 * COORD_LIMIT) by (nonlinear_arith)
                requires
                    0 < radius,
                    radius <= self.cell_size,
                    0 < self.width,
                    self.width as int * self.cell_size as int <= 2 * COORD_LIMIT;
            assert((radius * radius) <= (4 * COORD_LIMIT * COORD_LIMIT)) by (nonlinear_arith)
                requires
                    0 < radius <= 2 * COORD_LIMIT;
        }
        let r2 = radius * radius;
        let mut r: Vec<usize> = Vec::new();
        let cx = ((p.x - self.min.x) / self.cell_size) as usize;
        let cy = ((p.y - self.min.y) / self.cell_size) as usize;
        let mut oy: usize = 0;
        while oy < 3
            invariant
                self.dims_ok(),
                self.indexes(positions@),
                forall|i: int|
                    0 <= i < positions@.len() ==> (#[trigger] positions@[i]).ok()
                        && self.in_bounds(positions@[i]),
                p.ok(),
                self.in_bounds(p),
                0 < radius <= self.cell_size,
                r2 == radius * radius,
                cx as int == self.cell_x(p),
                cy as int == self.cell_y(p),
                oy <= 3,
                self.walk_inv(positions@, p, radius, r@, oy as int, 0),
                forall|k: int, l: int| 0 <= k < l < r@.len() ==> r@[k] != r@[l],
            decreases 3 - oy,
        {
            let mut ox: usize = 0;
            while ox < 3
                invariant
                    self.dims_ok(),
                    self.indexes(positions@),
                    forall|i: int|
                        0 <= i < positions@.len() ==> (#[trigger] positions@[i]).ok()
                            && self.in_bounds(positions@[i]),
                    p.ok(),
                    self.in_bounds(p),
                    0 < radius <= self.cell_size,
                    r2 == radius * radius,
                    cx as int == self.cell_x(p),
                    cy as int == self.cell_y(p),
                    oy < 3,
                    ox <= 3,
                    self.walk_inv(positions@, p, radius, r@, oy as int, ox as int),
                    forall|k: int, l: int| 0 <= k < l < r@.len() ==> r@[k] != r@[l],
                decreases 3 - ox,
            {
                let gx = cx as i64 + ox as i64 - 1;
                let gy = cy as i64 + oy as i64 - 1;
                if 0 <= gx && gx < self.width as i64 && 0 <= gy && gy < self.height as i64 {
                    let n_cells = self.cells.len();
                    proof {
                        assert((gx as int + self.width as int * gy as int) < (self.width as int
                            * self.height as int)) by (nonlinear_arith)
                            requires
                                0 <= (gx as int) && (gx as int) < self.width as int,
                                0 <= (gy as int) && (gy as int) < self.height as int;
                        assert((gx as int + self.width as int * gy as int) < (n_cells as int));
                    }
                    let c = (gx as usize) + self.width * (gy as usize);
                    let ghost cg = c as int;
                    let mut k: usize = 0;
                    let n_in_cell = self.cells[c].len();
                    while k < n_in_cell
                        invariant
                            self.dims_ok(),
                            self.indexes(positions@),
                            forall|i: int|
                                0 <= i < positions@.len() ==> (#[trigger] positions@[i]).ok()
                                    && self.in_bounds(positions@[i]),
                            p.ok(),
                            self.in_bounds(p),
                            0 < radius <= self.cell_size,
                            r2 == radius * radius,
                            cx as int == self.cell_x(p),
                            cy as int == self.cell_y(p),
                            oy < 3,
                            ox < 3,
                            gx as int == cx as int + ox as int - 1,
                            gy as int == cy as int + oy as int - 1,
                            0 <= (gx as int) && (gx as int) < self.width as int,
                            0 <= (gy as int) && (gy as int) < self.height as int,
                            cg == gx as int + self.width as int * gy as int,
                            0 <= cg < self.cells@.len(),
                            c == cg,
                            n_in_cell == self.cells@[cg]@.len(),
                            k <= n_in_cell,
                            forall|idq: usize|
                                #[trigger] r@.contains(idq) <==> {
                                    &&& (idq as int) < positions@.len()
                                    &&& dist2(p, positions@[idq as int]) <= radius * radius
                                    &&& (self.scanned_before(
                                        p,
                                        positions@[idq as int],
                                        oy as int,
                                        ox as int,
                                    ) || self.cells@[cg]@.take(k as int).contains(idq))
                                },
                            forall|k1: int, l1: int| 0 <= k1 < l1 < r@.len() ==> r@[k1] != r@[l1],
                        decreases n_in_cell - k,
                    {
                        let id = self.cells[c][k];
                        proof {
                            assert(self.cells@[cg]@[k as int] == id);
                            assert((id as int) < positions@.len());
                        }
                        let d2 = distance_squared(p, positions[id]);
                        let ghost r_prev = r@;
                        if d2 <= r2 {
                            proof {
                                let q = positions@[id as int];
                                assert(self.cells@[cg]@.contains(id));
                                self.lemma_listed_iff_cell(positions@, cg, id);
                                self.lemma_cell_decompose(q, gx as int, gy as int);
                                // not scanned yet, and not earlier in this cell
                                assert(!self.scanned_before(p, q, oy as int, ox as int));
                                assert(!self.cells@[cg]@.take(k as int).contains(id)) by {
                                    if self.cells@[cg]@.take(k as int).contains(id) {
                                        let w = choose|w: int|
                                            0 <= w < k && #[trigger] self.cells@[cg]@.take(
                                                k as int,
                                            )[w] == id;
                                        assert(self.cells@[cg]@[w] < self.cells@[cg]@[k as int]);
                                    }
                                }
                                assert(!r@.contains(id));
                            }
                            r.push(id);
                            proof {
                                assert(r@ == r_prev.push(id));
                                assert forall|k1: int, l1: int|
                                    0 <= k1 < l1 < r@.len() implies r@[k1] != r@[l1] by {
                                    if l1 == r_prev.len() {
                                        assert(r@[l1] == id);
                                        if r@[k1] == id {
                                            assert(r_prev[k1] == id);
                                            assert(r_prev.contains(id));
                                        }
                                    } else {
                                        assert(r@[k1] == r_prev[k1] && r@[l1] == r_prev[l1]);
                                    }
                                }
                            }
                        }
                        proof {
                            let cell = self.cells@[cg]@;
                            assert forall|idq: usize|
                                #[trigger] cell.take(k as int + 1).contains(idq) implies (cell.take(
                                k as int,
                            ).contains(idq) || idq == id) by {
                                let w = choose|w: int|
                                    0 <= w < k + 1 && #[trigger] cell.take(k as int + 1)[w] == idq;
                                if w < k {
                                    assert(cell.take(k as int)[w] == idq);
                                }
                            }
                            assert forall|idq: usize|
                                #[trigger] cell.take(k as int).contains(idq) implies cell.take(
                                k as int + 1,
                            ).contains(idq) by {
                                let w = choose|w: int|
                                    0 <= w < k && #[trigger] cell.take(k as int)[w] == idq;
                                assert(cell.take(k as int + 1)[w] == idq);
                            }
                            assert(cell.take(k as int + 1)[k as int] == id);
                            assert(cell.take(k as int + 1).contains(id));
                            if d2 <= r2 {
                                assert forall|idq: usize| #[trigger] r@.contains(idq) implies (
                                r_prev.contains(idq) || idq == id) by {
                                    let w = choose|w: int|
                                        0 <= w < r@.len() && #[trigger] r@[w] == idq;
                                    if w < r_prev.len() {
                                        assert(r_prev[w] == idq);
                                    }
                                }
                                assert forall|idq: usize|
                                    #[trigger] r_prev.contains(idq) implies r@.contains(idq) by {
                                    let w = choose|w: int|
                                        0 <= w < r_prev.len() && #[trigger] r_prev[w] == idq;
                                    assert(r@[w] == idq);
                                }
                                assert(r@[r_prev.len() as int] == id);
                                assert(r@.contains(id));
                            } else {
                                assert(r@ == r_prev);
                            }
                            assert forall|idq: usize| #[trigger] r@.contains(idq) <==> {
                                &&& (idq as int) < positions@.len()
                                &&& dist2(p, positions@[idq as int]) <= radius * radius
                                &&& (self.scanned_before(
                                    p,
                                    positions@[idq as int],
                                    oy as int,
                                    ox as int,
                                ) || cell.take(k as int + 1).contains(idq))
                            } by {
                                assert(r_prev.contains(idq) <==> {
                                    &&& (idq as int) < positions@.len()
                                    &&& dist2(p, positions@[idq as int]) <= radius * radius
                                    &&& (self.scanned_before(
                                        p,
                                        positions@[idq as int],
                                        oy as int,
                                        ox as int,
                                    ) || cell.take(k as int).contains(idq))
                                });
                            }
                        }
                        k = k + 1;
                    }
                    proof {
                        let cell = self.cells@[cg]@;
                        assert(cell.take(n_in_cell as int) =~= cell);
                        assert forall|idq: usize|
                            (idq as int) < positions@.len() && self.scanned_before(
                                p,
                                positions@[idq as int],
                                oy as int,
                                ox as int + 1,
                            ) implies (self.scanned_before(
                            p,
                            positions@[idq as int],
                            oy as int,
                            ox as int,
                        ) || cell.contains(idq)) by {
                            let q = positions@[idq as int];
                            if !self.scanned_before(p, q, oy as int, ox as int) {
                                assert(self.cell_x(q) == gx as int && self.cell_y(q) == gy as int);
                                assert(self.cell_of(q) == cg);
                                self.lemma_listed_iff_cell(positions@, cg, idq);
                            }
                        }
                        assert forall|idq: usize|
                            (idq as int) < positions@.len() && cell.contains(idq)
                                implies self.scanned_before(
                            p,
                            positions@[idq as int],
                            oy as int,
                            ox as int + 1,
                        ) by {
                            self.lemma_listed_iff_cell(positions@, cg, idq);
                            self.lemma_cell_decompose(positions@[idq as int], gx as int, gy as int);
                        }
                        assert forall|idq: usize| #[trigger] r@.contains(idq) <==> {
                            &&& (idq as int) < positions@.len()
                            &&& dist2(p, positions@[idq as int]) <= radius * radius
                            &&& self.scanned_before(
                                p,
                                positions@[idq as int],
                                oy as int,
                                ox as int + 1,
                            )
                        } by {
                            assert(r@.contains(idq) <==> {
                                &&& (idq as int) < positions@.len()
                                &&& dist2(p, positions@[idq as int]) <= radius * radius
                                &&& (self.scanned_before(
                                    p,
                                    positions@[idq as int],
                                    oy as int,
                                    ox as int,
                                ) || cell.take(n_in_cell as int).contains(idq))
                            });
                        }
                    }
                } else {
                    proof {
                        assert forall|idq: usize| #[trigger] r@.contains(idq) <==> {
                            &&& (idq as int) < positions@.len()
                            &&& dist2(p, positions@[idq as int]) <= radius * radius
                            &&& self.scanned_before(
                                p,
                                positions@[idq as int],
                                oy as int,
                                ox as int + 1,
                            )
                        } by {
                            if (idq as int) < positions@.len() {
                                let q = positions@[idq as int];
                                self.lemma_cell_in_range(q);
                            }
                        }
                    }
                }
                ox = ox + 1;
            }
            proof {
                assert forall|idq: usize| #[trigger] r@.contains(idq) <==> {
                    &&& (idq as int) < positions@.len()
                    &&& dist2(p, positions@[idq as int]) <= radius * radius
                    &&& self.scanned_before(p, positions@[idq as int], oy as int + 1, 0)
                } by {
                    assert(r@.contains(idq) <==> {
                        &&& (idq as int) < positions@.len()
                        &&& dist2(p, positions@[idq as int]) <= radius * radius
                        &&& self.scanned_before(p, positions@[idq as int], oy as int, 3)
                    });
                }
            }
            oy = oy + 1;
        }
        proof {
            assert forall|id: usize|
                (id as int) < positions@.len() && dist2(p, positions@[id as int]) <= radius
                    * radius implies #[trigger] r@.contains(id) by {
                let q = positions@[id as int];
                let dx = p.x - q.x;
                let dy = p.y - q.y;
                assert(vstd::math::abs(dx) <= radius && vstd::math::abs(dy) <= radius)
                    by (nonlinear_arith)
                    requires
                        dx * dx + dy * dy <= radius * radius,
                        radius > 0,
                        dx == p.x - q.x,
                        dy == p.y - q.y,
                        dist2(p, q) == dx * dx + dy * dy,
                        dist2(p, q) <= radius * radius;
                self.lemma_cell_proximity(p, q);
                assert(self.scanned_before(p, q, 3, 0));
            }
        }
        r
    }
}

/// After a rebuild, every agent stands in exactly one cell: the one that
/// contains its position, and in no other.
pub proof fn lemma_exactly_one_cell(g: OccupancyGrid, positions: Seq<Vec2i>, id: int)
    requires
        g.dims_ok(),
        g.indexes(positions),
        0 <= id < positions.len(),
        forall|i: int| 0 <= i < positions.len() ==> g.in_bounds(#[trigger] positions[i]),
    ensures
        0 <= g.cell_of(positions[id]) < g.cells@.len(),
        g.cells@[g.cell_of(positions[id])]@.contains(id as usize),
        forall|c: int|
            0 <= c < g.cells@.len() && c != g.cell_of(positions[id])
                ==> !(#[trigger] g.cells@[c])@.contains(id as usize),
{
    g.lemma_cell_in_range(positions[id]);
    assert forall|c: int|
        0 <= c < g.cells@.len() && c != g.cell_of(positions[id]) implies !(#[trigger] g.cells@[c])@
        .contains(id as usize) by {
        if g.cells@[c]@.contains(id as usize) {
            let k = choose|k: int| 0 <= k < g.cells@[c]@.len() && g.cells@[c]@[k] == id as usize;
            assert(g.cell_of(positions[g.cells@[c]@[k] as int]) == c);
        }
    }
}

} // verus!
