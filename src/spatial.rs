//! Uniform-grid spatial index over the square arena.
//!
//! The grid has `dim * dim` cells, addressed by column `x` and row `y`
//! (`index = x + y * dim`). Each cell holds the ids of the entities whose
//! centre falls in it. The mapping from world positions to cell coordinates
//! is done by the caller; every coordinate handed in here is clamped to the
//! grid, so off-arena positions land in the border cells.
use vstd::prelude::*;
use vstd::set_lib::{lemma_int_range, lemma_len_subset, set_int_range};

use crate::entity::EntityId;
use crate::spatial_node::{cell_ids, cell_push, cell_slice, cell_swap_remove, empty_cell, SpatialDbNode};

verus! {

/// Cell index meaning "not in the grid".
pub const NO_SPATIAL_ID: u32 = 0xffff_ffff;

/// Entity indices the grid can hold are below this bound; it keeps every
/// cell list far below the size at which growing it would fail.
pub const MAX_ENTITIES: usize = 0x1000_0000;

/// A grid cell index, or `NO_SPATIAL_ID`.
#[derive(Clone, Copy, Debug, PartialEq, Eq, Structural)]
pub struct SpatialId(pub u32);

impl SpatialId {
    /// The "not in the grid" id.
    pub fn new() -> (r: SpatialId)
        ensures
            r.0 == NO_SPATIAL_ID,
    {
        SpatialId(NO_SPATIAL_ID)
    }

    pub open spec fn valid(self) -> bool {
        self.0 != NO_SPATIAL_ID
    }

    pub fn is_valid(&self) -> (r: bool)
        ensures
            r == self.valid(),
    {
        self.0 != NO_SPATIAL_ID
    }
}

/// Per-entity record of the cell that currently holds it.
#[derive(Clone, Copy, Debug)]
pub struct SpatialDbRef {
    pub spatial_id: SpatialId,
}

pub open spec fn clamp_coord(v: int, hi: int) -> int {
    if v < 0 {
        0
    } else if v > hi {
        hi
    } else {
        v
    }
}

pub struct SpatialDb {
    dim: u32,
    nodes: Vec<SpatialDbNode>,
}

impl SpatialDb {
    /// Number of cells along each axis.
    pub closed spec fn spec_dim(&self) -> int {
        self.dim as int
    }

    /// The ids of every cell, by cell index.
    pub closed spec fn cells(&self) -> Seq<Seq<usize>> {
        self.nodes@.map_values(|n: SpatialDbNode| cell_ids(n))
    }

    pub open spec fn index_of(&self, x: int, y: int) -> int {
        x + y * self.spec_dim()
    }

    pub open spec fn in_cell(&self, c: int, id: usize) -> bool {
        0 <= c < self.cells().len() && self.cells()[c].contains(id)
    }

    /// Some cell holds `id`.
    pub open spec fn holds(&self, id: usize) -> bool {
        exists|c: int| self.in_cell(c, id)
    }

    /// Index of the cell that the (clamped) coordinates name.
    pub open spec fn cell_at(&self, x: int, y: int) -> int {
        self.index_of(
            clamp_coord(x, self.spec_dim() - 1),
            clamp_coord(y, self.spec_dim() - 1),
        )
    }

    /// The grid is sized `dim * dim`, and every id sits in at most one
    /// place of it.
    pub open spec fn wf(&self) -> bool {
        &&& 0 < self.spec_dim()
        &&& self.spec_dim() * self.spec_dim() == self.cells().len()
        &&& self.cells().len() < NO_SPATIAL_ID
        &&& forall|c: int, k: int|
            0 <= c < self.cells().len() && 0 <= k < self.cells()[c].len()
                ==> #[trigger] self.cells()[c][k] < MAX_ENTITIES
        &&& forall|c1: int, k1: int, c2: int, k2: int|
            0 <= c1 < self.cells().len() && 0 <= k1 < self.cells()[c1].len() && 0 <= c2
                < self.cells().len() && 0 <= k2 < self.cells()[c2].len()
                && #[trigger] self.cells()[c1][k1] == #[trigger] self.cells()[c2][k2] ==> c1 == c2
                && k1 == k2
    }

    /// `r` describes where `id` is: the cell holding it, or "none" when the
    /// grid does not hold it.
    pub open spec fn tracks(&self, id: usize, r: SpatialDbRef) -> bool {
        if r.spatial_id.valid() {
            self.in_cell(r.spatial_id.0 as int, id)
        } else {
            !self.holds(id)
        }
    }

    pub fn new(dim: u32) -> (r: SpatialDb)
        requires
            0 < dim,
            dim * dim < NO_SPATIAL_ID,
        ensures
            r.wf(),
            r.spec_dim() == dim,
            forall|id: usize| !r.holds(id),
    {
        let n: usize = dim as usize * dim as usize;
        let mut nodes: Vec<SpatialDbNode> = Vec::new();
        while nodes.len() < n
            invariant
                nodes.len() <= n,
                forall|c: int| 0 <= c < nodes.len() ==> cell_ids(#[trigger] nodes@[c]).len() == 0,
            decreases n - nodes.len(),
        {
            nodes.push(empty_cell());
        }
        let r = SpatialDb { dim, nodes };
        assert forall|id: usize| !r.holds(id) by {
            if r.holds(id) {
                let c = choose|c: int| r.in_cell(c, id);
                assert(r.cells()[c].len() == 0);
            }
        }
        r
    }

    pub fn get_dim(&self) -> (r: u32)
        ensures
            r == self.spec_dim(),
    {
        self.dim
    }

    /// The cell holding position `(cell_x, cell_y)`, each coordinate clamped
    /// to `0 ..= dim - 1`.
    pub fn get_spatial_id(&self, cell_x: i64, cell_y: i64) -> (r: SpatialId)
        requires
            self.wf(),
        ensures
            r.0 == self.cell_at(cell_x as int, cell_y as int),
            r.0 < self.cells().len(),
            r.valid(),
    {
        let x = self.clamp(cell_x);
        let y = self.clamp(cell_y);
        proof {
            lemma_index_in_grid(x as int, y as int, self.dim as int);
        }
        SpatialId(x + y * self.dim)
    }

    /// Takes `entity_id` out of the grid; `spatial_ref` becomes "none".
    /// Nothing changes when `spatial_ref` is already "none".
    pub fn remove(&mut self, entity_id: EntityId, spatial_ref: &mut SpatialDbRef)
        requires
            old(self).wf(),
            old(self).tracks(entity_id.0, *old(spatial_ref)),
        ensures
            final(self).wf(),
            final(self).spec_dim() == old(self).spec_dim(),
            !final(spatial_ref).spatial_id.valid(),
            !old(spatial_ref).spatial_id.valid() ==> final(self).cells() == old(self).cells(),
            !final(self).holds(entity_id.0),
            forall|c: int, id: usize|
                #[trigger] final(self).in_cell(c, id) == (id != entity_id.0 && old(self).in_cell(c, id)),
    {
        if !spatial_ref.spatial_id.is_valid() {
            return;
        }
        let c = spatial_ref.spatial_id.0 as usize;
        let ghost pre = self.cells();
        let ghost cell = pre[c as int];
        let objects = cell_slice(&self.nodes[c]);
        let mut idx: usize = 0;
        while idx < objects.len()
            invariant
                objects@ == cell,
                idx <= objects.len(),
                forall|k: int| 0 <= k < idx ==> objects@[k] != entity_id.0,
            ensures
                idx < objects.len() ==> objects@[idx as int] == entity_id.0,
                forall|k: int| 0 <= k < idx ==> objects@[k] != entity_id.0,
            decreases objects.len() - idx,
        {
            if objects[idx] == entity_id.0 {
                break;
            }
            idx += 1;
        }
        assert(idx < cell.len());
        let _ = cell_swap_remove(&mut self.nodes[c], idx);
        spatial_ref.spatial_id = SpatialId::new();
        proof {
            let post = self.cells();
            let newcell = cell.update(idx as int, cell.last()).drop_last();
            assert(post == pre.update(c as int, newcell));
            // where each entry of the shrunk cell came from
            let src = |k: int| if k == idx as int { cell.len() - 1 } else { k };
            assert forall|k: int| 0 <= k < newcell.len() implies newcell[k] == cell[src(k)]
                && 0 <= src(k) < cell.len() && src(k) != idx as int by {}
            assert forall|id: usize| newcell.contains(id) == (id != entity_id.0 && cell.contains(id)) by {
                if cell.contains(id) && id != entity_id.0 {
                    let k = choose|k: int| 0 <= k < cell.len() && cell[k] == id;
                    assert(k != idx as int);
                    if k == cell.len() - 1 {
                        assert(newcell[idx as int] == id);
                    } else {
                        assert(newcell[k] == id);
                    }
                }
                if newcell.contains(id) {
                    let k = choose|k: int| 0 <= k < newcell.len() && newcell[k] == id;
                    assert(cell[src(k)] == id);
                    assert(pre[c as int][src(k)] == id);
                    assert(pre[c as int][idx as int] == entity_id.0);
                }
            }
            assert forall|cc: int, id: usize| #[trigger] self.in_cell(cc, id) == (id != entity_id.0 && old(self).in_cell(cc, id)) by {
                if cc != c as int && 0 <= cc < pre.len() && pre[cc].contains(id) && id == entity_id.0 {
                    let k = choose|k: int| 0 <= k < pre[cc].len() && pre[cc][k] == id;
                    assert(pre[c as int][idx as int] == entity_id.0);
                }
            }
            assert forall|c1: int, k1: int, c2: int, k2: int|
                0 <= c1 < post.len() && 0 <= k1 < post[c1].len() && 0 <= c2 < post.len() && 0 <= k2 < post[c2].len()
                && #[trigger] post[c1][k1] == #[trigger] post[c2][k2] implies c1 == c2 && k1 == k2 by {
                let o1 = if c1 == c as int { src(k1) } else { k1 };
                let o2 = if c2 == c as int { src(k2) } else { k2 };
                assert(post[c1][k1] == pre[c1][o1]);
                assert(post[c2][k2] == pre[c2][o2]);
            }
            assert forall|cc: int, k: int| 0 <= cc < post.len() && 0 <= k < post[cc].len() implies #[trigger] post[cc][k] < MAX_ENTITIES by {
                let o = if cc == c as int { src(k) } else { k };
                assert(post[cc][k] == pre[cc][o]);
            }
        }
    }

    /// Moves `entity_id` to the cell at `(cell_x, cell_y)` (clamped), or
    /// puts it there when the grid does not hold it yet; `spatial_ref`
    /// then names that cell. Nothing moves when the cell is unchanged.
    pub fn update(
        &mut self,
        entity_id: EntityId,
        cell_x: i64,
        cell_y: i64,
        spatial_ref: &mut SpatialDbRef,
    )
        requires
            old(self).wf(),
            old(self).tracks(entity_id.0, *old(spatial_ref)),
            entity_id.0 < MAX_ENTITIES,
        ensures
            final(self).wf(),
            final(self).spec_dim() == old(self).spec_dim(),
            final(spatial_ref).spatial_id.0 == old(self).cell_at(cell_x as int, cell_y as int),
            final(self).tracks(entity_id.0, *final(spatial_ref)),
            old(spatial_ref).spatial_id.0 == old(self).cell_at(cell_x as int, cell_y as int)
                ==> final(self).cells() == old(self).cells(),
            forall|c: int, id: usize|
                #[trigger] final(self).in_cell(c, id) == if id == entity_id.0 {
                    c == old(self).cell_at(cell_x as int, cell_y as int)
                } else {
                    old(self).in_cell(c, id)
                },
    {
        let new_spatial_id = self.get_spatial_id(cell_x, cell_y);
        if new_spatial_id.0 == spatial_ref.spatial_id.0 {
            proof {
                assert forall|c: int, id: usize|
                    #[trigger] self.in_cell(c, id) == if id == entity_id.0 {
                        c == self.cell_at(cell_x as int, cell_y as int)
                    } else {
                        self.in_cell(c, id)
                    } by {
                    if id == entity_id.0 && self.in_cell(c, id) {
                        let k1 = choose|k: int| 0 <= k < self.cells()[c].len() && self.cells()[c][k] == id;
                        let c2 = new_spatial_id.0 as int;
                        let k2 = choose|k: int| 0 <= k < self.cells()[c2].len() && self.cells()[c2][k] == id;
                        assert(self.cells()[c][k1] == self.cells()[c2][k2]);
                    }
                }
            }
            return;
        }
        // moving to another cell, so leave the old one first
        self.remove(entity_id, spatial_ref);
        let c = new_spatial_id.0 as usize;
        let ghost pre = self.cells();
        let ghost mid: SpatialDb = *self;
        proof {
            assert(pre[c as int].no_duplicates()) by {
                assert forall|i: int, j: int| 0 <= i < pre[c as int].len() && 0 <= j < pre[c as int].len() && i != j
                    implies pre[c as int][i] != pre[c as int][j] by {}
            }
            assert forall|k: int| 0 <= k < pre[c as int].len() implies #[trigger] pre[c as int][k] < MAX_ENTITIES by {}
            assert(!pre[c as int].contains(entity_id.0)) by {
                if pre[c as int].contains(entity_id.0) {
                    assert(self.in_cell(c as int, entity_id.0));
                }
            }
            lemma_distinct_below_len(pre[c as int], entity_id.0);
        }
        cell_push(&mut self.nodes[c], entity_id.0);
        spatial_ref.spatial_id = new_spatial_id;
        proof {
            let post = self.cells();
            assert(post == pre.update(c as int, pre[c as int].push(entity_id.0)));
            assert(self.in_cell(c as int, entity_id.0)) by {
                assert(post[c as int][pre[c as int].len() as int] == entity_id.0);
            }
            assert forall|c1: int, k1: int, c2: int, k2: int|
                0 <= c1 < post.len() && 0 <= k1 < post[c1].len() && 0 <= c2 < post.len() && 0 <= k2 < post[c2].len()
                && #[trigger] post[c1][k1] == #[trigger] post[c2][k2] implies c1 == c2 && k1 == k2 by {
                let last1 = c1 == c as int && k1 == pre[c as int].len();
                let last2 = c2 == c as int && k2 == pre[c as int].len();
                if last1 && !last2 {
                    assert(post[c2][k2] == pre[c2][k2]);
                    assert(pre[c2][k2] == entity_id.0);
                    assert(mid.in_cell(c2, entity_id.0));
                } else if last2 && !last1 {
                    assert(post[c1][k1] == pre[c1][k1]);
                    assert(pre[c1][k1] == entity_id.0);
                    assert(mid.in_cell(c1, entity_id.0));
                } else if !last1 && !last2 {
                    assert(post[c1][k1] == pre[c1][k1]);
                    assert(post[c2][k2] == pre[c2][k2]);
                }
            }
            assert forall|cc: int, k: int| 0 <= cc < post.len() && 0 <= k < post[cc].len() implies #[trigger] post[cc][k] < MAX_ENTITIES by {
                if !(cc == c as int && k == pre[c as int].len()) {
                    assert(post[cc][k] == pre[cc][k]);
                }
            }
            assert forall|cc: int, id: usize| #[trigger] self.in_cell(cc, id) == if id == entity_id.0 {
                cc == c as int
            } else {
                old(self).in_cell(cc, id)
            } by {
                if cc == c as int && self.in_cell(cc, id) && id != entity_id.0 {
                    let k = choose|k: int| 0 <= k < post[cc].len() && post[cc][k] == id;
                    assert(pre[cc][k] == id);
                }
                if cc == c as int && pre[cc].contains(id) {
                    let k = choose|k: int| 0 <= k < pre[cc].len() && pre[cc][k] == id;
                    assert(post[cc][k] == id);
                }
                if id == entity_id.0 && cc != c as int && self.in_cell(cc, id) {
                    assert(pre[cc] == post[cc]);
                    assert(mid.in_cell(cc, id));
                }
                assert(mid.in_cell(cc, id) == (id != entity_id.0 && old(self).in_cell(cc, id)));
                if cc != c as int && 0 <= cc < post.len() {
                    assert(pre[cc] == post[cc]);
                }
            }
        }
    }

    /// Ids of the cells of row `y` from column `x0` to `x1`, in column order.
    pub open spec fn row_items(&self, y: int, x0: int, x1: int) -> Seq<usize>
        decreases x1 - x0 + 1,
    {
        if x1 < x0 {
            Seq::empty()
        } else {
            self.row_items(y, x0, x1 - 1) + self.cells()[self.index_of(x1, y)]
        }
    }

    /// Ids of the cells of the rectangle `x0 ..= x1` by `y0 ..= y1`, row by
    /// row.
    pub open spec fn rect_items(&self, x0: int, x1: int, y0: int, y1: int) -> Seq<usize>
        decreases y1 - y0 + 1,
    {
        if y1 < y0 {
            Seq::empty()
        } else {
            self.rect_items(x0, x1, y0, y1 - 1) + self.row_items(y1, x0, x1)
        }
    }

    /// Every id in the cells from column `min_x` to `max_x` and row `min_y`
    /// to `max_y`, both ends included and each coordinate clamped to the
    /// grid; row by row, and in storage order within a cell. The caller
    /// widens its query window by the largest body radius before turning it
    /// into cell coordinates.
    pub fn probe_range(&self, min_x: i64, max_x: i64, min_y: i64, max_y: i64) -> (r: Vec<EntityId>)
        requires
            self.wf(),
        ensures
            r@.map_values(|e: EntityId| e.0) == self.rect_items(
                clamp_coord(min_x as int, self.spec_dim() - 1),
                clamp_coord(max_x as int, self.spec_dim() - 1),
                clamp_coord(min_y as int, self.spec_dim() - 1),
                clamp_coord(max_y as int, self.spec_dim() - 1),
            ),
    {
        let x0 = self.clamp(min_x);
        let x1 = self.clamp(max_x);
        let y0 = self.clamp(min_y);
        let y1 = self.clamp(max_y);
        let mut out: Vec<EntityId> = Vec::new();
        let ghost mut seen: Seq<usize> = Seq::empty();
        let mut y: u32 = y0;
        while y <= y1
            invariant
                self.wf(),
                x0 < self.spec_dim(),
                x1 < self.spec_dim(),
                y1 < self.spec_dim(),
                y0 <= y,
                y0 <= y1 ==> y <= y1 + 1,
                y0 > y1 ==> y == y0,
                out@.len() == seen.len(),
                forall|k: int| 0 <= k < seen.len() ==> #[trigger] out@[k].0 == seen[k],
                seen == self.rect_items(x0 as int, x1 as int, y0 as int, y - 1),
            decreases y1 + 1 - y,
        {
            let ghost rows = seen;
            let mut x: u32 = x0;
            while x <= x1
                invariant
                    self.wf(),
                    x0 <= x,
                    y0 <= y <= y1,
                    x0 <= x1 ==> x <= x1 + 1,
                    x0 > x1 ==> x == x0,
                    x1 < self.spec_dim(),
                    y1 < self.spec_dim(),
                    out@.len() == seen.len(),
                    forall|k: int| 0 <= k < seen.len() ==> #[trigger] out@[k].0 == seen[k],
                    seen == rows + self.row_items(y as int, x0 as int, x - 1),
                decreases x1 + 1 - x,
            {
                proof {
                    lemma_index_in_grid(x as int, y as int, self.dim as int);
                }
                let idx = (x + y * self.dim) as usize;
                let objects = cell_slice(&self.nodes[idx]);
                let ghost before = seen;
                let mut k: usize = 0;
                while k < objects.len()
                    invariant
                        k <= objects.len(),
                        out@.len() == seen.len(),
                        forall|j: int| 0 <= j < seen.len() ==> #[trigger] out@[j].0 == seen[j],
                        seen == before + objects@.subrange(0, k as int),
                    decreases objects.len() - k,
                {
                    out.push(EntityId(objects[k]));
                    proof {
                        seen = seen.push(objects@[k as int]);
                        assert(objects@.subrange(0, k + 1) == objects@.subrange(0, k as int).push(objects@[k as int]));
                    }
                    k += 1;
                }
                proof {
                    assert(objects@.subrange(0, k as int) == objects@);
                    assert(self.cells()[self.index_of(x as int, y as int)] == objects@);
                    assert(self.row_items(y as int, x0 as int, x as int) == self.row_items(y as int, x0 as int, x - 1) + objects@);
                }
                x += 1;
            }
            proof {
                if x0 > x1 {
                    assert(self.row_items(y as int, x0 as int, x1 as int) == Seq::<usize>::empty());
                }
                assert(self.row_items(y as int, x0 as int, x - 1) == self.row_items(y as int, x0 as int, x1 as int));
                assert(self.rect_items(x0 as int, x1 as int, y0 as int, y as int) == rows + self.row_items(y as int, x0 as int, x1 as int));
            }
            y += 1;
        }
        proof {
            assert(self.rect_items(x0 as int, x1 as int, y0 as int, y - 1) == self.rect_items(x0 as int, x1 as int, y0 as int, y1 as int));
            assert(out@.map_values(|e: EntityId| e.0) == seen);
        }
        out
    }

    /// Appends every pair of an id of cell `c1` with an id of cell `c2`;
    /// within one cell, only the pairs whose first id is the smaller.
    fn broad_phase_node_node(&self, c1: usize, c2: usize, out: &mut Vec<(EntityId, EntityId)>)
        requires
            self.wf(),
            c1 < self.cells().len(),
            c2 < self.cells().len(),
            old(out)@.no_duplicates(),
            forall|p: (EntityId, EntityId)|
                #[trigger] old(out)@.contains(p) ==> !(self.in_cell(c1 as int, p.0.0)
                    && self.in_cell(c2 as int, p.1.0)),
        ensures
            final(out)@.no_duplicates(),
            forall|p: (EntityId, EntityId)|
                #[trigger] final(out)@.contains(p) == (old(out)@.contains(p) || (self.in_cell(
                    c1 as int,
                    p.0.0,
                ) && self.in_cell(c2 as int, p.1.0) && pair_cond(p, c1 == c2))),
    {
        let same_node = c1 == c2;
        let objects = cell_slice(&self.nodes[c1]);
        let others = cell_slice(&self.nodes[c2]);
        let ghost s1 = objects@;
        let ghost s2 = others@;
        let ghost start = out@;
        proof {
            assert(s1 == self.cells()[c1 as int]);
            assert(s2 == self.cells()[c2 as int]);
        }
        let mut ka: usize = 0;
        while ka < objects.len()
            invariant
                self.wf(),
                c1 < self.cells().len(),
                c2 < self.cells().len(),
                same_node == (c1 == c2),
                s1 == self.cells()[c1 as int],
                s2 == self.cells()[c2 as int],
                objects@ == s1,
                others@ == s2,
                ka <= s1.len(),
                out@.no_duplicates(),
                forall|p: (EntityId, EntityId)|
                    #[trigger] out@.contains(p) == (start.contains(p) || in_prefix(
                        s1,
                        s2,
                        same_node,
                        ka as int,
                        0,
                        p,
                    )),
                forall|p: (EntityId, EntityId)|
                    #[trigger] start.contains(p) ==> !(self.in_cell(c1 as int, p.0.0)
                        && self.in_cell(c2 as int, p.1.0)),
            decreases s1.len() - ka,
        {
            let obj = objects[ka];
            let mut kb: usize = 0;
            while kb < others.len()
                invariant
                    self.wf(),
                    c1 < self.cells().len(),
                    c2 < self.cells().len(),
                    same_node == (c1 == c2),
                    s1 == self.cells()[c1 as int],
                    s2 == self.cells()[c2 as int],
                    objects@ == s1,
                    others@ == s2,
                    ka < s1.len(),
                    obj == s1[ka as int],
                    kb <= s2.len(),
                    out@.no_duplicates(),
                    forall|p: (EntityId, EntityId)|
                        #[trigger] out@.contains(p) == (start.contains(p) || in_prefix(
                            s1,
                            s2,
                            same_node,
                            ka as int,
                            kb as int,
                            p,
                        )),
                    forall|p: (EntityId, EntityId)|
                        #[trigger] start.contains(p) ==> !(self.in_cell(c1 as int, p.0.0)
                            && self.in_cell(c2 as int, p.1.0)),
                decreases s2.len() - kb,
            {
                let other_obj = others[kb];
                let ghost p = (EntityId(obj), EntityId(other_obj));
                proof {
                    lemma_prefix_step(s1, s2, same_node, ka as int, kb as int);
                }
                if same_node && obj >= other_obj {
                    // only need to check one time (and no times when same object)
                } else {
                    proof {
                        assert(self.cells()[c1 as int][ka as int] == obj);
                        assert(self.cells()[c2 as int][kb as int] == other_obj);
                        assert(!start.contains(p)) by {
                            if start.contains(p) {
                                assert(s1.contains(obj));
                                assert(s2.contains(other_obj));
                            }
                        }
                        assert(!in_prefix(s1, s2, same_node, ka as int, kb as int, p)) by {
                            if in_prefix(s1, s2, same_node, ka as int, kb as int, p) {
                                let (i, j) = choose|i: int, j: int| #[trigger] prefix_hit(s1, s2, same_node, ka as int, kb as int, p, i, j);
                                assert(self.cells()[c1 as int][i] == self.cells()[c1 as int][ka as int]);
                                assert(self.cells()[c2 as int][j] == self.cells()[c2 as int][kb as int]);
                            }
                        }
                        assert(!out@.contains(p));
                    }
                    let ghost before_push = out@;
                    out.push((EntityId(obj), EntityId(other_obj)));
                    proof {
                        assert(out@ == before_push.push(p));
                        assert forall|i: int, j: int| 0 <= i < out@.len() && 0 <= j < out@.len() && i != j implies out@[i] != out@[j] by {
                            if i == out@.len() - 1 {
                                assert(before_push.contains(out@[j]));
                            } else if j == out@.len() - 1 {
                                assert(before_push.contains(out@[i]));
                            }
                        }
                        assert forall|q: (EntityId, EntityId)| #[trigger] out@.contains(q) == (before_push.contains(q) || q == p) by {
                            if out@.contains(q) && q != p {
                                let k = choose|k: int| 0 <= k < out@.len() && out@[k] == q;
                                assert(k < out@.len() - 1);
                            }
                            if q == p {
                                assert(out@[out@.len() - 1] == p);
                            }
                            if before_push.contains(q) {
                                let k = choose|k: int| 0 <= k < before_push.len() && before_push[k] == q;
                                assert(out@[k] == q);
                            }
                        }
                    }
                }
                kb += 1;
            }
            proof {
                lemma_prefix_row_end(s1, s2, same_node, ka as int);
            }
            ka += 1;
        }
        proof {
            assert forall|p: (EntityId, EntityId)|
                in_prefix(s1, s2, same_node, s1.len() as int, 0, p) == (self.in_cell(c1 as int, p.0.0)
                    && self.in_cell(c2 as int, p.1.0) && pair_cond(p, c1 == c2)) by {
                if self.in_cell(c1 as int, p.0.0) && self.in_cell(c2 as int, p.1.0) && pair_cond(p, c1 == c2) {
                    let i = choose|i: int| 0 <= i < s1.len() && s1[i] == p.0.0;
                    let j = choose|j: int| 0 <= j < s2.len() && s2[j] == p.1.0;
                    assert(prefix_hit(s1, s2, same_node, s1.len() as int, 0, p, i, j));
                }
            }
        }
    }

    /// Cell `(x2, y2)` lies in the part of the neighbourhood of `(x, y)`
    /// that a scan from `(x, y)` covers: up to `reach` cells away on each
    /// axis, never to the left, and in its own column never above it.
    pub open spec fn forward_near(&self, x: int, y: int, x2: int, y2: int, reach: int) -> bool {
        &&& 0 <= x < self.spec_dim()
        &&& 0 <= y < self.spec_dim()
        &&& 0 <= x2 < self.spec_dim()
        &&& 0 <= y2 < self.spec_dim()
        &&& x <= x2 <= x + reach
        &&& y - reach <= y2 <= y + reach
        &&& (x2 == x ==> y <= y2)
    }

    /// The scan from cell `(x, y)` reports pair `p` when it looks at cell
    /// `(x2, y2)`.
    pub open spec fn block_has(
        &self,
        x: int,
        y: int,
        x2: int,
        y2: int,
        reach: int,
        p: (EntityId, EntityId),
    ) -> bool {
        &&& self.forward_near(x, y, x2, y2, reach)
        &&& self.in_cell(self.index_of(x, y), p.0.0)
        &&& self.in_cell(self.index_of(x2, y2), p.1.0)
        &&& pair_cond(p, x == x2 && y == y2)
    }

    /// As `block_has`, for a cell `(a, b)` that a row-by-row scan reaches
    /// before `(x2, y2)`.
    pub open spec fn block_before(
        &self,
        x: int,
        y: int,
        reach: int,
        p: (EntityId, EntityId),
        a: int,
        b: int,
        x2: int,
        y2: int,
    ) -> bool {
        self.block_has(x, y, a, b, reach, p) && (b < y2 || (b == y2 && a < x2))
    }

    pub open spec fn scanned_from(&self, x: int, y: int, reach: int, p: (EntityId, EntityId), x2: int, y2: int) -> bool {
        exists|a: int, b: int| #[trigger] self.block_before(x, y, reach, p, a, b, x2, y2)
    }

    /// The broad phase reports `p` from some origin cell.
    pub open spec fn emitted(&self, reach: int, p: (EntityId, EntityId)) -> bool {
        exists|x: int, y: int, x2: int, y2: int| #[trigger] self.block_has(x, y, x2, y2, reach, p)
    }

    pub open spec fn origin_before(&self, reach: int, p: (EntityId, EntityId), a: int, b: int, a2: int, b2: int, x: int, y: int) -> bool {
        self.block_has(a, b, a2, b2, reach, p) && (b < y || (b == y && a < x))
    }

    pub open spec fn emitted_before(&self, reach: int, p: (EntityId, EntityId), x: int, y: int) -> bool {
        exists|a: int, b: int, a2: int, b2: int| #[trigger] self.origin_before(reach, p, a, b, a2, b2, x, y)
    }

    /// The broad phase: every pair of ids whose cells are at most `reach`
    /// cells apart on both axes, each unordered pair once. The scan from a
    /// cell looks only at cells to its right, and in its own column only
    /// downwards; a pair from one cell is reported with the smaller id
    /// first. The caller picks `reach` from the largest body radius, as
    /// `ceil(2 * max_radius / cell_size) + 1`.
    pub fn find_neighbors(&self, reach: u32) -> (r: Vec<(EntityId, EntityId)>)
        requires
            self.wf(),
        ensures
            r@.no_duplicates(),
            forall|p: (EntityId, EntityId)| #[trigger] r@.contains(p) == self.emitted(reach as int, p),
    {
        let dim = self.dim;
        let mut out: Vec<(EntityId, EntityId)> = Vec::new();
        let ghost r = reach as int;
        let mut y: u32 = 0;
        while y < dim
            invariant
                self.wf(),
                dim == self.spec_dim(),
                r == reach,
                y <= dim,
                out@.no_duplicates(),
                forall|p: (EntityId, EntityId)| #[trigger] out@.contains(p) == self.emitted_before(r, p, 0, y as int),
            decreases dim - y,
        {
            let mut x: u32 = 0;
            while x < dim
                invariant
                    self.wf(),
                    dim == self.spec_dim(),
                    r == reach,
                    y < dim,
                    x <= dim,
                    out@.no_duplicates(),
                    forall|p: (EntityId, EntityId)| #[trigger] out@.contains(p) == self.emitted_before(r, p, x as int, y as int),
                decreases dim - x,
            {
                let ghost prev = out@;
                proof {
                    let c = self.index_of(x as int, y as int);
                    assert forall|p: (EntityId, EntityId)| #[trigger] out@.contains(p) implies !self.in_cell(c, p.0.0) by {
                        let (a, b, a2, b2) = choose|a: int, b: int, a2: int, b2: int| #[trigger] self.origin_before(r, p, a, b, a2, b2, x as int, y as int);
                        if self.in_cell(c, p.0.0) {
                            self.lemma_in_one_cell(self.index_of(a, b), c, p.0.0);
                            lemma_index_injective(a, b, x as int, y as int, dim as int);
                        }
                    }
                }
                self.scan_from(x, y, reach, &mut out);
                proof {
                    assert forall|p: (EntityId, EntityId)| #[trigger] out@.contains(p) == self.emitted_before(r, p, x + 1, y as int) by {
                        if out@.contains(p) && !prev.contains(p) {
                            let (a2, b2) = choose|a2: int, b2: int| #[trigger] self.block_has(x as int, y as int, a2, b2, r, p);
                            assert(self.origin_before(r, p, x as int, y as int, a2, b2, x + 1, y as int));
                        }
                        if prev.contains(p) {
                            let (a, b, a2, b2) = choose|a: int, b: int, a2: int, b2: int| #[trigger] self.origin_before(r, p, a, b, a2, b2, x as int, y as int);
                            assert(self.origin_before(r, p, a, b, a2, b2, x + 1, y as int));
                        }
                        if self.emitted_before(r, p, x + 1, y as int) {
                            let (a, b, a2, b2) = choose|a: int, b: int, a2: int, b2: int| #[trigger] self.origin_before(r, p, a, b, a2, b2, x + 1, y as int);
                            if !(a == x && b == y) {
                                assert(self.origin_before(r, p, a, b, a2, b2, x as int, y as int));
                            } else {
                                assert(self.block_has(x as int, y as int, a2, b2, r, p));
                            }
                        }
                    }
                }
                x += 1;
            }
            proof {
                assert forall|p: (EntityId, EntityId)| #[trigger] out@.contains(p) == self.emitted_before(r, p, 0, y + 1) by {
                    if self.emitted_before(r, p, 0, y + 1) {
                        let (a, b, a2, b2) = choose|a: int, b: int, a2: int, b2: int| #[trigger] self.origin_before(r, p, a, b, a2, b2, 0, y + 1);
                        assert(self.origin_before(r, p, a, b, a2, b2, dim as int, y as int));
                    }
                    if self.emitted_before(r, p, dim as int, y as int) {
                        let (a, b, a2, b2) = choose|a: int, b: int, a2: int, b2: int| #[trigger] self.origin_before(r, p, a, b, a2, b2, dim as int, y as int);
                        assert(self.origin_before(r, p, a, b, a2, b2, 0, y + 1));
                    }
                }
            }
            y += 1;
        }
        proof {
            assert forall|p: (EntityId, EntityId)| #[trigger] out@.contains(p) == self.emitted(r, p) by {
                if self.emitted(r, p) {
                    let (a, b, a2, b2) = choose|a: int, b: int, a2: int, b2: int| #[trigger] self.block_has(a, b, a2, b2, r, p);
                    assert(self.origin_before(r, p, a, b, a2, b2, 0, dim as int));
                }
                if self.emitted_before(r, p, 0, dim as int) {
                    let (a, b, a2, b2) = choose|a: int, b: int, a2: int, b2: int| #[trigger] self.origin_before(r, p, a, b, a2, b2, 0, dim as int);
                    assert(self.block_has(a, b, a2, b2, r, p));
                }
            }
        }
        out
    }

    /// Pairs of an id of cell `(x, y)` with the ids of the cells ahead of it.
    fn scan_from(&self, x: u32, y: u32, reach: u32, out: &mut Vec<(EntityId, EntityId)>)
        requires
            self.wf(),
            x < self.spec_dim(),
            y < self.spec_dim(),
            old(out)@.no_duplicates(),
            forall|p: (EntityId, EntityId)|
                #[trigger] old(out)@.contains(p) ==> !self.in_cell(self.index_of(x as int, y as int), p.0.0),
        ensures
            final(out)@.no_duplicates(),
            forall|p: (EntityId, EntityId)|
                #[trigger] final(out)@.contains(p) == (old(out)@.contains(p) || exists|x2: int, y2: int|
                    #[trigger] self.block_has(x as int, y as int, x2, y2, reach as int, p)),
    {
        let dim = self.dim;
        let y_lo: u32 = if y >= reach { y - reach } else { 0 };
        let y_hi: u32 = if (y as u64) + (reach as u64) < (dim as u64) { y + reach } else { dim - 1 };
        let x_hi: u32 = if (x as u64) + (reach as u64) < (dim as u64) { x + reach } else { dim - 1 };
        let ghost start = out@;
        let ghost r = reach as int;
        proof {
            lemma_index_in_grid(x as int, y as int, dim as int);
            assert forall|p: (EntityId, EntityId)| !self.scanned_from(x as int, y as int, r, p, x as int, y_lo as int) by {
                if self.scanned_from(x as int, y as int, r, p, x as int, y_lo as int) {
                    let (a, b) = choose|a: int, b: int| #[trigger] self.block_before(x as int, y as int, r, p, a, b, x as int, y_lo as int);
                }
            }
        }
        let mut y2: u32 = y_lo;
        while y2 <= y_hi
            invariant
                self.wf(),
                dim == self.spec_dim(),
                x < dim,
                y < dim,
                x <= x_hi < dim,
                y_lo <= y <= y_hi < dim,
                y_lo as int == if y >= reach { y - reach } else { 0 },
                y_hi as int == if y + reach < dim { y + reach } else { dim - 1 },
                x_hi as int == if x + reach < dim { x + reach } else { dim - 1 },
                r == reach,
                y_lo <= y2 <= y_hi + 1,
                out@.no_duplicates(),
                forall|p: (EntityId, EntityId)|
                    #[trigger] start.contains(p) ==> !self.in_cell(self.index_of(x as int, y as int), p.0.0),
                forall|p: (EntityId, EntityId)|
                    #[trigger] out@.contains(p) == (start.contains(p) || self.scanned_from(x as int, y as int, r, p, x as int, y2 as int)),
            decreases y_hi + 1 - y2,
        {
            let mut x2: u32 = x;
            while x2 <= x_hi
                invariant
                    self.wf(),
                    dim == self.spec_dim(),
                    x < dim,
                    y < dim,
                    x <= x_hi < dim,
                    y_lo <= y <= y_hi < dim,
                    y_lo as int == if y >= reach { y - reach } else { 0 },
                    y_hi as int == if y + reach < dim { y + reach } else { dim - 1 },
                    x_hi as int == if x + reach < dim { x + reach } else { dim - 1 },
                    r == reach,
                    y_lo <= y2 <= y_hi,
                    x <= x2 <= x_hi + 1,
                    out@.no_duplicates(),
                    forall|p: (EntityId, EntityId)|
                        #[trigger] start.contains(p) ==> !self.in_cell(self.index_of(x as int, y as int), p.0.0),
                    forall|p: (EntityId, EntityId)|
                        #[trigger] out@.contains(p) == (start.contains(p) || self.scanned_from(x as int, y as int, r, p, x2 as int, y2 as int)),
                decreases x_hi + 1 - x2,
            {
                let ghost prev = out@;
                proof {
                    self.lemma_scan_step(x as int, y as int, r, x2 as int, y2 as int);
                }
                if x2 == x && y2 < y {
                    // same column, above: the scan from (x2, y2) covers this pair of cells
                } else {
                    proof {
                        lemma_index_in_grid(x2 as int, y2 as int, dim as int);
                        lemma_index_in_grid(x as int, y as int, dim as int);
                        let c1 = self.index_of(x as int, y as int);
                        let c2 = self.index_of(x2 as int, y2 as int);
                        assert forall|p: (EntityId, EntityId)|
                            #[trigger] out@.contains(p) implies !(self.in_cell(c1, p.0.0) && self.in_cell(c2, p.1.0)) by {
                            if !start.contains(p) && self.in_cell(c2, p.1.0) {
                                let (a, b) = choose|a: int, b: int| #[trigger] self.block_before(x as int, y as int, r, p, a, b, x2 as int, y2 as int);
                                self.lemma_in_one_cell(self.index_of(a, b), c2, p.1.0);
                                lemma_index_injective(a, b, x2 as int, y2 as int, dim as int);
                            }
                        }
                        assert((c1 == c2) == (x == x2 && y == y2)) by {
                            lemma_index_injective(x as int, y as int, x2 as int, y2 as int, dim as int);
                        }
                    }
                    self.broad_phase_node_node((x + y * dim) as usize, (x2 + y2 * dim) as usize, out);
                }
                proof {
                    assert forall|p: (EntityId, EntityId)|
                        #[trigger] out@.contains(p) == (start.contains(p) || self.scanned_from(x as int, y as int, r, p, x2 + 1, y2 as int)) by {
                        assert(prev.contains(p) == (start.contains(p) || self.scanned_from(x as int, y as int, r, p, x2 as int, y2 as int)));
                    }
                }
                x2 += 1;
            }
            proof {
                self.lemma_scan_row_end(x as int, y as int, r, x_hi as int, y2 as int);
            }
            y2 += 1;
        }
        proof {
            assert forall|p: (EntityId, EntityId)|
                self.scanned_from(x as int, y as int, r, p, x as int, y2 as int) == exists|x2: int, y2: int|
                    #[trigger] self.block_has(x as int, y as int, x2, y2, r, p) by {
                if exists|a: int, b: int| #[trigger] self.block_has(x as int, y as int, a, b, r, p) {
                    let (a, b) = choose|a: int, b: int| #[trigger] self.block_has(x as int, y as int, a, b, r, p);
                    assert(self.block_before(x as int, y as int, r, p, a, b, x as int, y2 as int));
                }
                if self.scanned_from(x as int, y as int, r, p, x as int, y2 as int) {
                    let (a, b) = choose|a: int, b: int| #[trigger] self.block_before(x as int, y as int, r, p, a, b, x as int, y2 as int);
                    assert(self.block_has(x as int, y as int, a, b, r, p));
                }
            }
        }
    }

    proof fn lemma_scan_step(&self, x: int, y: int, r: int, x2: int, y2: int)
        ensures
            forall|p: (EntityId, EntityId)|
                #[trigger] self.scanned_from(x, y, r, p, x2 + 1, y2) == (self.scanned_from(x, y, r, p, x2, y2)
                    || self.block_has(x, y, x2, y2, r, p)),
    {
        assert forall|p: (EntityId, EntityId)|
            #[trigger] self.scanned_from(x, y, r, p, x2 + 1, y2) == (self.scanned_from(x, y, r, p, x2, y2)
                || self.block_has(x, y, x2, y2, r, p)) by {
            if self.scanned_from(x, y, r, p, x2 + 1, y2) {
                let (a, b) = choose|a: int, b: int| #[trigger] self.block_before(x, y, r, p, a, b, x2 + 1, y2);
                if !(a == x2 && b == y2) {
                    assert(self.block_before(x, y, r, p, a, b, x2, y2));
                }
            }
            if self.scanned_from(x, y, r, p, x2, y2) {
                let (a, b) = choose|a: int, b: int| #[trigger] self.block_before(x, y, r, p, a, b, x2, y2);
                assert(self.block_before(x, y, r, p, a, b, x2 + 1, y2));
            }
            if self.block_has(x, y, x2, y2, r, p) {
                assert(self.block_before(x, y, r, p, x2, y2, x2 + 1, y2));
            }
        }
    }

    proof fn lemma_scan_row_end(&self, x: int, y: int, r: int, x_hi: int, y2: int)
        requires
            x_hi == if x + r < self.spec_dim() { x + r } else { self.spec_dim() - 1 },
        ensures
            forall|p: (EntityId, EntityId)|
                #[trigger] self.scanned_from(x, y, r, p, x, y2 + 1) == self.scanned_from(x, y, r, p, x_hi + 1, y2),
    {
        assert forall|p: (EntityId, EntityId)|
            #[trigger] self.scanned_from(x, y, r, p, x, y2 + 1) == self.scanned_from(x, y, r, p, x_hi + 1, y2) by {
            if self.scanned_from(x, y, r, p, x, y2 + 1) {
                let (a, b) = choose|a: int, b: int| #[trigger] self.block_before(x, y, r, p, a, b, x, y2 + 1);
                assert(self.block_before(x, y, r, p, a, b, x_hi + 1, y2));
            }
            if self.scanned_from(x, y, r, p, x_hi + 1, y2) {
                let (a, b) = choose|a: int, b: int| #[trigger] self.block_before(x, y, r, p, a, b, x_hi + 1, y2);
                assert(self.block_before(x, y, r, p, a, b, x, y2 + 1));
            }
        }
    }

    /// An id sits in one cell only.
    proof fn lemma_in_one_cell(&self, c1: int, c2: int, id: usize)
        requires
            self.wf(),
            self.in_cell(c1, id),
            self.in_cell(c2, id),
        ensures
            c1 == c2,
    {
        let k1 = choose|k: int| 0 <= k < self.cells()[c1].len() && self.cells()[c1][k] == id;
        let k2 = choose|k: int| 0 <= k < self.cells()[c2].len() && self.cells()[c2][k] == id;
        assert(self.cells()[c1][k1] == self.cells()[c2][k2]);
    }

    fn clamp(&self, v: i64) -> (r: u32)
        requires
            self.wf(),
        ensures
            r == clamp_coord(v as int, self.spec_dim() - 1),
            r < self.spec_dim(),
    {
        if v <= 0 {
            0
        } else if v >= self.dim as i64 - 1 {
            self.dim - 1
        } else {
            v as u32
        }
    }
}

/// Within one cell a pair is taken in one order only.
pub open spec fn pair_cond(p: (EntityId, EntityId), same_node: bool) -> bool {
    same_node ==> p.0.0 < p.1.0
}

/// `p` is the pair of items `i` of `s1` and `j` of `s2`, a position that a
/// scan in the order `(i, j)` has passed before reaching `(ka, kb)`.
pub open spec fn prefix_hit(
    s1: Seq<usize>,
    s2: Seq<usize>,
    same_node: bool,
    ka: int,
    kb: int,
    p: (EntityId, EntityId),
    i: int,
    j: int,
) -> bool {
    &&& 0 <= i < s1.len()
    &&& 0 <= j < s2.len()
    &&& (i < ka || (i == ka && j < kb))
    &&& s1[i] == p.0.0
    &&& s2[j] == p.1.0
    &&& pair_cond(p, same_node)
}

pub open spec fn in_prefix(
    s1: Seq<usize>,
    s2: Seq<usize>,
    same_node: bool,
    ka: int,
    kb: int,
    p: (EntityId, EntityId),
) -> bool {
    exists|i: int, j: int| #[trigger] prefix_hit(s1, s2, same_node, ka, kb, p, i, j)
}

proof fn lemma_prefix_step(s1: Seq<usize>, s2: Seq<usize>, same_node: bool, ka: int, kb: int)
    requires
        0 <= ka < s1.len(),
        0 <= kb < s2.len(),
    ensures
        forall|p: (EntityId, EntityId)|
            #[trigger] in_prefix(s1, s2, same_node, ka, kb + 1, p) == (in_prefix(
                s1,
                s2,
                same_node,
                ka,
                kb,
                p,
            ) || (p == (EntityId(s1[ka]), EntityId(s2[kb])) && pair_cond(p, same_node))),
{
    assert forall|p: (EntityId, EntityId)|
        #[trigger] in_prefix(s1, s2, same_node, ka, kb + 1, p) == (in_prefix(
            s1,
            s2,
            same_node,
            ka,
            kb,
            p,
        ) || (p == (EntityId(s1[ka]), EntityId(s2[kb])) && pair_cond(p, same_node))) by {
        if in_prefix(s1, s2, same_node, ka, kb + 1, p) {
            let (i, j) = choose|i: int, j: int| #[trigger] prefix_hit(s1, s2, same_node, ka, kb + 1, p, i, j);
            if !(i == ka && j == kb) {
                assert(prefix_hit(s1, s2, same_node, ka, kb, p, i, j));
            }
        }
        if in_prefix(s1, s2, same_node, ka, kb, p) {
            let (i, j) = choose|i: int, j: int| #[trigger] prefix_hit(s1, s2, same_node, ka, kb, p, i, j);
            assert(prefix_hit(s1, s2, same_node, ka, kb + 1, p, i, j));
        }
        if p == (EntityId(s1[ka]), EntityId(s2[kb])) && pair_cond(p, same_node) {
            assert(prefix_hit(s1, s2, same_node, ka, kb + 1, p, ka, kb));
        }
    }
}

proof fn lemma_prefix_row_end(s1: Seq<usize>, s2: Seq<usize>, same_node: bool, ka: int)
    requires
        0 <= ka < s1.len(),
    ensures
        forall|p: (EntityId, EntityId)|
            #[trigger] in_prefix(s1, s2, same_node, ka + 1, 0, p) == in_prefix(
                s1,
                s2,
                same_node,
                ka,
                s2.len() as int,
                p,
            ),
{
    assert forall|p: (EntityId, EntityId)|
        #[trigger] in_prefix(s1, s2, same_node, ka + 1, 0, p) == in_prefix(
            s1,
            s2,
            same_node,
            ka,
            s2.len() as int,
            p,
        ) by {
        if in_prefix(s1, s2, same_node, ka + 1, 0, p) {
            let (i, j) = choose|i: int, j: int| #[trigger] prefix_hit(s1, s2, same_node, ka + 1, 0, p, i, j);
            assert(prefix_hit(s1, s2, same_node, ka, s2.len() as int, p, i, j));
        }
        if in_prefix(s1, s2, same_node, ka, s2.len() as int, p) {
            let (i, j) = choose|i: int, j: int| #[trigger] prefix_hit(s1, s2, same_node, ka, s2.len() as int, p, i, j);
            assert(prefix_hit(s1, s2, same_node, ka + 1, 0, p, i, j));
        }
    }
}

/// A cell's ids are distinct and below `MAX_ENTITIES`; when one such id is
/// missing from it, the cell has room for one more below that bound.
proof fn lemma_distinct_below_len(cell: Seq<usize>, missing: usize)
    requires
        cell.no_duplicates(),
        forall|k: int| 0 <= k < cell.len() ==> #[trigger] cell[k] < MAX_ENTITIES,
        missing < MAX_ENTITIES,
        !cell.contains(missing),
    ensures
        cell.len() < MAX_ENTITIES,
{
    let ints = cell.map_values(|v: usize| v as int);
    let range = set_int_range(0, MAX_ENTITIES as int).remove(missing as int);
    assert(ints.no_duplicates()) by {
        assert forall|i: int, j: int| 0 <= i < ints.len() && 0 <= j < ints.len() && i != j implies ints[i] != ints[j] by {
            assert(cell[i] != cell[j]);
        }
    }
    ints.unique_seq_to_set();
    assert forall|v: int| ints.to_set().contains(v) implies range.contains(v) by {
        let k = choose|k: int| 0 <= k < ints.len() && ints[k] == v;
        assert(cell[k] < MAX_ENTITIES);
        assert(cell[k] != missing);
    }
    lemma_int_range(0, MAX_ENTITIES as int);
    lemma_len_subset(ints.to_set(), range);
}

/// Distinct in-range coordinates give distinct cell indices.
pub proof fn lemma_index_injective(x1: int, y1: int, x2: int, y2: int, dim: int)
    requires
        0 <= x1 < dim,
        0 <= x2 < dim,
        0 <= y1,
        0 <= y2,
    ensures
        (x1 + y1 * dim == x2 + y2 * dim) == (x1 == x2 && y1 == y2),
{
    if y1 < y2 {
        assert(y1 * dim + dim <= y2 * dim) by (nonlinear_arith)
            requires
                y1 < y2,
                0 < dim,
        ;
    } else if y2 < y1 {
        assert(y2 * dim + dim <= y1 * dim) by (nonlinear_arith)
            requires
                y2 < y1,
                0 < dim,
        ;
    }
}

/// A cell index built from in-range coordinates lies in the grid.
pub proof fn lemma_index_in_grid(x: int, y: int, dim: int)
    requires
        0 <= x < dim,
        0 <= y < dim,
    ensures
        0 <= x + y * dim < dim * dim,
{
    assert(0 <= x + y * dim < dim * dim) by (nonlinear_arith)
        requires
            0 <= x < dim,
            0 <= y < dim,
    ;
}

} // verus!

verus! {

/// The ids of cells `0 .. n`, in cell order.
pub open spec fn flat_cells(cells: Seq<Seq<usize>>, n: int) -> Seq<usize>
    decreases n,
{
    if n <= 0 {
        Seq::empty()
    } else {
        flat_cells(cells, n - 1) + cells[n - 1]
    }
}

impl SpatialDb {
    /// Ids `a` and `b` sit in cells at most `reach` cells apart on each axis.
    pub open spec fn near_cells(&self, x: int, y: int, x2: int, y2: int, reach: int, a: usize, b: usize) -> bool {
        &&& 0 <= x < self.spec_dim()
        &&& 0 <= y < self.spec_dim()
        &&& 0 <= x2 < self.spec_dim()
        &&& 0 <= y2 < self.spec_dim()
        &&& x - reach <= x2 <= x + reach
        &&& y - reach <= y2 <= y + reach
        &&& self.in_cell(self.index_of(x, y), a)
        &&& self.in_cell(self.index_of(x2, y2), b)
    }

    pub open spec fn near_pair(&self, a: usize, b: usize, reach: int) -> bool {
        exists|x: int, y: int, x2: int, y2: int| #[trigger] self.near_cells(x, y, x2, y2, reach, a, b)
    }

    proof fn lemma_same_coords(&self, x: int, y: int, x2: int, y2: int, id: usize)
        requires
            self.wf(),
            0 <= x < self.spec_dim(),
            0 <= y < self.spec_dim(),
            0 <= x2 < self.spec_dim(),
            0 <= y2 < self.spec_dim(),
            self.in_cell(self.index_of(x, y), id),
            self.in_cell(self.index_of(x2, y2), id),
        ensures
            x == x2 && y == y2,
    {
        self.lemma_in_one_cell(self.index_of(x, y), self.index_of(x2, y2), id);
        lemma_index_injective(x, y, x2, y2, self.spec_dim());
    }

    proof fn lemma_row_flat(&self, y: int, x: int)
        requires
            self.wf(),
            0 <= y < self.spec_dim(),
            -1 <= x < self.spec_dim(),
        ensures
            flat_cells(self.cells(), y * self.spec_dim()) + self.row_items(y, 0, x)
                == flat_cells(self.cells(), y * self.spec_dim() + x + 1),
        decreases x + 1,
    {
        let base = flat_cells(self.cells(), y * self.spec_dim());
        if x < 0 {
            assert(base + self.row_items(y, 0, x) == base);
        } else {
            self.lemma_row_flat(y, x - 1);
            assert(base + (self.row_items(y, 0, x - 1) + self.cells()[self.index_of(x, y)])
                == (base + self.row_items(y, 0, x - 1)) + self.cells()[self.index_of(x, y)]);
        }
    }

    proof fn lemma_rect_flat(&self, y: int)
        requires
            self.wf(),
            -1 <= y < self.spec_dim(),
        ensures
            self.rect_items(0, self.spec_dim() - 1, 0, y) == flat_cells(self.cells(), (y + 1) * self.spec_dim()),
        decreases y + 1,
    {
        let d = self.spec_dim();
        if y >= 0 {
            self.lemma_rect_flat(y - 1);
            self.lemma_row_flat(y, d - 1);
            assert((y + 1) * d == y * d + d) by (nonlinear_arith);
            assert((y - 1 + 1) * d == y * d);
            assert(self.rect_items(0, d - 1, 0, y) == self.rect_items(0, d - 1, 0, y - 1) + self.row_items(y, 0, d - 1));
        } else {
            assert(y + 1 == 0);
            assert((y + 1) * d == 0) by (nonlinear_arith)
                requires
                    y + 1 == 0,
            ;
        }
    }

    proof fn lemma_flat_unique(&self, n: int)
        requires
            self.wf(),
            0 <= n <= self.cells().len(),
        ensures
            flat_cells(self.cells(), n).no_duplicates(),
            forall|id: usize|
                #[trigger] flat_cells(self.cells(), n).contains(id) == exists|c: int| 0 <= c < n && #[trigger] self.in_cell(c, id),
        decreases n,
    {
        if n > 0 {
            self.lemma_flat_unique(n - 1);
            let front = flat_cells(self.cells(), n - 1);
            let cell = self.cells()[n - 1];
            let all = flat_cells(self.cells(), n);
            assert(all == front + cell);
            assert forall|id: usize| #[trigger] all.contains(id) == exists|c: int| 0 <= c < n && #[trigger] self.in_cell(c, id) by {
                if all.contains(id) {
                    let k = choose|k: int| 0 <= k < all.len() && all[k] == id;
                    if k < front.len() {
                        assert(front.contains(id));
                    } else {
                        assert(cell[k - front.len()] == id);
                        assert(self.in_cell(n - 1, id));
                    }
                }
                if exists|c: int| 0 <= c < n && #[trigger] self.in_cell(c, id) {
                    let c = choose|c: int| 0 <= c < n && #[trigger] self.in_cell(c, id);
                    if c < n - 1 {
                        assert(front.contains(id));
                        let k = choose|k: int| 0 <= k < front.len() && front[k] == id;
                        assert(all[k] == id);
                    } else {
                        let k = choose|k: int| 0 <= k < cell.len() && cell[k] == id;
                        assert(all[front.len() + k] == id);
                    }
                }
            }
            assert forall|i: int, j: int| 0 <= i < all.len() && 0 <= j < all.len() && i != j implies all[i] != all[j] by {
                if i >= front.len() && j >= front.len() {
                    assert(self.cells()[n - 1][i - front.len()] == all[i]);
                    assert(self.cells()[n - 1][j - front.len()] == all[j]);
                } else if i < front.len() && j >= front.len() {
                    if all[i] == all[j] {
                        assert(front.contains(all[i]));
                        let c = choose|c: int| 0 <= c < n - 1 && #[trigger] self.in_cell(c, all[i]);
                        assert(self.in_cell(n - 1, all[j]));
                        self.lemma_in_one_cell(c, n - 1, all[i]);
                    }
                } else if j < front.len() && i >= front.len() {
                    if all[i] == all[j] {
                        assert(front.contains(all[j]));
                        let c = choose|c: int| 0 <= c < n - 1 && #[trigger] self.in_cell(c, all[j]);
                        assert(self.in_cell(n - 1, all[i]));
                        self.lemma_in_one_cell(c, n - 1, all[j]);
                    }
                } else {
                    assert(front[i] == all[i] && front[j] == all[j]);
                }
            }
        }
    }
}

/// A probe over the whole grid visits every id that the grid holds, and
/// each of them exactly once.
pub proof fn lemma_full_probe_visits_each_once(db: &SpatialDb, visited: Seq<usize>)
    requires
        db.wf(),
        visited == db.rect_items(0, db.spec_dim() - 1, 0, db.spec_dim() - 1),
    ensures
        visited.no_duplicates(),
        forall|id: usize| #[trigger] visited.contains(id) == db.holds(id),
{
    db.lemma_rect_flat(db.spec_dim() - 1);
    db.lemma_flat_unique(db.cells().len() as int);
    assert forall|id: usize| #[trigger] visited.contains(id) == db.holds(id) by {
        if db.holds(id) {
            let c = choose|c: int| db.in_cell(c, id);
            assert(0 <= c < db.cells().len() && db.in_cell(c, id));
        }
    }
}

/// The broad phase reports each pair of distinct ids whose cells are at
/// most `reach` apart exactly once: never as a self-pair, never in both
/// orders, never twice, and only such pairs.
pub proof fn lemma_neighbors_each_pair_once(db: &SpatialDb, reach: u32, pairs: Seq<(EntityId, EntityId)>)
    requires
        db.wf(),
        pairs.no_duplicates(),
        forall|p: (EntityId, EntityId)| #[trigger] pairs.contains(p) == db.emitted(reach as int, p),
    ensures
        pairs.no_duplicates(),
        forall|p: (EntityId, EntityId)|
            #[trigger] pairs.contains(p) ==> p.0.0 != p.1.0 && db.near_pair(p.0.0, p.1.0, reach as int),
        forall|a: usize, b: usize|
            a != b && #[trigger] db.near_pair(a, b, reach as int) ==> pairs.contains((EntityId(a), EntityId(b)))
                || pairs.contains((EntityId(b), EntityId(a))),
        forall|a: usize, b: usize|
            !(#[trigger] pairs.contains((EntityId(a), EntityId(b))) && pairs.contains((EntityId(b), EntityId(a)))),
{
    let r = reach as int;
    assert forall|p: (EntityId, EntityId)|
        #[trigger] pairs.contains(p) implies p.0.0 != p.1.0 && db.near_pair(p.0.0, p.1.0, r) by {
        let (x, y, x2, y2) = choose|x: int, y: int, x2: int, y2: int| #[trigger] db.block_has(x, y, x2, y2, r, p);
        assert(db.near_cells(x, y, x2, y2, r, p.0.0, p.1.0));
        if p.0.0 == p.1.0 {
            db.lemma_same_coords(x, y, x2, y2, p.0.0);
        }
    }
    assert forall|a: usize, b: usize|
        a != b && #[trigger] db.near_pair(a, b, r) implies pairs.contains((EntityId(a), EntityId(b)))
            || pairs.contains((EntityId(b), EntityId(a))) by {
        let (x, y, x2, y2) = choose|x: int, y: int, x2: int, y2: int| #[trigger] db.near_cells(x, y, x2, y2, r, a, b);
        let ab = (EntityId(a), EntityId(b));
        let ba = (EntityId(b), EntityId(a));
        if x == x2 && y == y2 {
            if a < b {
                assert(db.block_has(x, y, x2, y2, r, ab));
            } else {
                assert(db.block_has(x2, y2, x, y, r, ba));
            }
        } else if x < x2 || (x == x2 && y < y2) {
            assert(db.block_has(x, y, x2, y2, r, ab));
        } else {
            assert(db.block_has(x2, y2, x, y, r, ba));
        }
    }
    assert forall|a: usize, b: usize|
        !(#[trigger] pairs.contains((EntityId(a), EntityId(b))) && pairs.contains((EntityId(b), EntityId(a)))) by {
        let ab = (EntityId(a), EntityId(b));
        let ba = (EntityId(b), EntityId(a));
        if pairs.contains(ab) && pairs.contains(ba) {
            let (x, y, x2, y2) = choose|x: int, y: int, x2: int, y2: int| #[trigger] db.block_has(x, y, x2, y2, r, ab);
            let (u, v, u2, v2) = choose|x: int, y: int, x2: int, y2: int| #[trigger] db.block_has(x, y, x2, y2, r, ba);
            db.lemma_same_coords(x, y, u2, v2, a);
            db.lemma_same_coords(x2, y2, u, v, b);
        }
    }
}

} // verus!
