//! The scene: a dense 3D grid of cells, the band of cells next to resolved
//! ones, and the operations that grow the band and resolve its cells.
use vstd::prelude::*;
use crate::misc::{index_to_uvec3, uvec3_to_index};
use crate::order::lemma_filter_push;
use crate::prototype::{BlockView, WfcBlock};
use crate::scene_spec::{
    band_of, band_pos, boxes_at, candidates, candidates_upto, commit_spec, cx, cy, cz,
    entry_pos, expand_spec, expand_upto, in_bounds, index_of, known_list,
    known_neighbors, lemma_band_pos, lemma_candidates_fit, lemma_entry_pos, lemma_expand_inv,
    lemma_index_in_grid, lemma_neighbor_in_grid, lemma_resolve_inv, lemma_update_inv,
    min_nonzero, neighbor, neighbor_at, next_candidates, no_regress, resolve_spec, scene_inv,
    seed_spec, update_spec, CellState, ExportBox, SceneView, BOX_COLOR,
};

verus! {

/// The state of one cell.
#[derive(Clone, Debug, PartialEq, Eq)]
pub enum WfcNode {
    Known(u32),
    Band(Vec<u32>),
    Far,
}

impl View for WfcNode {
    type V = CellState;

    open spec fn view(&self) -> CellState {
        match self {
            WfcNode::Known(p) => CellState::Known(*p),
            WfcNode::Band(c) => CellState::Band(c@),
            WfcNode::Far => CellState::Far,
        }
    }
}

/// `a` holds the neighbour index that `b` gives, or neither holds one.
pub open spec fn opt_is(a: Option<u32>, b: Option<int>) -> bool {
    match (a, b) {
        (Some(x), Some(y)) => x as int == y,
        (None, None) => true,
        _ => false,
    }
}

/// Relies on rand's `Rng::gen_range` over `thread_rng`: a value drawn
/// uniformly from `0..n`; it panics on an empty range.
#[verifier::external_body]
fn random_below(n: usize) -> (r: usize)
    requires
        n > 0,
    ensures
        r < n,
{
    rand::Rng::gen_range(&mut rand::thread_rng(), 0..n)
}

/// A tile-matching scene of fixed dimensions.
#[derive(Clone, Debug)]
pub struct WfcScene {
    dim_x: u32,
    dim_y: u32,
    dim_z: u32,
    scene_data: Vec<WfcNode>,
    band: Vec<(u32, u32)>,
    all_block_cases: Vec<WfcBlock>,
    temp_aabbs: Vec<ExportBox>,
}

impl View for WfcScene {
    type V = SceneView;

    closed spec fn view(&self) -> SceneView {
        SceneView {
            dim_x: self.dim_x,
            dim_y: self.dim_y,
            dim_z: self.dim_z,
            cells: self.scene_data@.map_values(|n: WfcNode| n@),
            band: self.band@,
            blocks: self.all_block_cases@.map_values(|b: WfcBlock| b@),
            boxes: self.temp_aabbs@,
        }
    }
}

impl WfcScene {
    pub closed spec fn wf(&self) -> bool {
        &&& scene_inv(self@)
        &&& forall|i: int| 0 <= i < self.all_block_cases@.len() ==> #[trigger] self.all_block_cases@[i].wf()
    }

    /// An empty scene of `dim_x * dim_y * dim_z` cells, all `Far`.
    pub fn init(dim_x: u32, dim_y: u32, dim_z: u32) -> (r: Self)
        requires
            dim_x > 0,
            dim_y > 0,
            dim_z > 0,
            dim_x * dim_y * dim_z <= u32::MAX,
        ensures
            r.wf(),
            r@.dim_x == dim_x && r@.dim_y == dim_y && r@.dim_z == dim_z,
            r@.cells == Seq::new((dim_x * dim_y * dim_z) as nat, |i: int| CellState::Far),
            r@.band.len() == 0,
            r@.blocks.len() == 0,
            r@.boxes.len() == 0,
    {
        proof {
            assert(dim_x * dim_y <= dim_x * dim_y * dim_z) by (nonlinear_arith)
                requires dim_z > 0, dim_x > 0, dim_y > 0;
        }
        let n = dim_x * dim_y * dim_z;
        let mut scene_data: Vec<WfcNode> = Vec::new();
        for i in 0..n
            invariant
                scene_data@.len() == i,
                forall|j: int| 0 <= j < i ==> #[trigger] scene_data@[j] == WfcNode::Far,
        {
            scene_data.push(WfcNode::Far);
        }
        let r = WfcScene {
            dim_x,
            dim_y,
            dim_z,
            scene_data,
            band: Vec::new(),
            all_block_cases: Vec::new(),
            temp_aabbs: Vec::new(),
        };
        assert(r@.cells =~= Seq::new(n as nat, |i: int| CellState::Far));
        r
    }

    /// Registers `block` under the next free id, which it returns.
    pub fn insert_block_case(&mut self, block: WfcBlock) -> (r: u32)
        requires
            old(self).wf(),
            block.wf(),
            old(self)@.blocks.len() + 1 < u32::MAX,
            old(self)@.blocks.len() == 0 || block@.dimension == old(self)@.blocks[0].dimension,
        ensures
            final(self).wf(),
            r == old(self)@.blocks.len(),
            final(self)@ == (SceneView {
                blocks: old(self)@.blocks.push(BlockView { id: r, ..block@ }),
                ..old(self)@
            }),
    {
        let mut block = block;
        let id = self.all_block_cases.len() as u32;
        block.set_id(id);
        self.all_block_cases.push(block);
        let ghost v = self@;
        proof {
            assert(v.blocks =~= old(self)@.blocks.push(BlockView { id, ..block@ }));
            assert forall|i: int| 0 <= i < v.cells.len() implies match #[trigger] v.cells[i] {
                CellState::Known(q) => q < v.blocks.len(),
                CellState::Band(cs) => cs.len() <= v.blocks.len() && forall|j: int|
                    0 <= j < cs.len() ==> #[trigger] cs[j] < v.blocks.len(),
                CellState::Far => true,
            } by {
                assert(v.cells[i] == old(self)@.cells[i]);
            }
            assert forall|i: int| 0 <= i < v.blocks.len() implies #[trigger] v.blocks[i].dimension
                == v.blocks[0].dimension by {
                if i < old(self)@.blocks.len() {
                    assert(v.blocks[i] == old(self)@.blocks[i]);
                }
            }
            assert forall|i: int| 0 <= i < v.blocks.len() implies #[trigger] v.blocks[i].id == i by {
                if i < old(self)@.blocks.len() {
                    assert(v.blocks[i] == old(self)@.blocks[i]);
                }
            }
            assert forall|i: int| 0 <= i < self.all_block_cases@.len() implies #[trigger] self.all_block_cases@[i].wf() by {
                if i < old(self)@.blocks.len() {
                    assert(self.all_block_cases@[i] == old(self).all_block_cases@[i]);
                }
            }
        }
        id
    }

    /// Hands over the boxes exported since the last call, and forgets them.
    pub fn get_aabb_data(&mut self) -> (r: Vec<ExportBox>)
        requires
            old(self).wf(),
        ensures
            final(self).wf(),
            r@ == old(self)@.boxes,
            final(self)@ == (SceneView { boxes: Seq::empty(), ..old(self)@ }),
    {
        let mut aabbs: Vec<ExportBox> = Vec::new();
        std::mem::swap(&mut aabbs, &mut self.temp_aabbs);
        proof {
            assert(self@ =~= (SceneView { boxes: Seq::empty(), ..old(self)@ }));
        }
        aabbs
    }

    /// The index of the cell at `(x, y, z)`.
    fn index_at(&self, x: u32, y: u32, z: u32) -> (r: u32)
        requires
            self.wf(),
            in_bounds(self@, x as int, y as int, z as int),
        ensures
            r == index_of(self@, x as int, y as int, z as int),
            r < self@.cells.len(),
    {
        proof {
            lemma_index_in_grid(self.dim_x as int, self.dim_y as int, self.dim_z as int, x as int, y as int, z as int);
            assert(z * self.dim_x <= self.dim_x * self.dim_y * self.dim_z) by (nonlinear_arith)
                requires z < self.dim_z, self.dim_y > 0;
        }
        uvec3_to_index(x, y, z, self.dim_x, self.dim_y)
    }

    /// Exports one box per boundary point of prototype `block_id`, placed at
    /// cell `coord`.
    fn debug_aabb(&mut self, block_id: u32, coord: [u32; 3])
        requires
            old(self).wf(),
            block_id < old(self)@.blocks.len(),
        ensures
            final(self).wf(),
            final(self)@ == (SceneView {
                boxes: old(self)@.boxes + boxes_at(old(self)@.blocks[block_id as int], coord[0], coord[1], coord[2]),
                ..old(self)@
            }),
    {
        let ghost b = self@.blocks[block_id as int];
        let size = self.all_block_cases[block_id as usize].get_dimension();
        let pts = self.all_block_cases[block_id as usize].get_connection_data();
        let mut out: Vec<ExportBox> = Vec::new();
        for i in 0..pts.len()
            invariant
                pts@ == b.points,
                size == b.dimension,
                out@ == boxes_at(b, coord[0], coord[1], coord[2]).subrange(0, i as int),
        {
            out.push(ExportBox {
                x: coord[0],
                y: coord[1],
                z: coord[2],
                offset: pts[i],
                size,
                color: BOX_COLOR,
            });
            assert(boxes_at(b, coord[0], coord[1], coord[2]).subrange(0, i + 1) =~= boxes_at(
                b,
                coord[0],
                coord[1],
                coord[2],
            ).subrange(0, i as int).push(boxes_at(b, coord[0], coord[1], coord[2])[i as int]));
        }
        proof {
            assert(boxes_at(b, coord[0], coord[1], coord[2]).subrange(0, pts@.len() as int) =~= boxes_at(
                b,
                coord[0],
                coord[1],
                coord[2],
            ));
        }
        self.temp_aabbs.append(&mut out);
        proof {
            assert(self@ =~= (SceneView {
                boxes: old(self)@.boxes + boxes_at(b, coord[0], coord[1], coord[2]),
                ..old(self)@
            }));
        }
    }

    /// Resolves the cell at `coord` to prototype `block_id` directly, to
    /// start a generation. Only allowed while the band is empty.
    pub fn add_seed_point(&mut self, block_id: u32, coord: [u32; 3])
        requires
            old(self).wf(),
            in_bounds(old(self)@, coord[0] as int, coord[1] as int, coord[2] as int),
            old(self)@.band.len() == 0,
            block_id < old(self)@.blocks.len(),
        ensures
            final(self).wf(),
            final(self)@ == seed_spec(old(self)@, block_id, coord[0], coord[1], coord[2]),
    {
        let idx = self.index_at(coord[0], coord[1], coord[2]);
        let ghost v = self@;
        self.scene_data.set(idx as usize, WfcNode::Known(block_id));
        proof {
            assert(self@.cells =~= v.cells.update(idx as int, CellState::Known(block_id)));
            assert forall|i: int| 0 <= i < v.cells.len() implies !(#[trigger] v.cells[i] is Band) by {
                if v.cells[i] is Band {
                    lemma_band_pos(v.band, i as u32);
                }
            }
            let w = self@;
            assert forall|i: int| 0 <= i < w.cells.len() implies match #[trigger] w.cells[i] {
                CellState::Known(q) => q < w.blocks.len(),
                CellState::Band(cs) => cs.len() <= w.blocks.len() && forall|j: int|
                    0 <= j < cs.len() ==> #[trigger] cs[j] < w.blocks.len(),
                CellState::Far => true,
            } by {
                if i != idx {
                    assert(w.cells[i] == v.cells[i]);
                }
            }
            assert forall|i: int| 0 <= i < w.cells.len() && #[trigger] w.cells[i] is Band implies band_pos(
                w.band,
                i as u32,
            ) >= 0 by {
                if i != idx {
                    assert(w.cells[i] == v.cells[i]);
                }
            }
        }
        self.debug_aabb(block_id, coord);
    }

    /// The up to six grid neighbours of the cell at `coord`, in the slots
    /// x+1, x-1, y+1, y-1, z+1, z-1; `None` where that leaves the grid.
    pub fn find_neighbor_indices_coord(&self, coord: [u32; 3]) -> (r: [Option<u32>; 6])
        requires
            self.wf(),
            in_bounds(self@, coord[0] as int, coord[1] as int, coord[2] as int),
        ensures
            forall|k: int|
                0 <= k < 6 ==> opt_is(
                    #[trigger] r[k],
                    neighbor_at(self@, coord[0] as int, coord[1] as int, coord[2] as int, k),
                ),
    {
        let x = coord[0];
        let y = coord[1];
        let z = coord[2];
        let mut n: [Option<u32>; 6] = [None; 6];
        if x + 1 < self.dim_x {
            n[0] = Some(self.index_at(x + 1, y, z));
        }
        if x >= 1 {
            n[1] = Some(self.index_at(x - 1, y, z));
        }
        if y + 1 < self.dim_y {
            n[2] = Some(self.index_at(x, y + 1, z));
        }
        if y >= 1 {
            n[3] = Some(self.index_at(x, y - 1, z));
        }
        if z + 1 < self.dim_z {
            n[4] = Some(self.index_at(x, y, z + 1));
        }
        if z >= 1 {
            n[5] = Some(self.index_at(x, y, z - 1));
        }
        n
    }

    /// The coordinate of cell `index`.
    fn coord_of(&self, index: u32) -> (r: [u32; 3])
        requires
            self.wf(),
            index < self@.cells.len(),
        ensures
            r[0] == cx(self@, index as int),
            r[1] == cy(self@, index as int),
            r[2] == cz(self@, index as int),
            in_bounds(self@, r[0] as int, r[1] as int, r[2] as int),
    {
        proof {
            assert(self.dim_x * self.dim_y <= self.dim_x * self.dim_y * self.dim_z) by (nonlinear_arith)
                requires self.dim_z > 0, self.dim_x > 0, self.dim_y > 0;
        }
        let c = index_to_uvec3(index, self.dim_x, self.dim_y);
        proof {
            let (dx, dy, dz) = (self.dim_x as int, self.dim_y as int, self.dim_z as int);
            if c[2] >= dz {
                assert(index as int >= c[2] * (dx * dy)) by (nonlinear_arith)
                    requires index == c[0] + c[1] * dx + c[2] * (dx * dy), c[0] >= 0, c[1] >= 0, dx > 0;
                assert(c[2] * (dx * dy) >= dz * (dx * dy)) by (nonlinear_arith)
                    requires c[2] >= dz, dx > 0, dy > 0;
                assert(dz * (dx * dy) == dx * dy * dz) by (nonlinear_arith);
            }
        }
        c
    }

    /// The grid neighbours of cell `index`, as `find_neighbor_indices_coord`
    /// gives them.
    pub fn find_neighbor_indices_ind(&self, index: u32) -> (r: [Option<u32>; 6])
        requires
            self.wf(),
            index < self@.cells.len(),
        ensures
            forall|k: int| 0 <= k < 6 ==> opt_is(#[trigger] r[k], neighbor(self@, index as int, k)),
    {
        let c = self.coord_of(index);
        self.find_neighbor_indices_coord(c)
    }

    pub fn get_node(&self, index: u32) -> (r: &WfcNode)
        requires
            index < self@.cells.len(),
        ensures
            r@ == self@.cells[index as int],
    {
        &self.scene_data[index as usize]
    }

    /// The band, as `(candidate count, cell index)` entries.
    pub fn get_band(&self) -> (r: &Vec<(u32, u32)>)
        ensures
            r@ == self@.band,
    {
        &self.band
    }

    pub fn get_block(&self, id: u32) -> (r: &WfcBlock)
        requires
            self.wf(),
            id < self@.blocks.len(),
        ensures
            r@ == self@.blocks[id as int],
            r.wf(),
    {
        &self.all_block_cases[id as usize]
    }

    pub fn block_count(&self) -> (r: usize)
        ensures
            r == self@.blocks.len(),
    {
        self.all_block_cases.len()
    }

    /// `[dim_x, dim_y, dim_z]`.
    pub fn get_dimensions(&self) -> (r: [u32; 3])
        ensures
            r[0] == self@.dim_x && r[1] == self@.dim_y && r[2] == self@.dim_z,
    {
        [self.dim_x, self.dim_y, self.dim_z]
    }

    /// Recomputes the candidate set of cell `ind` from its known neighbours
    /// and puts it on the band, or updates its band entry.
    pub fn update_band_node(&mut self, ind: u32)
        requires
            old(self).wf(),
            ind < old(self)@.cells.len(),
            !(old(self)@.cells[ind as int] is Known),
        ensures
            final(self).wf(),
            final(self)@ == update_spec(old(self)@, ind as int),
            no_regress(old(self)@.cells, final(self)@.cells),
    {
        let ghost v = self@;
        let nb = self.find_neighbor_indices_ind(ind);
        let mut known: Vec<(usize, u32)> = Vec::new();
        for k in 0..6
            invariant
                self@ == v,
                self.wf(),
                ind < v.cells.len(),
                forall|j: int| 0 <= j < 6 ==> opt_is(#[trigger] nb[j], neighbor(v, ind as int, j)),
                known@ == known_list(v, ind as int, k as int),
                forall|i: int| 0 <= i < known@.len() ==> (#[trigger] known@[i]).0 < 6 && known@[i].1 < v.blocks.len(),
        {
            proof {
                lemma_neighbor_in_grid(v, ind as int, k as int);
            }
            match nb[k] {
                Some(j) => {
                    match &self.scene_data[j as usize] {
                        WfcNode::Known(p) => {
                            known.push((k, *p));
                        },
                        _ => {},
                    }
                },
                None => {},
            }
        }
        let mut cands: Vec<u32> = Vec::new();
        if known.len() > 0 {
            for x in 0..self.all_block_cases.len()
                invariant
                    self@ == v,
                    self.wf(),
                    known@ == known_neighbors(v, ind as int),
                    forall|i: int| 0 <= i < known@.len() ==> (#[trigger] known@[i]).0 < 6 && known@[i].1 < v.blocks.len(),
                    cands@ == candidates_upto(v, ind as int, x as int),
            {
                let mut ok = true;
                for i in 0..known.len()
                    invariant
                        self@ == v,
                        self.wf(),
                        x < v.blocks.len(),
                        forall|i: int| 0 <= i < known@.len() ==> (#[trigger] known@[i]).0 < 6 && known@[i].1 < v.blocks.len(),
                        ok == forall|i2: int| 0 <= i2 < i ==> crate::prototype::matches_spec(
                            v.blocks[x as int],
                            v.blocks[#[trigger] known@[i2].1 as int],
                            known@[i2].0 + 1,
                        ),
                {
                    let (k, p) = known[i];
                    proof {
                        assert(self.all_block_cases@[x as int].wf());
                        assert(self.all_block_cases@[p as int].wf());
                        assert(v.blocks[x as int].dimension == v.blocks[0].dimension);
                        assert(v.blocks[p as int].dimension == v.blocks[0].dimension);
                    }
                    let m = self.all_block_cases[x].matches(&self.all_block_cases[p as usize], k + 1);
                    ok = ok && m;
                }
                if ok {
                    cands.push(x as u32);
                }
            }
        }
        proof {
            assert(cands@ == candidates(v, ind as int));
            lemma_candidates_fit(v, ind as int);
            lemma_update_inv(v, ind as int);
        }
        let count = cands.len() as u32;
        let mut pos: usize = 0;
        while pos < self.band.len() && self.band[pos].1 != ind
            invariant
                self@ == v,
                pos <= v.band.len(),
                forall|i: int| 0 <= i < pos ==> (#[trigger] v.band[i]).1 != ind,
            decreases v.band.len() - pos,
        {
            pos += 1;
        }
        proof {
            lemma_band_pos(v.band, ind);
            lemma_entry_pos(v.band, ind, v.band.len() as int);
            if pos < v.band.len() {
                lemma_entry_pos(v.band, ind, pos as int);
                assert(entry_pos(v.band, ind, pos + 1) == pos);
                assert forall|n: int| pos < n <= v.band.len() implies entry_pos(v.band, ind, n) == pos by {
                    lemma_entry_pos_stable(v.band, ind, pos as int + 1, n);
                }
            }
        }
        if pos < self.band.len() {
            self.band.set(pos, (count, ind));
        } else {
            self.band.push((count, ind));
        }
        self.scene_data.set(ind as usize, WfcNode::Band(cands));
        proof {
            assert(self@.cells =~= update_spec(v, ind as int).cells);
            assert(self@.band =~= update_spec(v, ind as int).band);
            assert(self@ =~= update_spec(v, ind as int));
        }
    }

    /// Puts every neighbour of `center_index` that is not known on the band,
    /// with its candidate set computed afresh.
    pub fn expand_band(&mut self, center_index: u32)
        requires
            old(self).wf(),
            center_index < old(self)@.cells.len(),
        ensures
            final(self).wf(),
            final(self)@ == expand_spec(old(self)@, center_index as int),
            no_regress(old(self)@.cells, final(self)@.cells),
    {
        let ghost v = self@;
        let nb = self.find_neighbor_indices_ind(center_index);
        proof {
            lemma_expand_inv(v, center_index as int, 0);
        }
        for k in 0..6
            invariant
                self.wf(),
                center_index < v.cells.len(),
                forall|j: int| 0 <= j < 6 ==> opt_is(#[trigger] nb[j], neighbor(v, center_index as int, j)),
                self@ == expand_upto(v, center_index as int, k as int),
                no_regress(v.cells, self@.cells),
                scene_inv(v),
        {
            proof {
                lemma_neighbor_in_grid(v, center_index as int, k as int);
                lemma_expand_inv(v, center_index as int, k as int);
            }
            match nb[k] {
                Some(j) => {
                    let known = match &self.scene_data[j as usize] {
                        WfcNode::Known(_) => true,
                        _ => false,
                    };
                    if !known {
                        self.update_band_node(j);
                    }
                },
                None => {},
            }
            proof {
                lemma_expand_inv(v, center_index as int, k + 1);
            }
        }
    }

    /// `expand_band` around the cell at `center_coord`.
    pub fn expand_band_uvec3(&mut self, center_coord: [u32; 3])
        requires
            old(self).wf(),
            in_bounds(old(self)@, center_coord[0] as int, center_coord[1] as int, center_coord[2] as int),
        ensures
            final(self).wf(),
            final(self)@ == expand_spec(
                old(self)@,
                index_of(old(self)@, center_coord[0] as int, center_coord[1] as int, center_coord[2] as int),
            ),
            no_regress(old(self)@.cells, final(self)@.cells),
    {
        let center_index = self.index_at(center_coord[0], center_coord[1], center_coord[2]);
        self.expand_band(center_index);
    }

    /// Resolves band cell `index` to its `choice`-th candidate, takes it off
    /// the band, exports its boxes and expands the band around it.
    pub fn commit_candidate(&mut self, index: u32, choice: usize)
        requires
            old(self).wf(),
            index < old(self)@.cells.len(),
            old(self)@.cells[index as int] is Band,
            choice < band_of(old(self)@.cells[index as int]).len(),
        ensures
            final(self).wf(),
            final(self)@ == commit_spec(old(self)@, index as int, choice as int),
            no_regress(old(self)@.cells, final(self)@.cells),
    {
        let ghost v = self@;
        let p = match &self.scene_data[index as usize] {
            WfcNode::Band(candidates) => candidates[choice],
            _ => {
                proof {
                    assert(false);
                }
                0
            },
        };
        proof {
            lemma_resolve_inv(v, index as int, choice as int);
            lemma_band_pos(v.band, index);
        }
        let coord = self.coord_of(index);
        let mut pos: usize = 0;
        while pos < self.band.len() && self.band[pos].1 != index
            invariant
                self@ == v,
                pos <= v.band.len(),
                forall|i: int| 0 <= i < pos ==> (#[trigger] v.band[i]).1 != index,
            decreases v.band.len() - pos,
        {
            pos += 1;
        }
        proof {
            lemma_entry_pos(v.band, index, pos as int);
            assert(pos < v.band.len());
            assert(entry_pos(v.band, index, pos + 1) == pos);
            assert forall|n: int| pos < n <= v.band.len() implies entry_pos(v.band, index, n) == pos by {
                lemma_entry_pos_stable(v.band, index, pos as int + 1, n);
            }
        }
        self.scene_data.set(index as usize, WfcNode::Known(p));
        self.band.remove(pos);
        proof {
            let w = self@;
            assert(w.cells =~= v.cells.update(index as int, CellState::Known(p)));
            assert(scene_inv(SceneView {
                boxes: w.boxes + boxes_at(w.blocks[p as int], coord[0], coord[1], coord[2]),
                ..w
            })) by {
                assert((SceneView {
                    boxes: w.boxes + boxes_at(w.blocks[p as int], coord[0], coord[1], coord[2]),
                    ..w
                }) =~= resolve_spec(v, index as int, choice as int));
            }
            assert(scene_inv(w)) by {
                let r = resolve_spec(v, index as int, choice as int);
                assert(w.cells == r.cells && w.band == r.band && w.blocks == r.blocks);
            }
        }
        self.debug_aabb(p, coord);
        proof {
            assert(self@ =~= resolve_spec(v, index as int, choice as int));
        }
        self.expand_band(index);
        proof {
            crate::scene_spec::lemma_no_regress_trans(v.cells, resolve_spec(v, index as int, choice as int).cells, self@.cells);
        }
    }

    /// Resolves band cell `index` to one of its candidates, drawn uniformly
    /// at random, takes it off the band, exports its boxes and expands the
    /// band around it.
    pub fn make_known(&mut self, index: u32)
        requires
            old(self).wf(),
            index < old(self)@.cells.len(),
            old(self)@.cells[index as int] is Band,
            band_of(old(self)@.cells[index as int]).len() > 0,
        ensures
            final(self).wf(),
            exists|choice: int|
                0 <= choice < band_of(old(self)@.cells[index as int]).len() && final(self)@ == commit_spec(
                    old(self)@,
                    index as int,
                    choice,
                ),
            no_regress(old(self)@.cells, final(self)@.cells),
    {
        let n = match &self.scene_data[index as usize] {
            WfcNode::Band(candidates) => candidates.len(),
            _ => {
                proof {
                    assert(false);
                }
                0
            },
        };
        let choice = random_below(n);
        self.commit_candidate(index, choice);
    }

    /// `None` when the band is empty. Otherwise the band cells whose
    /// candidate count is the smallest non-zero one, in band order; cells
    /// with no candidate are never among them.
    pub fn find_next_known_candidates(&self) -> (r: Option<Vec<u32>>)
        ensures
            r is None <==> self@.band.len() == 0,
            r is Some ==> r->0@ == next_candidates(self@.band),
    {
        if self.band.len() == 0 {
            return None;
        }
        let mut m: u32 = 0;
        for i in 0..self.band.len()
            invariant
                m == min_nonzero(self@.band, i as int),
        {
            let c = self.band[i].0;
            if c != 0 && (m == 0 || c < m) {
                m = c;
            }
        }
        let ghost f = |e: (u32, u32)| e.0 > 0 && e.0 == m;
        let ghost g = |e: (u32, u32)| e.1;
        let mut result: Vec<u32> = Vec::new();
        for i in 0..self.band.len()
            invariant
                m == min_nonzero(self@.band, self@.band.len() as int),
                f == (|e: (u32, u32)| e.0 > 0 && e.0 == m),
                g == (|e: (u32, u32)| e.1),
                result@ == self@.band.subrange(0, i as int).filter(f).map_values(g),
        {
            let e = self.band[i];
            proof {
                assert(self@.band.subrange(0, i + 1) =~= self@.band.subrange(0, i as int).push(e));
                lemma_filter_push(self@.band.subrange(0, i as int), e, f);
            }
            if e.0 > 0 && e.0 == m {
                result.push(e.1);
                proof {
                    assert(result@ =~= self@.band.subrange(0, i + 1).filter(f).map_values(g));
                }
            }
        }
        proof {
            assert(self@.band.subrange(0, self@.band.len() as int) =~= self@.band);
        }
        Some(result)
    }
}

proof fn lemma_entry_pos_stable(band: Seq<(u32, u32)>, ind: u32, a: int, n: int)
    requires
        0 < a <= n <= band.len(),
        entry_pos(band, ind, a) >= 0,
    ensures
        entry_pos(band, ind, n) == entry_pos(band, ind, a),
    decreases n - a,
{
    if n > a {
        lemma_entry_pos_stable(band, ind, a, n - 1);
    }
}

} // verus!
