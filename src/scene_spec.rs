//! The mathematical model of a scene: cell states, neighbours, candidate
//! sets, the band, and what each operation does to them.
use vstd::prelude::*;
use crate::misc::{coord_x, coord_y, coord_z, linear_index};
use crate::prototype::{matches_spec, BlockView};
use crate::transform::Point;

verus! {

/// The colour that exported boxes carry.
pub const BOX_COLOR: u32 = 0x0F00FFFF;

/// What a cell is: resolved to a prototype, on the band with its candidate
/// prototypes, or not yet reached.
pub enum CellState {
    Known(u32),
    Band(Seq<u32>),
    Far,
}

/// A box handed to the renderer: one boundary point of the prototype that a
/// cell resolved to.
#[derive(Clone, Copy, Debug, PartialEq, Eq, Structural)]
pub struct ExportBox {
    pub x: u32,
    pub y: u32,
    pub z: u32,
    pub offset: Point,
    pub size: u32,
    pub color: u32,
}

/// What a scene is.
pub struct SceneView {
    pub dim_x: u32,
    pub dim_y: u32,
    pub dim_z: u32,
    pub cells: Seq<CellState>,
    /// `(candidate count, cell index)` for each band cell.
    pub band: Seq<(u32, u32)>,
    pub blocks: Seq<BlockView>,
    pub boxes: Seq<ExportBox>,
}

pub open spec fn band_of(c: CellState) -> Seq<u32> {
    match c {
        CellState::Band(s) => s,
        _ => Seq::empty(),
    }
}

pub open spec fn cell_count(v: SceneView) -> int {
    v.dim_x as int * v.dim_y as int * v.dim_z as int
}

pub open spec fn in_bounds(v: SceneView, x: int, y: int, z: int) -> bool {
    0 <= x < v.dim_x && 0 <= y < v.dim_y && 0 <= z < v.dim_z
}

/// The index of the cell at `(x, y, z)`.
pub open spec fn index_of(v: SceneView, x: int, y: int, z: int) -> int {
    linear_index(x, y, z, v.dim_x as int, v.dim_y as int)
}

/// Neighbour slot `k` of the cell at `(x, y, z)`: slots 0 to 5 step by x+1,
/// x-1, y+1, y-1, z+1, z-1; none where that leaves the grid.
pub open spec fn neighbor_at(v: SceneView, x: int, y: int, z: int, k: int) -> Option<int> {
    let (nx, ny, nz) = if k == 0 {
        (x + 1, y, z)
    } else if k == 1 {
        (x - 1, y, z)
    } else if k == 2 {
        (x, y + 1, z)
    } else if k == 3 {
        (x, y - 1, z)
    } else if k == 4 {
        (x, y, z + 1)
    } else {
        (x, y, z - 1)
    };
    if in_bounds(v, nx, ny, nz) {
        Some(index_of(v, nx, ny, nz))
    } else {
        None
    }
}

pub open spec fn cx(v: SceneView, idx: int) -> int {
    coord_x(idx, v.dim_x as int)
}

pub open spec fn cy(v: SceneView, idx: int) -> int {
    coord_y(idx, v.dim_x as int, v.dim_y as int)
}

pub open spec fn cz(v: SceneView, idx: int) -> int {
    coord_z(idx, v.dim_x as int, v.dim_y as int)
}

/// Neighbour slot `k` of cell `idx`.
pub open spec fn neighbor(v: SceneView, idx: int, k: int) -> Option<int> {
    neighbor_at(v, cx(v, idx), cy(v, idx), cz(v, idx), k)
}

/// The prototype of the neighbour in slot `k` of `idx`, where it is known.
pub open spec fn known_at(v: SceneView, idx: int, k: int) -> Option<u32> {
    match neighbor(v, idx, k) {
        Some(j) => match v.cells[j] {
            CellState::Known(p) => Some(p),
            _ => None,
        },
        None => None,
    }
}

/// The known neighbours among the first `k` slots of `idx`, as
/// `(slot, prototype)`.
pub open spec fn known_list(v: SceneView, idx: int, k: int) -> Seq<(usize, u32)>
    decreases k,
{
    if k <= 0 {
        Seq::empty()
    } else {
        let rest = known_list(v, idx, k - 1);
        match known_at(v, idx, k - 1) {
            Some(p) => rest.push(((k - 1) as usize, p)),
            None => rest,
        }
    }
}

pub open spec fn known_neighbors(v: SceneView, idx: int) -> Seq<(usize, u32)> {
    known_list(v, idx, 6)
}

/// Prototype `x` fits every known neighbour of `idx`.
pub open spec fn survives(v: SceneView, idx: int, x: int) -> bool {
    let kn = known_neighbors(v, idx);
    forall|i: int|
        0 <= i < kn.len() ==> matches_spec(
            v.blocks[x],
            v.blocks[#[trigger] kn[i].1 as int],
            kn[i].0 + 1,
        )
}

/// The prototypes below `m` that fit every known neighbour of `idx`, in
/// increasing order.
pub open spec fn candidates_upto(v: SceneView, idx: int, m: int) -> Seq<u32>
    decreases m,
{
    if m <= 0 {
        Seq::empty()
    } else {
        let rest = candidates_upto(v, idx, m - 1);
        if survives(v, idx, m - 1) {
            rest.push((m - 1) as u32)
        } else {
            rest
        }
    }
}

/// The candidate set of cell `idx`: the prototypes that fit all of its
/// known neighbours; none where it has no known neighbour.
pub open spec fn candidates(v: SceneView, idx: int) -> Seq<u32> {
    if known_neighbors(v, idx).len() == 0 {
        Seq::empty()
    } else {
        candidates_upto(v, idx, v.blocks.len() as int)
    }
}

/// The first position below `n` of the band entry of cell `ind`, or -1.
pub open spec fn entry_pos(band: Seq<(u32, u32)>, ind: u32, n: int) -> int
    decreases n,
{
    if n <= 0 {
        -1
    } else {
        let p = entry_pos(band, ind, n - 1);
        if p >= 0 {
            p
        } else if band[n - 1].1 == ind {
            n - 1
        } else {
            -1
        }
    }
}

/// The position of the band entry of cell `ind`, or -1.
pub open spec fn band_pos(band: Seq<(u32, u32)>, ind: u32) -> int {
    entry_pos(band, ind, band.len() as int)
}

/// The band with the entry of `ind` set to count `c`: in place where it has
/// one, appended where not.
pub open spec fn with_entry(band: Seq<(u32, u32)>, ind: u32, c: u32) -> Seq<(u32, u32)> {
    let p = band_pos(band, ind);
    if p >= 0 {
        band.update(p, (c, ind))
    } else {
        band.push((c, ind))
    }
}

/// `update_band_node(ind)`: the cell joins or stays on the band with its
/// candidate set recomputed.
pub open spec fn update_spec(v: SceneView, ind: int) -> SceneView {
    let c = candidates(v, ind);
    SceneView {
        cells: v.cells.update(ind, CellState::Band(c)),
        band: with_entry(v.band, ind as u32, c.len() as u32),
        ..v
    }
}

/// The first `k` neighbour slots of `center` processed by `expand_band`.
pub open spec fn expand_upto(v: SceneView, center: int, k: int) -> SceneView
    decreases k,
{
    if k <= 0 {
        v
    } else {
        let t = expand_upto(v, center, k - 1);
        match neighbor(v, center, k - 1) {
            Some(j) => if t.cells[j] is Known {
                t
            } else {
                update_spec(t, j)
            },
            None => t,
        }
    }
}

/// `expand_band(center)`: every neighbour of `center` that is not known is
/// put on the band with a fresh candidate set.
pub open spec fn expand_spec(v: SceneView, center: int) -> SceneView {
    expand_upto(v, center, 6)
}

/// The boxes that a cell at `(x, y, z)` resolved to `b` exports: one per
/// boundary point.
pub open spec fn boxes_at(b: BlockView, x: u32, y: u32, z: u32) -> Seq<ExportBox> {
    b.points.map_values(
        |q: Point| ExportBox { x, y, z, offset: q, size: b.dimension, color: BOX_COLOR },
    )
}

/// `add_seed_point(block_id, (x, y, z))`.
pub open spec fn seed_spec(v: SceneView, block_id: u32, x: u32, y: u32, z: u32) -> SceneView {
    SceneView {
        cells: v.cells.update(index_of(v, x as int, y as int, z as int), CellState::Known(block_id)),
        boxes: v.boxes + boxes_at(v.blocks[block_id as int], x, y, z),
        ..v
    }
}

/// Cell `idx` resolved to its `choice`-th candidate and taken off the band,
/// before the new constraint is propagated.
pub open spec fn resolve_spec(v: SceneView, idx: int, choice: int) -> SceneView {
    let p = band_of(v.cells[idx])[choice];
    SceneView {
        cells: v.cells.update(idx, CellState::Known(p)),
        band: v.band.remove(band_pos(v.band, idx as u32)),
        boxes: v.boxes + boxes_at(
            v.blocks[p as int],
            cx(v, idx) as u32,
            cy(v, idx) as u32,
            cz(v, idx) as u32,
        ),
        ..v
    }
}

/// `make_known` with candidate `choice`: the cell is resolved and its
/// neighbours expanded.
pub open spec fn commit_spec(v: SceneView, idx: int, choice: int) -> SceneView {
    expand_spec(resolve_spec(v, idx, choice), idx)
}

/// The smallest non-zero count among the first `n` band entries, or 0.
pub open spec fn min_nonzero(band: Seq<(u32, u32)>, n: int) -> u32
    decreases n,
{
    if n <= 0 {
        0
    } else {
        let m = min_nonzero(band, n - 1);
        let c = band[n - 1].0;
        if c == 0 {
            m
        } else if m == 0 || c < m {
            c
        } else {
            m
        }
    }
}

/// The cells of the band whose count is the smallest non-zero one, in band
/// order.
pub open spec fn next_candidates(band: Seq<(u32, u32)>) -> Seq<u32> {
    let m = min_nonzero(band, band.len() as int);
    band.filter(|e: (u32, u32)| e.0 > 0 && e.0 == m).map_values(|e: (u32, u32)| e.1)
}

/// No cell leaves `Known`, and no band cell goes back to `Far`.
pub open spec fn no_regress(a: Seq<CellState>, b: Seq<CellState>) -> bool {
    &&& a.len() == b.len()
    &&& forall|i: int| 0 <= i < a.len() && #[trigger] a[i] is Known ==> b[i] == a[i]
    &&& forall|i: int| 0 <= i < a.len() && #[trigger] a[i] is Band ==> !(b[i] is Far)
}

/// The invariant of a scene.
pub open spec fn scene_inv(v: SceneView) -> bool {
    &&& v.dim_x > 0 && v.dim_y > 0 && v.dim_z > 0
    &&& cell_count(v) <= u32::MAX
    &&& v.cells.len() == cell_count(v)
    &&& v.blocks.len() < u32::MAX
    &&& forall|i: int| 0 <= i < v.blocks.len() ==> #[trigger] v.blocks[i].dimension == v.blocks[0].dimension
    &&& forall|i: int| 0 <= i < v.blocks.len() ==> #[trigger] v.blocks[i].id == i
    &&& forall|i: int|
        0 <= i < v.cells.len() ==> match #[trigger] v.cells[i] {
            CellState::Known(p) => p < v.blocks.len(),
            CellState::Band(c) => c.len() <= v.blocks.len() && forall|j: int|
                0 <= j < c.len() ==> #[trigger] c[j] < v.blocks.len(),
            CellState::Far => true,
        }
    &&& forall|j: int|
        0 <= j < v.band.len() ==> {
            let e = #[trigger] v.band[j];
            &&& e.1 < v.cells.len()
            &&& v.cells[e.1 as int] is Band
            &&& band_of(v.cells[e.1 as int]).len() == e.0
        }
    &&& forall|i: int, j: int|
        0 <= i < j < v.band.len() ==> #[trigger] v.band[i].1 != #[trigger] v.band[j].1
    &&& forall|i: int|
        0 <= i < v.cells.len() && #[trigger] v.cells[i] is Band ==> band_pos(v.band, i as u32) >= 0
}

pub proof fn lemma_entry_pos(band: Seq<(u32, u32)>, ind: u32, n: int)
    requires
        0 <= n <= band.len(),
    ensures
        entry_pos(band, ind, n) == -1 <==> forall|i: int| 0 <= i < n ==> band[i].1 != ind,
        entry_pos(band, ind, n) >= 0 ==> entry_pos(band, ind, n) < n && band[entry_pos(
            band,
            ind,
            n,
        )].1 == ind,
        entry_pos(band, ind, n) >= -1,
    decreases n,
{
    if n > 0 {
        lemma_entry_pos(band, ind, n - 1);
    }
}

/// A cell has a band entry exactly when some entry names it.
pub proof fn lemma_band_pos(band: Seq<(u32, u32)>, ind: u32)
    ensures
        band_pos(band, ind) >= 0 <==> exists|i: int| 0 <= i < band.len() && #[trigger] band[i].1 == ind,
        band_pos(band, ind) >= 0 ==> band_pos(band, ind) < band.len() && band[band_pos(band, ind)].1 == ind,
        band_pos(band, ind) >= -1,
{
    lemma_entry_pos(band, ind, band.len() as int);
}

proof fn lemma_candidates_bounds(v: SceneView, idx: int, m: int)
    requires
        0 <= m,
    ensures
        candidates_upto(v, idx, m).len() <= m,
        forall|j: int|
            0 <= j < candidates_upto(v, idx, m).len() ==> #[trigger] candidates_upto(v, idx, m)[j] < m,
    decreases m,
{
    if m > 0 {
        lemma_candidates_bounds(v, idx, m - 1);
    }
}

pub proof fn lemma_candidates_fit(v: SceneView, idx: int)
    requires
        v.blocks.len() < u32::MAX,
    ensures
        candidates(v, idx).len() <= v.blocks.len(),
        forall|j: int|
            0 <= j < candidates(v, idx).len() ==> #[trigger] candidates(v, idx)[j] < v.blocks.len(),
{
    lemma_candidates_bounds(v, idx, v.blocks.len() as int);
}

/// `update_band_node` keeps the scene invariant and regresses no cell.
pub proof fn lemma_update_inv(v: SceneView, ind: int)
    requires
        scene_inv(v),
        0 <= ind < v.cells.len(),
        !(v.cells[ind] is Known),
    ensures
        scene_inv(update_spec(v, ind)),
        no_regress(v.cells, update_spec(v, ind).cells),
        update_spec(v, ind).blocks == v.blocks,
        update_spec(v, ind).boxes == v.boxes,
        update_spec(v, ind).dim_x == v.dim_x,
        update_spec(v, ind).dim_y == v.dim_y,
        update_spec(v, ind).dim_z == v.dim_z,
{
    let w = update_spec(v, ind);
    let c = candidates(v, ind);
    lemma_candidates_fit(v, ind);
    lemma_band_pos(v.band, ind as u32);
    let p = band_pos(v.band, ind as u32);
    assert forall|i: int| 0 <= i < w.cells.len() implies match #[trigger] w.cells[i] {
        CellState::Known(q) => q < w.blocks.len(),
        CellState::Band(cs) => cs.len() <= w.blocks.len() && forall|j: int|
            0 <= j < cs.len() ==> #[trigger] cs[j] < w.blocks.len(),
        CellState::Far => true,
    } by {
        if i != ind {
            assert(w.cells[i] == v.cells[i]);
        }
    }
    assert forall|j: int| 0 <= j < w.band.len() implies {
        let e = #[trigger] w.band[j];
        &&& e.1 < w.cells.len()
        &&& w.cells[e.1 as int] is Band
        &&& band_of(w.cells[e.1 as int]).len() == e.0
    } by {
        if p >= 0 {
            if j != p {
                assert(v.band[j].1 != ind as u32);
            }
        } else if j < v.band.len() {
            assert(v.band[j].1 != ind as u32);
        }
    }
    assert forall|i: int, j: int| 0 <= i < j < w.band.len() implies #[trigger] w.band[i].1
        != #[trigger] w.band[j].1 by {
        if p < 0 && j == v.band.len() {
            assert(v.band[i].1 != ind as u32);
        }
    }
    assert forall|i: int| 0 <= i < w.cells.len() && #[trigger] w.cells[i] is Band implies band_pos(
        w.band,
        i as u32,
    ) >= 0 by {
        lemma_band_pos(w.band, i as u32);
        if i == ind {
            if p >= 0 {
                assert(w.band[p].1 == i as u32);
            } else {
                assert(w.band[v.band.len() as int].1 == i as u32);
            }
        } else {
            assert(v.cells[i] is Band);
            lemma_band_pos(v.band, i as u32);
            let q = band_pos(v.band, i as u32);
            assert(w.band[q].1 == i as u32);
        }
    }
    assert forall|i: int| 0 <= i < w.blocks.len() implies #[trigger] w.blocks[i].dimension
        == w.blocks[0].dimension by {}
}

/// `expand_band` keeps the scene invariant and regresses no cell.
pub proof fn lemma_expand_inv(v: SceneView, center: int, k: int)
    requires
        scene_inv(v),
        0 <= k <= 6,
    ensures
        scene_inv(expand_upto(v, center, k)),
        no_regress(v.cells, expand_upto(v, center, k).cells),
        expand_upto(v, center, k).blocks == v.blocks,
        expand_upto(v, center, k).boxes == v.boxes,
        expand_upto(v, center, k).dim_x == v.dim_x,
        expand_upto(v, center, k).dim_y == v.dim_y,
        expand_upto(v, center, k).dim_z == v.dim_z,
    decreases k,
{
    if k > 0 {
        lemma_expand_inv(v, center, k - 1);
        let t = expand_upto(v, center, k - 1);
        match neighbor(v, center, k - 1) {
            Some(j) => {
                if !(t.cells[j] is Known) {
                    lemma_neighbor_in_grid(v, center, k - 1);
                    lemma_update_inv(t, j);
                    lemma_no_regress_trans(v.cells, t.cells, update_spec(t, j).cells);
                }
            },
            None => {},
        }
    } else {
        assert(no_regress(v.cells, v.cells));
    }
}

/// A neighbour lies inside the grid.
pub proof fn lemma_neighbor_in_grid(v: SceneView, idx: int, k: int)
    requires
        v.dim_x > 0 && v.dim_y > 0 && v.dim_z > 0,
    ensures
        neighbor(v, idx, k) is Some ==> 0 <= neighbor(v, idx, k)->0 < cell_count(v),
{
    let (dx, dy, dz) = (v.dim_x as int, v.dim_y as int, v.dim_z as int);
    let x = cx(v, idx);
    let y = cy(v, idx);
    let z = cz(v, idx);
    if neighbor(v, idx, k) is Some {
        let (nx, ny, nz) = if k == 0 {
            (x + 1, y, z)
        } else if k == 1 {
            (x - 1, y, z)
        } else if k == 2 {
            (x, y + 1, z)
        } else if k == 3 {
            (x, y - 1, z)
        } else if k == 4 {
            (x, y, z + 1)
        } else {
            (x, y, z - 1)
        };
        lemma_index_in_grid(dx, dy, dz, nx, ny, nz);
    }
}

pub proof fn lemma_index_in_grid(dx: int, dy: int, dz: int, x: int, y: int, z: int)
    requires
        0 <= x < dx,
        0 <= y < dy,
        0 <= z < dz,
    ensures
        0 <= linear_index(x, y, z, dx, dy) < dx * dy * dz,
{
    assert(x + y * dx < dx * dy) by (nonlinear_arith)
        requires 0 <= x < dx, 0 <= y < dy;
    assert(z * (dx * dy) <= (dz - 1) * (dx * dy)) by (nonlinear_arith)
        requires 0 <= z < dz, 0 < dx, 0 < dy;
    assert((dz - 1) * (dx * dy) + dx * dy == dx * dy * dz) by (nonlinear_arith);
    assert(0 <= x + y * dx + z * (dx * dy)) by (nonlinear_arith)
        requires 0 <= x, 0 <= y, 0 <= z, 0 < dx, 0 < dy;
}

/// Monotonic state machine: what no step regresses, no sequence of steps
/// regresses either.
pub proof fn lemma_no_regress_trans(a: Seq<CellState>, b: Seq<CellState>, c: Seq<CellState>)
    requires
        no_regress(a, b),
        no_regress(b, c),
    ensures
        no_regress(a, c),
{
    assert forall|i: int| 0 <= i < a.len() && #[trigger] a[i] is Band implies !(c[i] is Far) by {
        if b[i] is Known {
            assert(c[i] == b[i]);
        } else {
            assert(b[i] is Band);
        }
    }
}

/// Resolving a band cell keeps the scene invariant and regresses no cell.
pub proof fn lemma_resolve_inv(v: SceneView, idx: int, choice: int)
    requires
        scene_inv(v),
        0 <= idx < v.cells.len(),
        v.cells[idx] is Band,
        0 <= choice < band_of(v.cells[idx]).len(),
    ensures
        scene_inv(resolve_spec(v, idx, choice)),
        no_regress(v.cells, resolve_spec(v, idx, choice).cells),
        resolve_spec(v, idx, choice).blocks == v.blocks,
        resolve_spec(v, idx, choice).dim_x == v.dim_x,
        resolve_spec(v, idx, choice).dim_y == v.dim_y,
        resolve_spec(v, idx, choice).dim_z == v.dim_z,
{
    let w = resolve_spec(v, idx, choice);
    lemma_band_pos(v.band, idx as u32);
    let p = band_pos(v.band, idx as u32);
    assert(p >= 0);
    let c = band_of(v.cells[idx]);
    assert(c[choice] < v.blocks.len());
    assert forall|i: int| 0 <= i < w.cells.len() implies match #[trigger] w.cells[i] {
        CellState::Known(q) => q < w.blocks.len(),
        CellState::Band(cs) => cs.len() <= w.blocks.len() && forall|j: int|
            0 <= j < cs.len() ==> #[trigger] cs[j] < w.blocks.len(),
        CellState::Far => true,
    } by {
        if i != idx {
            assert(w.cells[i] == v.cells[i]);
        }
    }
    assert forall|j: int| 0 <= j < w.band.len() implies {
        let e = #[trigger] w.band[j];
        &&& e.1 < w.cells.len()
        &&& w.cells[e.1 as int] is Band
        &&& band_of(w.cells[e.1 as int]).len() == e.0
    } by {
        let oj = if j < p { j } else { j + 1 };
        assert(w.band[j] == v.band[oj]);
        assert(v.band[oj].1 != idx as u32);
    }
    assert forall|i: int, j: int| 0 <= i < j < w.band.len() implies #[trigger] w.band[i].1
        != #[trigger] w.band[j].1 by {
        let oi = if i < p { i } else { i + 1 };
        let oj = if j < p { j } else { j + 1 };
        assert(w.band[i] == v.band[oi]);
        assert(w.band[j] == v.band[oj]);
    }
    assert forall|i: int| 0 <= i < w.cells.len() && #[trigger] w.cells[i] is Band implies band_pos(
        w.band,
        i as u32,
    ) >= 0 by {
        assert(i != idx);
        assert(v.cells[i] is Band);
        lemma_band_pos(v.band, i as u32);
        let q = band_pos(v.band, i as u32);
        assert(q != p);
        let nq = if q < p { q } else { q - 1 };
        assert(w.band[nq] == v.band[q]);
        lemma_band_pos(w.band, i as u32);
    }
    assert forall|i: int| 0 <= i < w.blocks.len() implies #[trigger] w.blocks[i].dimension
        == w.blocks[0].dimension by {}
}

proof fn lemma_min_nonzero(band: Seq<(u32, u32)>, n: int)
    requires
        0 <= n <= band.len(),
    ensures
        forall|j: int| 0 <= j < n && (#[trigger] band[j]).0 > 0 ==> 0 < min_nonzero(band, n) <= band[j].0,
        min_nonzero(band, n) > 0 ==> exists|j: int| 0 <= j < n && (#[trigger] band[j]).0 == min_nonzero(band, n),
    decreases n,
{
    if n > 0 {
        lemma_min_nonzero(band, n - 1);
        let m = min_nonzero(band, n);
        if m > 0 && band[n - 1].0 == m {
            assert(band[n - 1].0 == m);
        }
    }
}

/// Band minimality: the cells that `find_next_known_candidates` offers are
/// exactly the band cells whose candidate count is the smallest non-zero
/// count on the band.
pub proof fn lemma_band_minimality(band: Seq<(u32, u32)>)
    ensures
        forall|j: int|
            0 <= j < band.len() && (#[trigger] band[j]).0 > 0 ==> 0 < min_nonzero(band, band.len() as int)
                <= band[j].0,
        forall|j: int|
            0 <= j < band.len() && (#[trigger] band[j]).0 > 0 && band[j].0 == min_nonzero(
                band,
                band.len() as int,
            ) ==> next_candidates(band).contains(band[j].1),
        forall|i: int|
            0 <= i < next_candidates(band).len() ==> min_nonzero(band, band.len() as int) > 0
                && band.contains((min_nonzero(band, band.len() as int), #[trigger] next_candidates(band)[i])),
{
    broadcast use vstd::seq_lib::group_filter_ensures;

    lemma_min_nonzero(band, band.len() as int);
    let m = min_nonzero(band, band.len() as int);
    let f = |e: (u32, u32)| e.0 > 0 && e.0 == m;
    let g = |e: (u32, u32)| e.1;
    let fl = band.filter(f);
    assert(next_candidates(band) == fl.map_values(g));
    assert forall|j: int|
        0 <= j < band.len() && (#[trigger] band[j]).0 > 0 && band[j].0 == m implies next_candidates(
        band,
    ).contains(band[j].1) by {
        assert(f(band[j]));
        assert(fl.contains(band[j]));
        let k = choose|k: int| 0 <= k < fl.len() && fl[k] == band[j];
        assert(next_candidates(band).len() == fl.len());
        assert(next_candidates(band)[k] == band[j].1);
        assert(next_candidates(band).contains(band[j].1));
    }
    assert forall|i: int| 0 <= i < next_candidates(band).len() implies m > 0 && band.contains(
        (m, #[trigger] next_candidates(band)[i]),
    ) by {
        assert(f(fl[i]));
        assert(fl.contains(fl[i]));
        band.lemma_filter_contains_rev(f, fl[i]);
        assert(fl[i] == (m, next_candidates(band)[i]));
    }
}

/// One step of a generation: expand the band around a cell, or resolve a
/// band cell to its candidate at a position that a selection rule chose.
pub enum Step {
    Expand(u32),
    Commit(u32, nat),
}

/// The scene that `steps` make of `v`, one after the other.
pub open spec fn run_steps(v: SceneView, steps: Seq<Step>) -> SceneView
    decreases steps.len(),
{
    if steps.len() == 0 {
        v
    } else {
        let w = run_steps(v, steps.drop_last());
        match steps.last() {
            Step::Expand(c) => expand_spec(w, c as int),
            Step::Commit(i, choice) => commit_spec(w, i as int, choice as int),
        }
    }
}

/// Step `s` can be taken in `v`: an expansion names a cell of the grid, a
/// commit names a band cell and one of its candidates.
pub open spec fn step_ok(v: SceneView, s: Step) -> bool {
    match s {
        Step::Expand(c) => c < v.cells.len(),
        Step::Commit(i, choice) => i < v.cells.len() && v.cells[i as int] is Band && choice < band_of(
            v.cells[i as int],
        ).len(),
    }
}

/// Every step of `steps` can be taken in the scene that the steps before it
/// make of `v`.
pub open spec fn steps_ok(v: SceneView, steps: Seq<Step>) -> bool
    decreases steps.len(),
{
    steps.len() == 0 || (steps_ok(v, steps.drop_last()) && step_ok(
        run_steps(v, steps.drop_last()),
        steps.last(),
    ))
}

/// Monotonic state machine: along any sequence of expansions and commits,
/// no cell leaves `Known` and no band cell goes back to `Far`; the scene
/// invariant holds throughout.
pub proof fn lemma_run_monotonic(v: SceneView, steps: Seq<Step>)
    requires
        scene_inv(v),
        steps_ok(v, steps),
    ensures
        scene_inv(run_steps(v, steps)),
        no_regress(v.cells, run_steps(v, steps).cells),
    decreases steps.len(),
{
    if steps.len() == 0 {
        assert(no_regress(v.cells, v.cells));
    } else {
        let pre = steps.drop_last();
        lemma_run_monotonic(v, pre);
        let w = run_steps(v, pre);
        match steps.last() {
            Step::Expand(c) => {
                lemma_expand_inv(w, c as int, 6);
                lemma_no_regress_trans(v.cells, w.cells, expand_spec(w, c as int).cells);
            },
            Step::Commit(i, choice) => {
                lemma_resolve_inv(w, i as int, choice as int);
                let r = resolve_spec(w, i as int, choice as int);
                lemma_expand_inv(r, i as int, 6);
                lemma_no_regress_trans(w.cells, r.cells, commit_spec(w, i as int, choice as int).cells);
                lemma_no_regress_trans(v.cells, w.cells, commit_spec(w, i as int, choice as int).cells);
            },
        }
    }
}

/// Determinism modulo the random draw: once the choices of candidate are
/// fixed, two runs of the same steps from equal scenes (same prototypes,
/// same seed) end in the same grid, band and exported boxes.
pub proof fn lemma_run_deterministic(a: SceneView, b: SceneView, steps: Seq<Step>)
    requires
        a == b,
    ensures
        run_steps(a, steps) == run_steps(b, steps),
        run_steps(a, steps).cells == run_steps(b, steps).cells,
    decreases steps.len(),
{
    if steps.len() > 0 {
        lemma_run_deterministic(a, b, steps.drop_last());
    }
}

} // verus!
