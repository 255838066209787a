//! The material volume: a bounds-checked dense grid of optional material
//! cells at double resolution, its RGBA backing image, and the orchestration
//! of the dirty-region tracker and of synchronization.
//!
//! Every public operation is specified against [`VolumeModel`], the
//! mathematical state of a volume: plain scalars, sequences for the cells and
//! the backing image, and the tracker's model. Bounds violations are silent
//! failures signalled through the return value, never a fault, so the grid is
//! safe to probe with arbitrary caller-computed coordinates.

use vstd::prelude::*;
use vstd::arithmetic::div_mod::lemma_fundamental_div_mod_converse;
use crate::material::{Material, Rgba};
use crate::mapper::{CellIndex, Position, map_position, spec_map_position};
use crate::tracker::{
    DirtyModel, DirtyRect, StrategyKind, UpdateHandler, lemma_register_keeps_cap,
};

verus! {

/// Largest logical grid extent on either axis, so that every byte count of
/// the double-resolution backing image fits a 32-bit `usize`.
pub const MAX_SIZE: u16 = 8192;

/// Subdivision factor: each logical unit cell holds a 2x2 sub-grid.
pub const SUBDIVISION: u32 = 2;

/// One channel of an RGBA color, by channel number 0..4.
pub open spec fn channel(c: Rgba, j: int) -> u8 {
    if j == 0 {
        c.r
    } else if j == 1 {
        c.g
    } else if j == 2 {
        c.b
    } else {
        c.a
    }
}

/// The color a cell contributes to the backing image: the material's base
/// color, or fully transparent zero for vacuum.
pub open spec fn color_of_cell(c: Option<Material>) -> Rgba {
    match c {
        Some(m) => m.spec_base_color(),
        None => Rgba { r: 0, g: 0, b: 0, a: 0 },
    }
}

/// The four image bytes of cell `k` hold exactly the cell's color.
pub open spec fn pixel_ok(img: Seq<u8>, k: int, c: Option<Material>) -> bool {
    &&& img[4 * k] == color_of_cell(c).r
    &&& img[4 * k + 1] == color_of_cell(c).g
    &&& img[4 * k + 2] == color_of_cell(c).b
    &&& img[4 * k + 3] == color_of_cell(c).a
}

/// The backing image determined by a cell sequence, four bytes per cell.
pub open spec fn image_of(cells: Seq<Option<Material>>) -> Seq<u8> {
    Seq::new(4 * cells.len(), |b: int| channel(color_of_cell(cells[b / 4]), b % 4))
}

/// The mathematical state of a [`MaterialVolume`].
#[verifier::ext_equal]
pub struct VolumeModel {
    /// Logical grid dimensions.
    pub size_x: u16,
    pub size_y: u16,
    /// Allocated dimensions of the double-resolution cell grid; never less
    /// than `SUBDIVISION` times the logical size.
    pub cap_x: u32,
    pub cap_y: u32,
    /// Row-major cell contents, length `cap_x * cap_y`.
    pub cells: Seq<Option<Material>>,
    /// RGBA backing image, four bytes per cell.
    pub image: Seq<u8>,
    /// The active dirty-region tracker.
    pub tracker: DirtyModel,
}

impl VolumeModel {
    /// Number of allocated cells.
    pub open spec fn cell_count(self) -> int {
        (self.cap_x as int) * (self.cap_y as int)
    }

    /// A cell index the grid can store: inside the capacity rectangle.
    pub open spec fn in_bounds(self, i: CellIndex) -> bool {
        &&& 0 <= (i.x as int) < (self.cap_x as int)
        &&& 0 <= (i.y as int) < (self.cap_y as int)
    }

    /// Row-major flattening over the capacity, not the size, so capacity
    /// headroom never shifts existing data's addressing.
    pub open spec fn idx1(self, i: CellIndex) -> int {
        i.x as int + (i.y as int) * (self.cap_x as int)
    }

    /// The cell at `i`: out-of-bounds reads are vacuum, never a fault.
    pub open spec fn get(self, i: CellIndex) -> Option<Material> {
        if self.in_bounds(i) {
            self.cells[self.idx1(i)]
        } else {
            None
        }
    }

    /// Well-formedness: bounded dimensions, capacity at least the subdivided
    /// logical size, matching array lengths, the image in step with the
    /// cells, and the tracker's box inside the capacity rectangle.
    pub open spec fn wf(self) -> bool {
        &&& self.size_x <= MAX_SIZE
        &&& self.size_y <= MAX_SIZE
        &&& self.cap_x <= SUBDIVISION * (MAX_SIZE as u32)
        &&& self.cap_y <= SUBDIVISION * (MAX_SIZE as u32)
        &&& (SUBDIVISION as int) * (self.size_x as int) <= self.cap_x as int
        &&& (SUBDIVISION as int) * (self.size_y as int) <= self.cap_y as int
        &&& self.cells.len() == self.cell_count()
        &&& self.image.len() == 4 * self.cells.len()
        &&& forall|k: int|
            0 <= k < self.cells.len() ==> #[trigger] pixel_ok(self.image, k, self.cells[k])
        &&& self.tracker.in_cap(self.cap_x as int, self.cap_y as int)
    }

    /// The state after a successful write at `i`: the cell overwritten, its
    /// four image bytes rewritten, the write recorded with the tracker.
    pub open spec fn set(self, i: CellIndex, v: Option<Material>) -> VolumeModel
        recommends
            self.in_bounds(i),
    {
        let k = self.idx1(i);
        let c = color_of_cell(v);
        VolumeModel {
            cells: self.cells.update(k, v),
            image: self.image.update(4 * k, c.r).update(4 * k + 1, c.g).update(
                4 * k + 2,
                c.b,
            ).update(4 * k + 3, c.a),
            tracker: self.tracker.spec_register(i),
            ..self
        }
    }

    /// The state after a synchronization: only the tracker changes, back to
    /// the pristine state of its strategy.
    pub open spec fn cleared(self) -> VolumeModel {
        VolumeModel { tracker: self.tracker.spec_clear(), ..self }
    }

    /// The capacity after growing to hold a new logical size: capacity never
    /// shrinks, and never drops below the subdivided logical size.
    pub open spec fn grown_cap_x(self, new_size_x: u16) -> u32 {
        if 2 * (new_size_x as int) > self.cap_x as int {
            (2 * (new_size_x as int)) as u32
        } else {
            self.cap_x
        }
    }

    pub open spec fn grown_cap_y(self, new_size_y: u16) -> u32 {
        if 2 * (new_size_y as int) > self.cap_y as int {
            (2 * (new_size_y as int)) as u32
        } else {
            self.cap_y
        }
    }

    /// The cell at flat offset `k` of the regrown grid of row stride `ncx`:
    /// the old cell at the same 2-D coordinates where those existed, vacuum
    /// in the newly allocated remainder.
    pub open spec fn resized_cell(self, ncx: u32, k: int) -> Option<Material> {
        if k % (ncx as int) < self.cap_x as int && k / (ncx as int) < self.cap_y as int {
            self.cells[(k / (ncx as int)) * (self.cap_x as int) + k % (ncx as int)]
        } else {
            None
        }
    }

    /// The state after a resize: the capacity grown as needed, every cell
    /// re-addressed under the new row stride with its content kept, the new
    /// remainder vacuum, and the tracker strategy re-evaluated for the new
    /// cell count (which discards dirty state exactly when the strategy
    /// changes).
    pub open spec fn resized(self, new_size_x: u16, new_size_y: u16) -> VolumeModel {
        let ncx = self.grown_cap_x(new_size_x);
        let ncy = self.grown_cap_y(new_size_y);
        let n = (ncx as int) * (ncy as int);
        let cells = Seq::new(n as nat, |k: int| self.resized_cell(ncx, k));
        VolumeModel {
            size_x: new_size_x,
            size_y: new_size_y,
            cap_x: ncx,
            cap_y: ncy,
            cells,
            image: image_of(cells),
            tracker: self.tracker.spec_update_from_elements(n as nat),
        }
    }
}

/// The freshly constructed state: all cells vacuum, the image fully
/// transparent, the tracker strategy picked from the cell count.
pub open spec fn empty_model(size_x: u16, size_y: u16) -> VolumeModel {
    let cx = 2 * (size_x as int);
    let cy = 2 * (size_y as int);
    let n = cx * cy;
    VolumeModel {
        size_x,
        size_y,
        cap_x: cx as u32,
        cap_y: cy as u32,
        cells: Seq::new(n as nat, |k: int| None::<Material>),
        image: Seq::new((4 * n) as nat, |b: int| 0u8),
        tracker: DirtyModel::fresh(DirtyModel::strategy_for(n as nat)),
    }
}

/// Bytes of row `y` of the image restricted to columns `x0 .. x0 + w`.
pub open spec fn row_bytes(img: Seq<u8>, cap_x: int, y: int, x0: int, w: int) -> Seq<u8> {
    img.subrange(4 * (y * cap_x + x0), 4 * (y * cap_x + x0) + 4 * w)
}

/// Bytes of the `h` rows starting at `y0`, each restricted to columns
/// `x0 .. x0 + w`, concatenated top row last.
pub open spec fn rows_bytes(img: Seq<u8>, cap_x: int, x0: int, y0: int, w: int, h: int) -> Seq<u8>
    decreases h,
{
    if h <= 0 {
        Seq::empty()
    } else {
        rows_bytes(img, cap_x, x0, y0, w, h - 1) + row_bytes(img, cap_x, y0 + h - 1, x0, w)
    }
}

/// The sub-rectangle of the image covered by a dirty box, both corners
/// inclusive.
pub open spec fn rect_bytes(img: Seq<u8>, cap_x: int, rect: DirtyRect) -> Seq<u8> {
    rows_bytes(
        img,
        cap_x,
        rect.lower.x as int,
        rect.lower.y as int,
        rect.upper.x as int - rect.lower.x as int + 1,
        rect.upper.y as int - rect.lower.y as int + 1,
    )
}

/// The byte count of a row stack: four bytes per cell, `w` cells per row.
/// Every covered row must lie inside the image for the row slices to be
/// well defined.
pub proof fn lemma_rows_bytes_len(img: Seq<u8>, cap_x: int, x0: int, y0: int, w: int, h: int)
    requires
        0 <= w,
        0 <= h,
        forall|y: int|
            y0 <= y < y0 + h ==> 0 <= 4 * (#[trigger] (y * cap_x) + x0) && 4 * (y * cap_x + x0) + 4
                * w <= img.len(),
    ensures
        rows_bytes(img, cap_x, x0, y0, w, h).len() == 4 * w * h,
    decreases h,
{
    if h > 0 {
        lemma_rows_bytes_len(img, cap_x, x0, y0, w, h - 1);
        let yy = y0 + h - 1;
        assert(0 <= 4 * (yy * cap_x + x0) && 4 * (yy * cap_x + x0) + 4 * w <= img.len());
        assert(row_bytes(img, cap_x, yy, x0, w).len() == 4 * w);
        assert(4 * w * (h - 1) + 4 * w == 4 * w * h) by (nonlinear_arith);
    } else {
        assert(4 * w * 0 == 0) by (nonlinear_arith);
    }
}

/// Byte `j` of relative row `dy` of a row stack is the corresponding image
/// byte of absolute row `y0 + dy`.
pub proof fn lemma_rows_bytes_index(
    img: Seq<u8>,
    cap_x: int,
    x0: int,
    y0: int,
    w: int,
    h: int,
    dy: int,
    j: int,
)
    requires
        0 <= w,
        0 <= dy < h,
        0 <= j < 4 * w,
        forall|y: int|
            y0 <= y < y0 + h ==> 0 <= 4 * (#[trigger] (y * cap_x) + x0) && 4 * (y * cap_x + x0) + 4
                * w <= img.len(),
    ensures
        rows_bytes(img, cap_x, x0, y0, w, h)[4 * w * dy + j] == img[4 * ((y0 + dy) * cap_x + x0)
            + j],
    decreases h,
{
    lemma_rows_bytes_len(img, cap_x, x0, y0, w, h - 1);
    let a = rows_bytes(img, cap_x, x0, y0, w, h - 1);
    let yy = y0 + h - 1;
    let b = row_bytes(img, cap_x, yy, x0, w);
    assert(rows_bytes(img, cap_x, x0, y0, w, h) == a + b);
    assert(0 <= 4 * (yy * cap_x + x0) && 4 * (yy * cap_x + x0) + 4 * w <= img.len());
    if dy == h - 1 {
        assert(4 * w * dy == 4 * w * (h - 1)) by (nonlinear_arith)
            requires
                dy == h - 1,
        ;
        assert((a + b)[a.len() + j] == b[j]);
        assert(b[j] == img[4 * (yy * cap_x + x0) + j]);
    } else {
        lemma_rows_bytes_index(img, cap_x, x0, y0, w, h - 1, dy, j);
        assert(4 * w * dy + j < 4 * w * (h - 1)) by (nonlinear_arith)
            requires
                0 <= j < 4 * w,
                0 <= dy,
                dy <= h - 2,
                0 <= w,
        ;
    }
}

/// Law (extract correspondence): inside a box that lies within the grid,
/// channel `ch` of the extracted sub-rectangle at relative cell `(dx, dy)`
/// is exactly that channel of the color of the grid cell the box covers
/// there — the synchronization extract mirrors the cells, not merely their
/// image bytes.
pub proof fn lemma_rect_bytes_match_cells(
    m: VolumeModel,
    rect: DirtyRect,
    dx: int,
    dy: int,
    ch: int,
)
    requires
        m.wf(),
        0 <= rect.lower.x as int <= rect.upper.x as int,
        (rect.upper.x as int) < m.cap_x as int,
        0 <= rect.lower.y as int <= rect.upper.y as int,
        (rect.upper.y as int) < m.cap_y as int,
        0 <= dx <= rect.upper.x as int - rect.lower.x as int,
        0 <= dy <= rect.upper.y as int - rect.lower.y as int,
        0 <= ch < 4,
    ensures
        rect_bytes(m.image, m.cap_x as int, rect)[4 * (dy * (rect.upper.x as int
            - rect.lower.x as int + 1) + dx) + ch] == channel(
            color_of_cell(
                m.get(
                    CellIndex {
                        x: (rect.lower.x as int + dx) as i64,
                        y: (rect.lower.y as int + dy) as i64,
                    },
                ),
            ),
            ch,
        ),
{
    let capx = m.cap_x as int;
    let capy = m.cap_y as int;
    let x0 = rect.lower.x as int;
    let y0 = rect.lower.y as int;
    let w = rect.upper.x as int - x0 + 1;
    let h = rect.upper.y as int - y0 + 1;
    assert forall|yrow: int| y0 <= yrow < y0 + h implies 0 <= 4 * (#[trigger] (yrow * capx) + x0)
        && 4 * (yrow * capx + x0) + 4 * w <= m.image.len() by {
        assert(yrow * capx <= (capy - 1) * capx && 0 <= yrow * capx) by (nonlinear_arith)
            requires
                0 <= yrow,
                yrow <= capy - 1,
                0 <= capx,
        ;
        assert((capy - 1) * capx + capx == capx * capy) by (nonlinear_arith);
    }
    let j = 4 * dx + ch;
    lemma_rows_bytes_index(m.image, capx, x0, y0, w, h, dy, j);
    assert(4 * (dy * w + dx) + ch == 4 * w * dy + (4 * dx + ch)) by (nonlinear_arith);
    let x = x0 + dx;
    let y = y0 + dy;
    let k = y * capx + x;
    let i = CellIndex { x: x as i64, y: y as i64 };
    assert(y * capx <= (capy - 1) * capx && 0 <= y * capx) by (nonlinear_arith)
        requires
            0 <= y,
            y <= capy - 1,
            0 <= capx,
    ;
    assert((capy - 1) * capx + capx == capx * capy) by (nonlinear_arith);
    assert(0 <= k < m.cells.len());
    assert(pixel_ok(m.image, k, m.cells[k]));
    assert(m.in_bounds(i));
    assert(m.idx1(i) == k);
}

/// What a synchronization asks the external presentation buffer to do:
/// nothing, replace the whole buffer, or replace one sub-rectangle. The
/// origin and extent are in cells of the double-resolution grid; the pixels
/// are row-major RGBA bytes.
pub enum SyncRequest {
    Nothing,
    Everything { width: u32, height: u32, pixels: Vec<u8> },
    Region { x: u32, y: u32, width: u32, height: u32, pixels: Vec<u8> },
}

/// The grid itself. See the module documentation; all contracts are stated
/// over the view `self@` of type [`VolumeModel`].
pub struct MaterialVolume {
    size_x: u16,
    size_y: u16,
    cap_x: u32,
    cap_y: u32,
    cells: Vec<Option<Material>>,
    image: Vec<u8>,
    tracker: UpdateHandler,
}

impl View for MaterialVolume {
    type V = VolumeModel;

    closed spec fn view(&self) -> VolumeModel {
        VolumeModel {
            size_x: self.size_x,
            size_y: self.size_y,
            cap_x: self.cap_x,
            cap_y: self.cap_y,
            cells: self.cells@,
            image: self.image@,
            tracker: self.tracker@,
        }
    }
}

/// Law: the row-major flattening is injective on in-bounds indices, so a
/// write to one cell can never alias another.
pub proof fn lemma_idx1_injective(m: VolumeModel, i: CellIndex, j: CellIndex)
    requires
        m.in_bounds(i),
        m.in_bounds(j),
        m.idx1(i) == m.idx1(j),
    ensures
        i == j,
{
    lemma_fundamental_div_mod_converse(m.idx1(i), m.cap_x as int, i.y as int, i.x as int);
    lemma_fundamental_div_mod_converse(m.idx1(j), m.cap_x as int, j.y as int, j.x as int);
}

/// The flattened offset of an in-bounds index lies inside the cell array.
pub proof fn lemma_idx1_in_range(m: VolumeModel, i: CellIndex)
    requires
        m.wf(),
        m.in_bounds(i),
    ensures
        0 <= m.idx1(i) < m.cells.len(),
{
    assert((i.y as int) * (m.cap_x as int) <= (m.cap_y as int - 1) * (m.cap_x as int)
        && (m.cap_y as int - 1) * (m.cap_x as int) + (m.cap_x as int) == m.cell_count())
        by (nonlinear_arith)
        requires
            i.y as int <= m.cap_y as int - 1,
            0 <= m.cap_x as int,
    ;
}

/// Law (round trip): writing a value at an in-bounds index and reading the
/// same index yields exactly that value back.
pub proof fn lemma_set_get_round_trip(m: VolumeModel, i: CellIndex, v: Option<Material>)
    requires
        m.wf(),
        m.in_bounds(i),
    ensures
        m.set(i, v).get(i) == v,
{
    lemma_idx1_in_range(m, i);
}

/// Law (frame): a write at one in-bounds index leaves every other index, in
/// bounds or not, reading what it read before.
pub proof fn lemma_set_frame(m: VolumeModel, i: CellIndex, j: CellIndex, v: Option<Material>)
    requires
        m.wf(),
        m.in_bounds(i),
        j != i,
    ensures
        m.set(i, v).get(j) == m.get(j),
{
    lemma_idx1_in_range(m, i);
    if m.in_bounds(j) {
        lemma_idx1_in_range(m, j);
        if m.idx1(i) == m.idx1(j) {
            lemma_idx1_injective(m, i, j);
        }
    }
}

/// A successful write preserves well-formedness.
pub proof fn lemma_set_wf(m: VolumeModel, i: CellIndex, v: Option<Material>)
    requires
        m.wf(),
        m.in_bounds(i),
    ensures
        m.set(i, v).wf(),
{
    lemma_idx1_in_range(m, i);
    let m2 = m.set(i, v);
    let k0 = m.idx1(i);
    assert forall|k: int| 0 <= k < m2.cells.len() implies #[trigger] pixel_ok(
        m2.image,
        k,
        m2.cells[k],
    ) by {
        assert(pixel_ok(m.image, k, m.cells[k]));
        if k != k0 {
            assert(4 * k + 3 < 4 * k0 || 4 * k0 + 3 < 4 * k);
        }
    }
    lemma_register_keeps_cap(m.tracker, i, m.cap_x as int, m.cap_y as int);
}

/// Clearing the tracker preserves well-formedness.
pub proof fn lemma_cleared_wf(m: VolumeModel)
    requires
        m.wf(),
    ensures
        m.cleared().wf(),
{
}

/// Law (Full strategy): on a volume whose tracker uses the `Full` strategy,
/// any single write makes the next synchronization push everything, and the
/// synchronization after it, with no write in between, push nothing.
pub proof fn lemma_full_strategy_syncs_once(m: VolumeModel, i: CellIndex, v: Option<Material>)
    requires
        m.wf(),
        m.in_bounds(i),
        m.tracker is FullModel,
    ensures
        m.set(i, v).tracker.causes_push(),
        m.set(i, v).tracker is FullModel,
        !m.set(i, v).cleared().tracker.causes_push(),
{
}

/// Law: a freshly built grid of at most 128 cells tracks with the `Full`
/// strategy; a larger one tracks a bounding box.
pub proof fn lemma_strategy_choice(size_x: u16, size_y: u16)
    ensures
        4 * (size_x as int) * (size_y as int) <= 128 ==> empty_model(size_x, size_y).tracker
            is FullModel,
        4 * (size_x as int) * (size_y as int) > 128 ==> empty_model(size_x, size_y).tracker
            is SquareModel,
{
    assert(2 * (size_x as int) * (2 * (size_y as int)) == 4 * (size_x as int) * (size_y as int))
        by (nonlinear_arith);
}

/// Law (stable addressing): growing a volume keeps the content of every cell
/// that was in bounds before — capacity headroom never shifts existing data.
pub proof fn lemma_resize_preserves_cells(m: VolumeModel, sx: u16, sy: u16, i: CellIndex)
    requires
        m.wf(),
        m.in_bounds(i),
    ensures
        m.resized(sx, sy).get(i) == m.get(i),
{
    let ncx = m.grown_cap_x(sx);
    let ncy = m.grown_cap_y(sy);
    let m2 = m.resized(sx, sy);
    assert((i.y as int) * (ncx as int) + (i.x as int) < (ncy as int) * (ncx as int) && 0 <= (
    i.y as int) * (ncx as int) + (i.x as int)) by (nonlinear_arith)
        requires
            0 <= (i.x as int) < (ncx as int),
            0 <= (i.y as int) < (ncy as int),
    ;
    assert(m2.in_bounds(i));
    let k2 = m2.idx1(i);
    assert((ncx as int) * (ncy as int) == (ncy as int) * (ncx as int)) by (nonlinear_arith);
    assert(m2.cells.len() == (ncx as int) * (ncy as int));
    lemma_fundamental_div_mod_converse(k2, ncx as int, i.y as int, i.x as int);
    assert(m2.cells[k2] == m.resized_cell(ncx, k2));
    assert(m2.get(i) == m.cells[(i.y as int) * (m.cap_x as int) + (i.x as int)]);
    lemma_idx1_in_range(m, i);
    assert(m.get(i) == m.cells[(i.x as int) + (i.y as int) * (m.cap_x as int)]);
}

/// The cell that source pixel `k` of a pre-existing image gives rise to:
/// the template recolored with the pixel where it is not fully transparent,
/// vacuum where it is.
pub open spec fn source_cell(bytes: Seq<u8>, template: Material, k: int) -> Option<Material> {
    if bytes[4 * k + 3] != 0 {
        Some(
            template.spec_with_base_color(
                Rgba {
                    r: bytes[4 * k],
                    g: bytes[4 * k + 1],
                    b: bytes[4 * k + 2],
                    a: bytes[4 * k + 3],
                },
            ),
        )
    } else {
        None
    }
}

/// The initial state built from a pre-existing RGBA image and a template
/// material: wherever the source pixel is not fully transparent, the cell
/// holds the template recolored with that pixel; elsewhere vacuum.
pub open spec fn from_image_model(
    width: u32,
    height: u32,
    bytes: Seq<u8>,
    template: Material,
) -> VolumeModel {
    let n = (width as int) * (height as int);
    let cells = Seq::new(n as nat, |k: int| source_cell(bytes, template, k));
    VolumeModel {
        size_x: (width / 2) as u16,
        size_y: (height / 2) as u16,
        cap_x: width,
        cap_y: height,
        cells,
        image: image_of(cells),
        tracker: DirtyModel::fresh(DirtyModel::strategy_for(n as nat)),
    }
}

impl MaterialVolume {
    /// Allocates an empty volume: a `size_x` by `size_y` logical grid, held
    /// at double resolution with every cell vacuum, the backing image fully
    /// transparent, and the tracker strategy picked from the cell count.
    #[verifier::loop_isolation(false)]
    pub fn new(size_x: u16, size_y: u16) -> (v: MaterialVolume)
        requires
            size_x <= MAX_SIZE,
            size_y <= MAX_SIZE,
        ensures
            v@ == empty_model(size_x, size_y),
            v@.wf(),
    {
        let cap_x: u32 = 2 * (size_x as u32);
        let cap_y: u32 = 2 * (size_y as u32);
        proof {
            assert((cap_x as int) * (cap_y as int) <= 16384 * 16384) by (nonlinear_arith)
                requires
                    0 <= (cap_x as int) <= 16384,
                    0 <= (cap_y as int) <= 16384,
            ;
        }
        let n: usize = (cap_x as usize) * (cap_y as usize);
        let mut cells: Vec<Option<Material>> = Vec::new();
        let mut i: usize = 0;
        while i < n
            invariant
                i <= n,
                cells@.len() == i,
                forall|j: int| 0 <= j < i ==> cells@[j] is None,
            decreases n - i,
        {
            cells.push(None);
            i += 1;
        }
        let four_n: usize = 4 * n;
        let mut image: Vec<u8> = Vec::new();
        let mut b: usize = 0;
        while b < four_n
            invariant
                b <= four_n,
                image@.len() == b,
                forall|j: int| 0 <= j < b ==> image@[j] == 0u8,
            decreases four_n - b,
        {
            image.push(0);
            b += 1;
        }
        let tracker = UpdateHandler::from_elements(n);
        let v = MaterialVolume { size_x, size_y, cap_x, cap_y, cells, image, tracker };
        proof {
            let e = empty_model(size_x, size_y);
            assert(v@.cells =~= e.cells);
            assert(v@.image =~= e.image);
            assert(v@ =~= e);
            assert forall|k: int| 0 <= k < e.cells.len() implies #[trigger] pixel_ok(
                e.image,
                k,
                e.cells[k],
            ) by {
                assert(e.image[4 * k] == 0u8);
            }
        }
        v
    }

    /// Builds a volume from a pre-existing RGBA image, one source pixel per
    /// cell of the double-resolution grid, and a template material: every
    /// source pixel that is not fully transparent becomes the template
    /// recolored with that pixel, every fully transparent one vacuum. The
    /// image's dimensions become the capacity; the logical size is half of
    /// them, rounded down.
    #[verifier::loop_isolation(false)]
    pub fn from_image(width: u32, height: u32, bytes: &Vec<u8>, template: Material) -> (v:
        MaterialVolume)
        requires
            width as int <= 2 * (MAX_SIZE as int),
            height as int <= 2 * (MAX_SIZE as int),
            bytes@.len() == 4 * (width as int) * (height as int),
        ensures
            v@ == from_image_model(width, height, bytes@, template),
            v@.wf(),
    {
        proof {
            let a = width as int;
            let b = height as int;
            assert(a * b <= 16384 * 16384 && 4 * (a * b) == 4 * a * b && 0 <= a * b)
                by (nonlinear_arith)
                requires
                    0 <= a <= 16384,
                    0 <= b <= 16384,
            ;
        }
        let n: usize = (width as usize) * (height as usize);
        let mut cells: Vec<Option<Material>> = Vec::new();
        let mut image: Vec<u8> = Vec::new();
        let mut k: usize = 0;
        while k < n
            invariant
                k <= n,
                cells@.len() == k as int,
                image@.len() == 4 * cells@.len(),
                forall|q: int|
                    0 <= q < cells@.len() ==> cells@[q] == source_cell(bytes@, template, q),
                forall|q: int|
                    0 <= q < cells@.len() ==> #[trigger] pixel_ok(image@, q, cells@[q]),
            decreases n - k,
        {
            let b0 = bytes[4 * k];
            let b1 = bytes[4 * k + 1];
            let b2 = bytes[4 * k + 2];
            let b3 = bytes[4 * k + 3];
            let cell: Option<Material> = if b3 != 0 {
                Some(template.with_base_color(Rgba { r: b0, g: b1, b: b2, a: b3 }))
            } else {
                None
            };
            let c = match cell {
                Some(m) => m.base_color(),
                None => Rgba { r: 0, g: 0, b: 0, a: 0 },
            };
            let ghost cells0 = cells@;
            let ghost image0 = image@;
            cells.push(cell);
            image.push(c.r);
            image.push(c.g);
            image.push(c.b);
            image.push(c.a);
            proof {
                let j = cells@.len() - 1;
                assert(cells@[j] == source_cell(bytes@, template, j));
                assert forall|q: int| 0 <= q < cells@.len() implies #[trigger] pixel_ok(
                    image@,
                    q,
                    cells@[q],
                ) by {
                    if q < j {
                        assert(pixel_ok(image0, q, cells0[q]));
                        assert(image@[4 * q] == image0[4 * q]);
                        assert(image@[4 * q + 1] == image0[4 * q + 1]);
                        assert(image@[4 * q + 2] == image0[4 * q + 2]);
                        assert(image@[4 * q + 3] == image0[4 * q + 3]);
                        assert(cells@[q] == cells0[q]);
                    } else {
                        assert(image@[4 * j] == c.r);
                        assert(image@[4 * j + 1] == c.g);
                        assert(image@[4 * j + 2] == c.b);
                        assert(image@[4 * j + 3] == c.a);
                    }
                }
            }
            k += 1;
        }
        let tracker = UpdateHandler::from_elements(n);
        let v = MaterialVolume {
            size_x: (width / 2) as u16,
            size_y: (height / 2) as u16,
            cap_x: width,
            cap_y: height,
            cells,
            image,
            tracker,
        };
        proof {
            let e = from_image_model(width, height, bytes@, template);
            assert(v@.cells =~= e.cells);
            assert forall|b: int| 0 <= b < v@.image.len() implies v@.image[b] == e.image[b] by {
                let q = b / 4;
                let r = b % 4;
                assert(0 <= r < 4);
                assert(b == 4 * q + r);
                assert(pixel_ok(v@.image, q, v@.cells[q]));
            }
            assert(v@.image =~= e.image);
            assert(v@ =~= e);
        }
        v
    }

    /// The logical grid dimensions this volume was created with.
    pub fn size(&self) -> (s: (u16, u16))
        ensures
            s.0 == self@.size_x,
            s.1 == self@.size_y,
    {
        (self.size_x, self.size_y)
    }

    /// The allocated dimensions of the double-resolution cell grid.
    pub fn capacity(&self) -> (c: (u32, u32))
        ensures
            c.0 == self@.cap_x,
            c.1 == self@.cap_y,
    {
        (self.cap_x, self.cap_y)
    }

    /// Whether `i` lies inside the capacity rectangle.
    pub fn in_bounds(&self, i: CellIndex) -> (r: bool)
        ensures
            r == self@.in_bounds(i),
    {
        i.x >= 0 && i.y >= 0 && (i.x as u64) < (self.cap_x as u64) && (i.y as u64) < (
        self.cap_y as u64)
    }

    /// The deterministic row-major offset of an in-bounds index, computed
    /// over the capacity so that headroom never shifts addressing.
    pub fn index_1d(&self, i: CellIndex) -> (k: usize)
        requires
            self@.wf(),
            self@.in_bounds(i),
        ensures
            k == self@.idx1(i),
            k < self@.cells.len(),
    {
        proof {
            lemma_idx1_in_range(self@, i);
            assert((i.y as int) * (self@.cap_x as int) <= 16383 * 16384) by (nonlinear_arith)
                requires
                    0 <= (i.y as int) <= 16383,
                    0 <= (self@.cap_x as int) <= 16384,
            ;
        }
        (i.x as usize) + (i.y as usize) * (self.cap_x as usize)
    }

    /// Bounds-checked read: an out-of-bounds index yields vacuum, not an
    /// error, so neighbor probes at the world edge are harmless.
    pub fn get(&self, i: CellIndex) -> (r: Option<Material>)
        requires
            self@.wf(),
        ensures
            r == self@.get(i),
            !self@.in_bounds(i) ==> r is None,
    {
        if self.in_bounds(i) {
            let k = self.index_1d(i);
            self.cells[k]
        } else {
            None
        }
    }

    /// Bounds-checked write. In bounds: the cell is overwritten, its image
    /// bytes follow, the index is recorded with the tracker, and `Some(())`
    /// comes back. Out of bounds: nothing is mutated and `None` comes back.
    pub fn set(&mut self, i: CellIndex, v: Option<Material>) -> (r: Option<()>)
        requires
            old(self)@.wf(),
        ensures
            r is Some <==> old(self)@.in_bounds(i),
            old(self)@.in_bounds(i) ==> final(self)@ == old(self)@.set(i, v),
            !old(self)@.in_bounds(i) ==> final(self)@ == old(self)@,
            final(self)@.wf(),
            old(self)@.in_bounds(i) ==> final(self)@.get(i) == v,
            forall|j: CellIndex| j != i ==> final(self)@.get(j) == old(self)@.get(j),
    {
        if self.in_bounds(i) {
            let k = self.index_1d(i);
            proof {
                let cx = old(self)@.cap_x as int;
                let cy = old(self)@.cap_y as int;
                assert(cx * cy <= 16384 * 16384) by (nonlinear_arith)
                    requires
                        0 <= cx <= 16384,
                        0 <= cy <= 16384,
                ;
            }
            let c = match v {
                Some(m) => m.base_color(),
                None => Rgba { r: 0, g: 0, b: 0, a: 0 },
            };
            self.cells.set(k, v);
            self.image.set(4 * k, c.r);
            self.image.set(4 * k + 1, c.g);
            self.image.set(4 * k + 2, c.b);
            self.image.set(4 * k + 3, c.a);
            self.tracker.register(i);
            proof {
                assert(self@ =~= old(self)@.set(i, v));
                lemma_set_wf(old(self)@, i, v);
                lemma_set_get_round_trip(old(self)@, i, v);
                assert forall|j: CellIndex| j != i implies old(self)@.set(i, v).get(j) == old(
                    self,
                )@.get(j) by {
                    lemma_set_frame(old(self)@, i, j, v);
                }
            }
            Some(())
        } else {
            None
        }
    }

    /// Convenience read: maps a continuous position under the diamond
    /// subdivision, then reads that cell.
    pub fn get_pixel_at(&self, p: Position) -> (r: Option<Material>)
        requires
            self@.wf(),
            p.wf(),
        ensures
            r == self@.get(spec_map_position(p)),
    {
        let i = map_position(p);
        self.get(i)
    }

    /// Convenience write: maps a continuous position under the diamond
    /// subdivision, then writes that cell. `None` signals that the mapped
    /// index fell outside the grid; callers treat it as a no-op, not fatal.
    pub fn set_pixel_at(&mut self, p: Position, v: Option<Material>) -> (r: Option<()>)
        requires
            old(self)@.wf(),
            p.wf(),
        ensures
            r is Some <==> old(self)@.in_bounds(spec_map_position(p)),
            old(self)@.in_bounds(spec_map_position(p)) ==> final(self)@ == old(self)@.set(
                spec_map_position(p),
                v,
            ),
            !old(self)@.in_bounds(spec_map_position(p)) ==> final(self)@ == old(self)@,
            final(self)@.wf(),
    {
        let i = map_position(p);
        self.set(i, v)
    }

    /// Consults the tracker and builds the push this synchronization owes
    /// the presentation buffer: everything when the `Full` strategy is
    /// dirty, exactly the dirty sub-rectangle under the `Square` strategy,
    /// nothing otherwise (the `PointSet` strategy is inert). The tracker is
    /// cleared afterwards in every case; nothing else changes.
    #[verifier::loop_isolation(false)]
    pub fn synchronize(&mut self) -> (r: SyncRequest)
        requires
            old(self)@.wf(),
        ensures
            final(self)@ == old(self)@.cleared(),
            final(self)@.wf(),
            r is Nothing <==> !old(self)@.tracker.causes_push(),
            old(self)@.tracker matches DirtyModel::FullModel { dirty: true } ==> (
            r matches SyncRequest::Everything { width, height, pixels } && width == old(
                self,
            )@.cap_x && height == old(self)@.cap_y && pixels@ == old(self)@.image),
            old(self)@.tracker matches DirtyModel::SquareModel { region: Some(rect) } ==> (
            r matches SyncRequest::Region { x, y, width, height, pixels } && x as int
                == rect.lower.x as int && y as int == rect.lower.y as int && width as int
                == rect.upper.x - rect.lower.x + 1 && height as int == rect.upper.y - rect.lower.y
                + 1 && pixels@ == rect_bytes(
                old(self)@.image,
                old(self)@.cap_x as int,
                rect,
            )),
    {
        let r = match &self.tracker {
            UpdateHandler::Full { dirty } => {
                if *dirty {
                    let mut pixels: Vec<u8> = Vec::new();
                    copy_bytes(&self.image, 0, self.image.len(), &mut pixels);
                    proof {
                        assert(pixels@ =~= self.image@);
                    }
                    SyncRequest::Everything { width: self.cap_x, height: self.cap_y, pixels }
                } else {
                    SyncRequest::Nothing
                }
            },
            UpdateHandler::Square { region } => {
                match region {
                    Some(rect_ref) => {
                        let rect = *rect_ref;
                        let x0 = rect.lower.x as usize;
                        let y0 = rect.lower.y as usize;
                        let w = (rect.upper.x - rect.lower.x) as usize + 1;
                        let h = (rect.upper.y - rect.lower.y) as usize + 1;
                        let cap_x = self.cap_x as usize;
                        let mut pixels: Vec<u8> = Vec::new();
                        let mut j: usize = 0;
                        while j < h
                            invariant
                                j <= h,
                                pixels@ == rows_bytes(
                                    self.image@,
                                    cap_x as int,
                                    x0 as int,
                                    y0 as int,
                                    w as int,
                                    j as int,
                                ),
                            decreases h - j,
                        {
                            proof {
                                let cy = self@.cap_y as int;
                                let cx = cap_x as int;
                                let row = (y0 + j) as int;
                                assert(row * cx + cx <= cy * cx && 0 <= row * cx)
                                    by (nonlinear_arith)
                                    requires
                                        0 <= row,
                                        row + 1 <= cy,
                                        0 <= cx,
                                ;
                                assert(cy * cx == self@.cells.len() && cy * cx <= 16384
                                    * 16384) by (nonlinear_arith)
                                    requires
                                        self@.cells.len() == cx * cy,
                                        0 <= cx <= 16384,
                                        0 <= cy <= 16384,
                                ;
                            }
                            let start = 4 * ((y0 + j) * cap_x + x0);
                            copy_bytes(&self.image, start, 4 * w, &mut pixels);
                            proof {
                                assert(pixels@ =~= rows_bytes(
                                    self.image@,
                                    cap_x as int,
                                    x0 as int,
                                    y0 as int,
                                    w as int,
                                    j as int + 1,
                                ));
                            }
                            j += 1;
                        }
                        SyncRequest::Region {
                            x: rect.lower.x as u32,
                            y: rect.lower.y as u32,
                            width: w as u32,
                            height: h as u32,
                            pixels,
                        }
                    },
                    None => SyncRequest::Nothing,
                }
            },
            UpdateHandler::PointSet { .. } => SyncRequest::Nothing,
        };
        self.tracker.clear();
        proof {
            assert(self@ =~= old(self)@.cleared());
            lemma_cleared_wf(old(self)@);
        }
        r
    }

    /// Replaces the tracker by a pristine one of an explicitly chosen
    /// strategy, discarding any accumulated dirty state by design.
    pub fn set_strategy(&mut self, kind: StrategyKind)
        requires
            old(self)@.wf(),
        ensures
            final(self)@ == (VolumeModel { tracker: DirtyModel::fresh(kind), ..old(self)@ }),
            final(self)@.wf(),
            !final(self)@.tracker.causes_push(),
    {
        self.tracker = UpdateHandler::fresh_of(kind);
        proof {
            assert(self@ =~= (VolumeModel { tracker: DirtyModel::fresh(kind), ..old(self)@ }));
        }
    }

    /// Grows the volume to a new logical size. Capacity never shrinks; every
    /// cell that was in bounds keeps its content under the new addressing,
    /// newly allocated cells are vacuum, and the tracker strategy is
    /// re-evaluated for the new cell count — crossing the threshold replaces
    /// the tracker and discards unflushed dirty state by design, so callers
    /// that must not drop updates synchronize first.
    #[verifier::loop_isolation(false)]
    pub fn resize(&mut self, new_size_x: u16, new_size_y: u16)
        requires
            old(self)@.wf(),
            new_size_x <= MAX_SIZE,
            new_size_y <= MAX_SIZE,
        ensures
            final(self)@ == old(self)@.resized(new_size_x, new_size_y),
            final(self)@.wf(),
    {
        let tsx: u32 = 2 * (new_size_x as u32);
        let tsy: u32 = 2 * (new_size_y as u32);
        let ncx: u32 = if tsx > self.cap_x {
            tsx
        } else {
            self.cap_x
        };
        let ncy: u32 = if tsy > self.cap_y {
            tsy
        } else {
            self.cap_y
        };
        proof {
            let a = ncx as int;
            let b = ncy as int;
            assert(a * b <= 16384 * 16384) by (nonlinear_arith)
                requires
                    0 <= a <= 16384,
                    0 <= b <= 16384,
            ;
        }
        let n: usize = (ncx as usize) * (ncy as usize);
        let mut cells: Vec<Option<Material>> = Vec::new();
        let mut image: Vec<u8> = Vec::new();
        let mut y: u32 = 0;
        while y < ncy
            invariant
                y <= ncy,
                cells@.len() == (y as int) * (ncx as int),
                image@.len() == 4 * cells@.len(),
                forall|k: int|
                    0 <= k < cells@.len() ==> cells@[k] == old(self)@.resized_cell(ncx, k),
                forall|k: int|
                    0 <= k < cells@.len() ==> #[trigger] pixel_ok(image@, k, cells@[k]),
            decreases ncy - y,
        {
            let mut x: u32 = 0;
            while x < ncx
                invariant
                    x <= ncx,
                    y < ncy,
                    cells@.len() == (y as int) * (ncx as int) + x as int,
                    image@.len() == 4 * cells@.len(),
                    forall|k: int|
                        0 <= k < cells@.len() ==> cells@[k] == old(self)@.resized_cell(ncx, k),
                    forall|k: int|
                        0 <= k < cells@.len() ==> #[trigger] pixel_ok(image@, k, cells@[k]),
                decreases ncx - x,
            {
                proof {
                    let a = y as int;
                    let b = ncx as int;
                    assert(a * b + b <= (ncy as int) * b && 0 <= a * b) by (nonlinear_arith)
                        requires
                            0 <= a,
                            a + 1 <= ncy as int,
                            0 <= b,
                    ;
                }
                let cell: Option<Material> = if x < self.cap_x && y < self.cap_y {
                    proof {
                        let a = y as int;
                        let cx = old(self)@.cap_x as int;
                        let cy = old(self)@.cap_y as int;
                        assert(a * cx + cx <= cy * cx && 0 <= a * cx) by (nonlinear_arith)
                            requires
                                0 <= a,
                                a + 1 <= cy,
                                0 <= cx,
                        ;
                        assert(cx * cy <= 16384 * 16384) by (nonlinear_arith)
                            requires
                                0 <= cx <= 16384,
                                0 <= cy <= 16384,
                        ;
                    }
                    let k_old = (x as usize) + (y as usize) * (self.cap_x as usize);
                    self.cells[k_old]
                } else {
                    None
                };
                let c = match cell {
                    Some(m) => m.base_color(),
                    None => Rgba { r: 0, g: 0, b: 0, a: 0 },
                };
                let ghost cells0 = cells@;
                let ghost image0 = image@;
                cells.push(cell);
                image.push(c.r);
                image.push(c.g);
                image.push(c.b);
                image.push(c.a);
                proof {
                    let k = cells@.len() - 1;
                    lemma_fundamental_div_mod_converse(k, ncx as int, y as int, x as int);
                    assert(cells@[k] == old(self)@.resized_cell(ncx, k));
                    assert forall|q: int| 0 <= q < cells@.len() implies #[trigger] pixel_ok(
                        image@,
                        q,
                        cells@[q],
                    ) by {
                        if q < k {
                            assert(pixel_ok(image0, q, cells0[q]));
                            assert(image@[4 * q] == image0[4 * q]);
                            assert(image@[4 * q + 1] == image0[4 * q + 1]);
                            assert(image@[4 * q + 2] == image0[4 * q + 2]);
                            assert(image@[4 * q + 3] == image0[4 * q + 3]);
                            assert(cells@[q] == cells0[q]);
                        } else {
                            assert(image@[4 * k] == c.r);
                            assert(image@[4 * k + 1] == c.g);
                            assert(image@[4 * k + 2] == c.b);
                            assert(image@[4 * k + 3] == c.a);
                        }
                    }
                }
                x += 1;
            }
            proof {
                assert(((y as int) + 1) * (ncx as int) == (y as int) * (ncx as int) + (
                ncx as int)) by (nonlinear_arith);
            }
            y += 1;
        }
        self.size_x = new_size_x;
        self.size_y = new_size_y;
        self.cap_x = ncx;
        self.cap_y = ncy;
        self.cells = cells;
        self.image = image;
        self.tracker.update_from_elements(n);
        proof {
            let m2 = old(self)@.resized(new_size_x, new_size_y);
            assert((ncy as int) * (ncx as int) == (ncx as int) * (ncy as int))
                by (nonlinear_arith);
            assert(self@.cells =~= m2.cells);
            assert forall|b: int| 0 <= b < self@.image.len() implies self@.image[b]
                == m2.image[b] by {
                let k = b / 4;
                let r = b % 4;
                assert(0 <= r < 4);
                assert(b == 4 * k + r);
                assert(pixel_ok(self@.image, k, self@.cells[k]));
            }
            assert(self@.image =~= m2.image);
            assert(self@ =~= m2);
            assert(self@.tracker.in_cap(ncx as int, ncy as int));
        }
    }
}

/// Appends `count` bytes of `src` starting at `start` to `out`.
#[verifier::loop_isolation(false)]
fn copy_bytes(src: &Vec<u8>, start: usize, count: usize, out: &mut Vec<u8>)
    requires
        start + count <= src@.len(),
    ensures
        final(out)@ == old(out)@ + src@.subrange(start as int, start as int + count as int),
{
    let _total = src.len();
    proof {
        assert(out@ =~= old(out)@ + src@.subrange(start as int, start as int));
    }
    let mut i: usize = 0;
    while i < count
        invariant
            i <= count,
            out@ == old(out)@ + src@.subrange(start as int, start as int + i as int),
        decreases count - i,
    {
        let byte = src[start + i];
        out.push(byte);
        proof {
            assert(out@ =~= old(out)@ + src@.subrange(start as int, start as int + i as int + 1));
        }
        i += 1;
    }
}

} // verus!
