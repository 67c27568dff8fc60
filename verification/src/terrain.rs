//! The terrain grid of the client.
//!
//! The world is a grid of cells split in square chunks of
//! `TERRAIN_CHUNK_STRIDE` x `TERRAIN_CHUNK_STRIDE` cells. Chunks are numbered
//! row by row. The cells of all chunks are kept in one sequence: chunk after
//! chunk, each chunk row by row.

use vstd::prelude::*;
use crate::store::{encode_slice, SaveFileReader, SaveFileWriter};

verus! {

/// Number of cells on each side of a terrain chunk.
pub const TERRAIN_CHUNK_STRIDE: usize = 16;

/// Number of cells in a terrain chunk.
pub const TERRAIN_CHUNK_SIZE: usize = 256;

/// Flag: the view over the terrain changed since the last sync.
pub const UPDATE_VIEW: u8 = 0b0001;

/// Flag: the size of the terrain changed since the last sync.
pub const UPDATE_SIZE: u8 = 0b0010;

/// The kind of ground of a cell.
#[derive(Copy, Clone, PartialEq, Eq, Structural, Debug)]
pub enum TerrainType {
    Grass,
    Sand,
}

/// A chunk of terrain as sent to the engine: its position in the chunk grid
/// and its cells, row by row.
pub struct WorldTerrainChunk {
    pub x: u32,
    pub y: u32,
    pub cells: Vec<TerrainType>,
}

/// What a terrain sync has to send to the engine.
pub struct TerrainSync {
    /// The new world size, if it changed.
    pub size: Option<(u32, u32)>,
    /// The new view, as the bits of its left, top, right and bottom sides,
    /// if it changed.
    pub view: Option<[u32; 4]>,
    /// The chunks that changed, in the order they were changed.
    pub batches: Vec<usize>,
}

/// Number of chunks needed to cover `n` cells.
pub open spec fn chunks_for(n: int) -> int {
    (n + 15) / 16
}

/// Number of chunks of a world of `w` x `h` cells.
pub open spec fn chunk_count(w: int, h: int) -> int {
    chunks_for(w) * chunks_for(h)
}

/// Position of cell (`cx`, `cy`) in the cell sequence of a world `w` cells wide.
/// The chunks are numbered row by row, `chunks_for(w)` to a chunk row, as
/// `set_world_size` lays them out.
pub open spec fn cell_position(w: int, cx: int, cy: int) -> int {
    ((cy / 16) * chunks_for(w) + cx / 16) * 256 + (cy % 16) * 16 + cx % 16
}

/// The word a cell is saved as.
pub open spec fn cell_word(c: TerrainType) -> u32 {
    match c {
        TerrainType::Grass => 0,
        TerrainType::Sand => 1,
    }
}

/// The cell a saved word reads as.
pub open spec fn word_cell(w: u32) -> TerrainType {
    if w == 1 {
        TerrainType::Sand
    } else {
        TerrainType::Grass
    }
}

/// The update flags a saved word reads as: its low byte, unless it holds a
/// flag that does not exist, in which case no flag.
pub open spec fn flags_of_word(w: u32) -> u8 {
    let b = (w % 256) as u8;
    if b < 4 {
        b
    } else {
        0
    }
}

/// The words a terrain is saved as: the four words of its view, its width,
/// its height, its update flags, then its chunks as a slice of 256 cell
/// words each.
pub open spec fn terrain_words(view: Seq<u32>, width: u32, height: u32, flags: u8, cells: Seq<TerrainType>) -> Seq<u32> {
    view + seq![width, height, flags as u32] + encode_slice(cells.map_values(|c: TerrainType| cell_word(c)), 256)
}

/// The terrain saved at `off`, as (view, width, height, flags, cells): none
/// when the words there do not hold a terrain, whose chunks must all lie in
/// the words, hold cell words only, and be as many as the size asks.
pub open spec fn terrain_at(words: Seq<u32>, off: int) -> Option<(Seq<u32>, u32, u32, u8, Seq<TerrainType>)> {
    if off < 0 || off + 8 > words.len() {
        None
    } else {
        let w = words[off + 4];
        let h = words[off + 5];
        let n = words[off + 7] as int;
        if off + 8 + n * 256 > words.len() {
            None
        } else {
            let cw = words.subrange(off + 8, off + 8 + n * 256);
            if w + 15 > usize::MAX || h + 15 > usize::MAX || chunk_count(w as int, h as int) != n || (exists|i: int|
                0 <= i < cw.len() && #[trigger] cw[i] > 1) {
                None
            } else {
                Some((
                    words.subrange(off, off + 4),
                    w,
                    h,
                    flags_of_word(words[off + 6]),
                    cw.map_values(|x: u32| word_cell(x)),
                ))
            }
        }
    }
}

/// The terrain of the client.
pub struct Terrain {
    cells: Vec<TerrainType>,
    view: [u32; 4],
    batches_updates: Vec<usize>,
    width: u32,
    height: u32,
    flags: u8,
}

impl Terrain {
    /// All cells, chunk after chunk.
    pub closed spec fn cells(&self) -> Seq<TerrainType> {
        self.cells@
    }

    /// The chunks changed since the last sync.
    pub closed spec fn updates(&self) -> Seq<usize> {
        self.batches_updates@
    }

    /// The view over the terrain: the bits of its left, top, right and
    /// bottom sides.
    pub closed spec fn view_rect(&self) -> Seq<u32> {
        self.view@
    }

    /// Width of the world in cells.
    pub closed spec fn width(&self) -> int {
        self.width as int
    }

    /// Height of the world in cells.
    pub closed spec fn height(&self) -> int {
        self.height as int
    }

    /// Pending update flags.
    pub closed spec fn flags(&self) -> u8 {
        self.flags
    }

    /// Number of chunks.
    pub open spec fn batch_count(&self) -> int {
        chunk_count(self.width(), self.height())
    }

    /// The cell sequence covers every chunk; chunk numbers fit in 32 bits;
    /// pending updates name chunks that exist.
    pub open spec fn wf(&self) -> bool {
        &&& self.cells().len() == self.batch_count() * 256
        &&& self.batch_count() <= u32::MAX
        &&& self.width() + 15 <= usize::MAX
        &&& self.height() + 15 <= usize::MAX
        &&& forall|i: int| 0 <= i < self.updates().len() ==> #[trigger] self.updates()[i] < self.batch_count()
        &&& self.flags() < 4
    }

    /// An empty terrain.
    pub fn init() -> (t: Self)
        ensures
            t.wf(),
            t.width() == 0,
            t.height() == 0,
            t.cells().len() == 0,
            t.updates().len() == 0,
            t.flags() == 0,
            t.view_rect() == seq![0u32, 0u32, 0u32, 0u32],
    {
        Terrain {
            cells: Vec::new(),
            view: [0, 0, 0, 0],
            batches_updates: Vec::new(),
            width: 0,
            height: 0,
            flags: 0,
        }
    }

    /// Resizes the world. Clears all the existing data: every cell is grass
    /// and every chunk is marked as changed, in order.
    pub fn set_world_size(&mut self, width: u32, height: u32)
        requires
            old(self).wf(),
            width + 15 <= usize::MAX,
            height + 15 <= usize::MAX,
            chunk_count(width as int, height as int) <= u32::MAX,
            chunk_count(width as int, height as int) * 256 <= usize::MAX,
        ensures
            final(self).wf(),
            final(self).width() == width,
            final(self).height() == height,
            final(self).cells() == Seq::new(
                (chunk_count(width as int, height as int) * 256) as nat,
                |i: int| TerrainType::Grass,
            ),
            final(self).updates() == Seq::new(
                chunk_count(width as int, height as int) as nat,
                |i: int| i as usize,
            ),
            final(self).flags() == old(self).flags() | UPDATE_SIZE,
            final(self).view_rect() == old(self).view_rect(),
    {
        self.width = width;
        self.height = height;
        let batch_x = ((width as usize) + (TERRAIN_CHUNK_STRIDE - 1)) / TERRAIN_CHUNK_STRIDE;
        let batch_y = ((height as usize) + (TERRAIN_CHUNK_STRIDE - 1)) / TERRAIN_CHUNK_STRIDE;
        let total = batch_x * batch_y;
        self.cells = Vec::new();
        self.batches_updates = Vec::new();
        let old_flags = self.flags;
        assert(old_flags < 4 ==> (old_flags | 2u8) < 4) by (bit_vector);
        self.flags = self.flags | UPDATE_SIZE;
        let mut i: usize = 0;
        while i < total
            invariant
                i <= total,
                total == chunk_count(width as int, height as int),
                total * 256 <= usize::MAX,
                self.cells@ == Seq::new((i * 256) as nat, |j: int| TerrainType::Grass),
                self.batches_updates@ == Seq::new(i as nat, |j: int| j as usize),
                self.width == width,
                self.height == height,
                self.flags == old(self).flags | UPDATE_SIZE,
                self.view == old(self).view,
            decreases total - i,
        {
            self.batches_updates.push(i);
            assert(self.batches_updates@ =~= Seq::new((i + 1) as nat, |j: int| j as usize));
            let mut j: usize = 0;
            while j < TERRAIN_CHUNK_SIZE
                invariant
                    j <= 256,
                    i < total,
                    total * 256 <= usize::MAX,
                    self.cells@ == Seq::new((i * 256 + j) as nat, |k: int| TerrainType::Grass),
                    self.batches_updates@ == Seq::new((i + 1) as nat, |j: int| j as usize),
                    self.width == width,
                    self.height == height,
                    self.flags == old(self).flags | UPDATE_SIZE,
                    self.view == old(self).view,
                decreases 256 - j,
            {
                self.cells.push(TerrainType::Grass);
                assert(self.cells@ =~= Seq::new((i * 256 + j + 1) as nat, |k: int| TerrainType::Grass));
                j += 1;
            }
            i += 1;
        }
    }

    /// Sets the view over the terrain, given as the bits of its left, top,
    /// right and bottom sides, and marks it as changed.
    pub fn set_view(&mut self, view: [u32; 4])
        requires
            old(self).wf(),
        ensures
            final(self).wf(),
            final(self).view_rect() == view@,
            final(self).cells() == old(self).cells(),
            final(self).updates() == old(self).updates(),
            final(self).width() == old(self).width(),
            final(self).height() == old(self).height(),
            final(self).flags() == old(self).flags() | UPDATE_VIEW,
    {
        self.view = view;
        let old_flags = self.flags;
        assert(old_flags < 4 ==> (old_flags | 1u8) < 4) by (bit_vector);
        assert(old_flags < 4);
        self.flags = self.flags | UPDATE_VIEW;
        assert(self.flags < 4);
        assert forall|i: int| 0 <= i < self.updates().len() implies #[trigger] self.updates()[i]
            < self.batch_count() by {
            assert(self.updates()[i] == old(self).updates()[i]);
        }
    }

    fn has_update(&self, batch_index: usize) -> (r: bool)
        ensures
            r == self.updates().contains(batch_index),
    {
        let mut i: usize = 0;
        while i < self.batches_updates.len()
            invariant
                i <= self.batches_updates@.len(),
                forall|j: int| 0 <= j < i ==> self.batches_updates@[j] != batch_index,
            decreases self.batches_updates@.len() - i,
        {
            if self.batches_updates[i] == batch_index {
                return true;
            }
            i += 1;
        }
        false
    }

    /// Copies `count` cells of `cells` starting at `start` into row
    /// `column_index` of chunk `batch_index`, starting at column `row_offset`.
    fn set_row_inner(
        &mut self,
        batch_index: usize,
        column_index: usize,
        row_offset: usize,
        cells: &[TerrainType],
        start: usize,
        count: usize,
    )
        requires
            (batch_index + 1) * 256 <= old(self).cells().len(),
            column_index < 16,
            row_offset + count <= 16,
            start + count <= cells@.len(),
        ensures
            final(self).cells().len() == old(self).cells().len(),
            forall|i: int|
                #![trigger final(self).cells()[i]]
                0 <= i < old(self).cells().len() ==> final(self).cells()[i] == {
                    let base = batch_index * 256 + column_index * 16 + row_offset;
                    if base <= i < base + count {
                        cells@[start + (i - base)]
                    } else {
                        old(self).cells()[i]
                    }
                },
            final(self).updates() == old(self).updates(),
            final(self).width() == old(self).width(),
            final(self).height() == old(self).height(),
            final(self).flags() == old(self).flags(),
            final(self).view_rect() == old(self).view_rect(),
    {
        let len = self.cells.len();
        let clen = cells.len();
        let base = batch_index * TERRAIN_CHUNK_SIZE + column_index * TERRAIN_CHUNK_STRIDE + row_offset;
        let ghost before = self.cells@;
        let mut j: usize = 0;
        while j < count
            invariant
                j <= count,
                base == batch_index * 256 + column_index * 16 + row_offset,
                base + count <= before.len(),
                start + count <= cells@.len(),
                len == before.len(),
                clen == cells@.len(),
                self.cells@.len() == before.len(),
                self.batches_updates == old(self).batches_updates,
                self.width == old(self).width,
                self.height == old(self).height,
                self.flags == old(self).flags,
                self.view == old(self).view,
                forall|i: int|
                    #![trigger self.cells@[i]]
                    0 <= i < before.len() ==> self.cells@[i] == if base <= i < base + j {
                        cells@[start + (i - base)]
                    } else {
                        before[i]
                    },
            decreases count - j,
        {
            self.cells.set(base + j, cells[start + j]);
            j += 1;
        }
    }

    /// Copies `cells`, row by row, into the rectangle of `width` x `height`
    /// cells whose top left cell is (`x`, `y`), and marks the chunks it
    /// touches as changed (each chunk once, in the order they are first
    /// touched, after the chunks already marked). Cell `r * width + c` of
    /// `cells` goes to row `r`, column `c` of the rectangle; every other cell
    /// keeps its value.
    pub fn set_cells(&mut self, x: u32, y: u32, width: u32, height: u32, cells: &[TerrainType])
        requires
            old(self).wf(),
            width * height <= u32::MAX,
            (width * height) as int == cells@.len(),
            width > 0 && height > 0,
            x + width <= old(self).width(),
            y + height <= old(self).height(),
        ensures
            final(self).wf(),
            final(self).width() == old(self).width(),
            final(self).height() == old(self).height(),
            final(self).flags() == old(self).flags(),
            final(self).view_rect() == old(self).view_rect(),
            final(self).cells().len() == old(self).cells().len(),
            forall|r: int, c: int|
                0 <= r < height && 0 <= c < width ==> #[trigger] final(self).cells()[cell_position(
                    old(self).width(),
                    x + c,
                    y + r,
                )] == cells@[r * width + c],
            forall|t: int|
                0 <= t < old(self).cells().len() && (forall|k: int|
                    #![trigger copy_target(old(self).width(), x as int, y as int, width as int, k)]
                    0 <= k < cells@.len() ==> copy_target(
                        old(self).width(),
                        x as int,
                        y as int,
                        width as int,
                        k,
                    ) != t) ==> #[trigger] final(self).cells()[t] == old(self).cells()[t],
            final(self).updates().len() >= old(self).updates().len(),
            final(self).updates().subrange(0, old(self).updates().len() as int) == old(self).updates(),
            forall|k: int|
                #![trigger copy_target(old(self).width(), x as int, y as int, width as int, k)]
                0 <= k < cells@.len() ==> final(self).updates().contains(
                    (copy_target(old(self).width(), x as int, y as int, width as int, k) / 256) as usize,
                ),
            forall|i: int|
                #![trigger final(self).updates()[i]]
                old(self).updates().len() <= i < final(self).updates().len() ==> {
                    &&& !old(self).updates().contains(final(self).updates()[i])
                    &&& exists|k: int|
                        #![trigger copy_target(old(self).width(), x as int, y as int, width as int, k)]
                        0 <= k < cells@.len() && final(self).updates()[i] as int == copy_target(
                            old(self).width(),
                            x as int,
                            y as int,
                            width as int,
                            k,
                        ) / 256
                },
            forall|i: int, j: int|
                old(self).updates().len() <= i < j < final(self).updates().len() ==> final(self).updates()[i]
                    != final(self).updates()[j],
    {
        let ghost w = self.width as int;
        let ghost h = self.height as int;
        let ghost old_cells = self.cells@;
        let ghost old_updates = self.batches_updates@;
        let ghost total = cells@.len() as int;
        let chunk_stride: u32 = 16;
        let stride = self.width / chunk_stride + if self.width % chunk_stride != 0 {
            1
        } else {
            0
        };
        let mut cell_index: usize = 0;
        let mut cell_y = y;
        proof {
            reveal(copied_prefix);
            reveal(marked_prefix);
            assert(old_updates.subrange(0, old_updates.len() as int) =~= old_updates);
            assert forall|k: int|
                0 <= k < total implies 0 <= #[trigger] copy_target(w, x as int, y as int, width as int, k)
                < old_cells.len() by {
                lemma_target_in_range(w, h, x as int, y as int, width as int, height as int, k);
            }
        }
        while cell_y < y + height
            invariant
                self.width == w,
                self.height == h,
                w == old(self).width(),
                h == old(self).height(),
                self.flags == old(self).flags(),
                self.view == old(self).view,
                old_cells == old(self).cells(),
                old_updates == old(self).updates(),
                old(self).wf(),
                chunk_stride == 16,
                stride == chunks_for(w),
                y <= cell_y <= y + height,
                cell_index == (cell_y - y) * width,
                width * height == total,
                total == cells@.len(),
                total <= u32::MAX,
                x + width <= w,
                y + height <= h,
                forall|k: int|
                    0 <= k < total ==> 0 <= #[trigger] copy_target(w, x as int, y as int, width as int, k)
                        < old_cells.len(),
                copied_prefix(self.cells@, old_cells, cells@, w, x as int, y as int, width as int, cell_index as int),
                marked_prefix(self.batches_updates@, old_updates, w, x as int, y as int, width as int, cell_index as int, total),
            decreases y + height - cell_y,
        {
            let batch_y = cell_y / chunk_stride;
            let local_y = cell_y - (batch_y * chunk_stride);

            let mut cell_x = x;
            let mut cells_to_copy = width;
            while cells_to_copy > 0
                invariant
                    self.width == w,
                    self.height == h,
                    w == old(self).width(),
                    h == old(self).height(),
                    self.flags == old(self).flags(),
                    self.view == old(self).view,
                    old_cells == old(self).cells(),
                    old_updates == old(self).updates(),
                    old(self).wf(),
                    chunk_stride == 16,
                    stride == chunks_for(w),
                    y <= cell_y < y + height,
                    batch_y == cell_y / 16,
                    local_y == cell_y % 16,
                    x <= cell_x <= x + width,
                    cells_to_copy == x + width - cell_x,
                    cell_index == (cell_y - y) * width + (cell_x - x),
                    width * height == total,
                    total == cells@.len(),
                    total <= u32::MAX,
                    x + width <= w,
                    y + height <= h,
                    forall|k: int|
                        0 <= k < total ==> 0 <= #[trigger] copy_target(w, x as int, y as int, width as int, k)
                            < old_cells.len(),
                    copied_prefix(self.cells@, old_cells, cells@, w, x as int, y as int, width as int, cell_index as int),
                    marked_prefix(self.batches_updates@, old_updates, w, x as int, y as int, width as int, cell_index as int, total),
                decreases cells_to_copy,
            {
                let batch_x = cell_x / chunk_stride;
                proof {
                    lemma_batch_index_bound(w, h, cell_x as int, cell_y as int);
                }
                let batch_index = ((batch_y * stride) + batch_x) as usize;
                let local_x = cell_x - (batch_x * chunk_stride);
                let room = chunk_stride - local_x;
                let cell_count: usize = if room < cells_to_copy {
                    room as usize
                } else {
                    cells_to_copy as usize
                };
                let ghost r0 = cell_y - y;
                let ghost c0 = cell_x - x;
                let ghost t0 = cell_position(w, cell_x as int, cell_y as int);
                proof {
                    lemma_segment(w, x as int, y as int, width as int, r0, c0, cell_count as int);
                    assert(cell_index as int + cell_count <= total) by (nonlinear_arith)
                        requires
                            cell_index == r0 * width + c0,
                            c0 + cell_count <= width,
                            r0 + 1 <= height,
                            width * height == total,
                            r0 >= 0,
                    ;
                    assert(batch_index * 256 + 256 <= self.cells@.len()) by {
                        reveal(copied_prefix);
                    }
                    assert(t0 == batch_index * 256 + local_y * 16 + local_x);
                }

                let ghost before_updates = self.batches_updates@;
                if !self.has_update(batch_index) {
                    self.batches_updates.push(batch_index);
                }
                proof {
                    lemma_mark_step(
                        before_updates,
                        self.batches_updates@,
                        old_updates,
                        w,
                        x as int,
                        y as int,
                        width as int,
                        cell_index as int,
                        cell_count as int,
                        total,
                        batch_index,
                    );
                }

                let ghost before_cells = self.cells@;
                self.set_row_inner(
                    batch_index,
                    local_y as usize,
                    local_x as usize,
                    cells,
                    cell_index,
                    cell_count,
                );
                proof {
                    reveal(copied_prefix);
                    lemma_copy_step(
                        before_cells,
                        self.cells@,
                        old_cells,
                        cells@,
                        w,
                        x as int,
                        y as int,
                        width as int,
                        cell_index as int,
                        cell_count as int,
                        t0,
                    );
                }

                cell_index += cell_count;
                cells_to_copy -= cell_count as u32;
                cell_x += cell_count as u32;
            }
            proof {
                assert(cell_index == (cell_y + 1 - y) * width) by (nonlinear_arith)
                    requires
                        cell_index == (cell_y - y) * width + width,
                ;
            }
            cell_y += 1;
        }
        proof {
            assert(cell_index == total) by (nonlinear_arith)
                requires
                    cell_index == height * width,
                    width * height == total,
            ;
            reveal(copied_prefix);
            reveal(marked_prefix);
            assert forall|r: int, c: int| 0 <= r < height && 0 <= c < width implies #[trigger] self.cells@[
                cell_position(w, x + c, y + r)] == cells@[r * width + c] by {
                lemma_set_cells_read_back(
                    old_cells,
                    self.cells@,
                    cells@,
                    w,
                    h,
                    x as int,
                    y as int,
                    width as int,
                    height as int,
                    r,
                    c,
                );
            }
            assert forall|i: int| 0 <= i < self.batches_updates@.len() implies #[trigger] self.batches_updates@[i]
                < self.batch_count() by {
                if i < old_updates.len() {
                    assert(self.batches_updates@.subrange(0, old_updates.len() as int)[i] == old_updates[i]);
                } else {
                    let k = choose|k: int|
                        #![trigger copy_target(w, x as int, y as int, width as int, k)]
                        0 <= k < total && self.batches_updates@[i] as int == copy_target(
                            w,
                            x as int,
                            y as int,
                            width as int,
                            k,
                        ) / 256;
                    lemma_target_in_range(w, h, x as int, y as int, width as int, height as int, k);
                }
            }
        }
    }

    /// The cell at (`x`, `y`).
    pub fn get_cell(&self, x: u32, y: u32) -> (cell: TerrainType)
        requires
            self.wf(),
            cell_position(self.width(), x as int, y as int) / 256 < self.batch_count(),
        ensures
            cell == self.cells()[cell_position(self.width(), x as int, y as int)],
    {
        let chunk_stride = TERRAIN_CHUNK_STRIDE as u32;
        let stride = self.width / chunk_stride + if self.width % chunk_stride != 0 {
            1
        } else {
            0
        };
        let batch_x = x / chunk_stride;
        let batch_y = y / chunk_stride;
        let ghost b = cell_position(self.width(), x as int, y as int) / 256;
        assert(b == (y / 16) * chunks_for(self.width as int) + x / 16);
        let len = self.cells.len();
        let batch_index = ((batch_y * stride) + batch_x) as usize;
        let local_x = x - (batch_x * chunk_stride);
        let local_y = y - (batch_y * chunk_stride);
        assert(batch_index * 256 + 256 <= len);
        self.cells[batch_index * TERRAIN_CHUNK_SIZE + (local_y as usize) * TERRAIN_CHUNK_STRIDE + (
        local_x as usize)]
    }

    /// The chunk `index`: its position in the chunk grid and its cells.
    pub fn chunk(&self, index: usize) -> (c: WorldTerrainChunk)
        requires
            self.wf(),
            index < self.batch_count(),
        ensures
            c.x == index as int % chunks_for(self.width()),
            c.y == index as int / chunks_for(self.width()),
            c.cells@ == self.cells().subrange(index * 256, index * 256 + 256),
    {
        let len = self.cells.len();
        let bcx = ((self.width as usize) + (TERRAIN_CHUNK_STRIDE - 1)) / TERRAIN_CHUNK_STRIDE;
        proof {
            assert(bcx > 0) by (nonlinear_arith)
                requires
                    index < bcx * chunks_for(self.height()),
            ;
            assert((index + 1) * 256 <= self.cells@.len()) by (nonlinear_arith)
                requires
                    index < chunk_count(self.width(), self.height()),
                    self.cells@.len() == chunk_count(self.width(), self.height()) * 256,
            ;
        }
        let base = index * TERRAIN_CHUNK_SIZE;
        let mut cells: Vec<TerrainType> = Vec::with_capacity(TERRAIN_CHUNK_SIZE);
        let mut i: usize = 0;
        while i < TERRAIN_CHUNK_SIZE
            invariant
                i <= 256,
                base == index * 256,
                base + 256 <= self.cells@.len(),
                cells@ == self.cells@.subrange(base as int, base + i),
            decreases 256 - i,
        {
            cells.push(self.cells[base + i]);
            assert(self.cells@.subrange(base as int, base + i + 1) =~= self.cells@.subrange(
                base as int,
                base + i,
            ).push(self.cells@[base + i]));
            i += 1;
        }
        proof {
            assert(index / bcx <= u32::MAX) by (nonlinear_arith)
                requires
                    index <= u32::MAX,
                    bcx > 0,
            ;
        }
        WorldTerrainChunk { x: (index % bcx) as u32, y: (index / bcx) as u32, cells }
    }

    /// Saves the terrain: its view, its size, its update flags and its
    /// cells. The chunks waiting to be synced are not saved.
    pub fn store(&self, writer: &mut SaveFileWriter)
        requires
            self.wf(),
            old(writer).wf(),
            old(writer)@.len() + 8 + self.cells().len() <= u32::MAX,
        ensures
            final(writer).wf(),
            final(writer)@ == old(writer)@ + terrain_words(
                self.view_rect(),
                self.width() as u32,
                self.height() as u32,
                self.flags(),
                self.cells(),
            ),
    {
        let mut words: Vec<u32> = Vec::new();
        let mut i: usize = 0;
        while i < self.cells.len()
            invariant
                i <= self.cells@.len(),
                words@ == self.cells@.take(i as int).map_values(|c: TerrainType| cell_word(c)),
            decreases self.cells@.len() - i,
        {
            let w: u32 = match self.cells[i] {
                TerrainType::Grass => 0,
                TerrainType::Sand => 1,
            };
            words.push(w);
            proof {
                assert(self.cells@.take(i + 1).map_values(|c: TerrainType| cell_word(c)) =~= self.cells@.take(
                    i as int,
                ).map_values(|c: TerrainType| cell_word(c)).push(w));
            }
            i = i + 1;
        }
        proof {
            assert(self.cells@.take(self.cells@.len() as int) =~= self.cells@);
            assert((self.cells@.len() as int) % 256 == 0) by (nonlinear_arith)
                requires
                    self.cells@.len() == self.batch_count() * 256,
            ;
        }
        let ghost start = writer@;
        writer.write(&self.view);
        writer.write_u32(self.width);
        writer.write_u32(self.height);
        writer.write_u32(self.flags as u32);
        writer.write_slice(&words, TERRAIN_CHUNK_SIZE);
        proof {
            assert(writer@ =~= start + terrain_words(self.view@, self.width, self.height, self.flags, self.cells@));
        }
    }

    /// Loads a terrain saved by `store` at the reading position: none, and
    /// nothing read, when the words there do not hold one. The loaded
    /// terrain has no chunk waiting to be synced.
    pub fn load(reader: &mut SaveFileReader) -> (r: Option<Terrain>)
        ensures
            final(reader).words() == old(reader).words(),
            match terrain_at(old(reader).words(), old(reader).offset()) {
                None => r is None && final(reader).offset() == old(reader).offset(),
                Some(saved) => r matches Some(t) && {
                    &&& t.wf()
                    &&& t.view_rect() == saved.0
                    &&& t.width() == saved.1
                    &&& t.height() == saved.2
                    &&& t.flags() == saved.3
                    &&& t.cells() == saved.4
                    &&& t.updates().len() == 0
                    &&& final(reader).offset() == old(reader).offset() + 8 + saved.4.len()
                },
            },
    {
        let ghost words = reader.words();
        let off = reader.current_offset();
        let len = reader.word_count();
        if off > len || len - off < 8 {
            return None;
        }
        let view: [u32; 4] = [reader.word_at(off), reader.word_at(off + 1), reader.word_at(off + 2), reader.word_at(off + 3)];
        let width = reader.word_at(off + 4);
        let height = reader.word_at(off + 5);
        let flags_word = reader.word_at(off + 6);
        let count = reader.word_at(off + 7);
        if (count as u64) * 256 > (len - off - 8) as u64 {
            return None;
        }
        if width as u64 + 15 > usize::MAX as u64 || height as u64 + 15 > usize::MAX as u64 {
            return None;
        }
        let bx: u64 = (width as u64 + 15) / 16;
        let by: u64 = (height as u64 + 15) / 16;
        proof {
            assert(bx * by <= 0x1000_0000 * 0x1000_0000) by (nonlinear_arith)
                requires
                    bx <= 0x1000_0000,
                    by <= 0x1000_0000,
            ;
        }
        if bx * by != count as u64 {
            return None;
        }
        let cell_count = (count as usize) * TERRAIN_CHUNK_SIZE;
        let ghost cw = words.subrange(off + 8, off + 8 + cell_count);
        let mut cells: Vec<TerrainType> = Vec::new();
        let mut i: usize = 0;
        while i < cell_count
            invariant
                i <= cell_count,
                off + 8 + cell_count <= len,
                len == words.len(),
                reader.words() == words,
                words == old(reader).words(),
                off == old(reader).offset(),
                reader.offset() == off,
                width == words[off + 4],
                height == words[off + 5],
                count == words[off + 7],
                cell_count == count * 256,
                width + 15 <= usize::MAX,
                height + 15 <= usize::MAX,
                chunk_count(width as int, height as int) == count,
                cw == words.subrange(off + 8, off + 8 + cell_count),
                forall|j: int| 0 <= j < i ==> #[trigger] cw[j] <= 1,
                cells@ == cw.take(i as int).map_values(|x: u32| word_cell(x)),
            decreases cell_count - i,
        {
            let w = reader.word_at(off + 8 + i);
            assert(w == cw[i as int]);
            if w > 1 {
                assert(cw[i as int] > 1);
                return None;
            }
            let c = if w == 1 { TerrainType::Sand } else { TerrainType::Grass };
            cells.push(c);
            proof {
                assert(cw.take(i + 1).map_values(|x: u32| word_cell(x)) =~= cw.take(i as int).map_values(
                    |x: u32| word_cell(x),
                ).push(c));
            }
            i = i + 1;
        }
        proof {
            assert(cw.take(cell_count as int) =~= cw);
            assert(!(exists|j: int| 0 <= j < cw.len() && #[trigger] cw[j] > 1));
        }
        let flags: u8 = if flags_word % 256 < 4 { (flags_word % 256) as u8 } else { 0 };
        let total = 8 + cell_count;
        let mut k: usize = 0;
        while k < total
            invariant
                k <= total,
                total == 8 + cell_count,
                reader.words() == words,
                reader.offset() == off + k,
                off + 8 + cell_count <= words.len(),
            decreases total - k,
        {
            reader.read_u32();
            k = k + 1;
        }
        let t = Terrain { cells, view, batches_updates: Vec::new(), width, height, flags };
        proof {
            assert(t.cells@.len() == t.batch_count() * 256);
            assert(t.view@ =~= words.subrange(off as int, off + 4));
        }
        Some(t)
    }

    /// Hands over what changed since the last sync and clears it: the new
    /// size if it changed, the view if it changed, and the changed chunks.
    pub fn sync(&mut self) -> (s: TerrainSync)
        ensures
            s.size == (if old(self).flags() & UPDATE_SIZE != 0 {
                Some((old(self).width() as u32, old(self).height() as u32))
            } else {
                None
            }),
            s.view is Some <==> old(self).flags() & UPDATE_VIEW != 0,
            s.view matches Some(v) ==> v@ == old(self).view_rect(),
            s.batches@ == old(self).updates(),
            old(self).wf() ==> final(self).wf(),
            final(self).updates().len() == 0,
            final(self).flags() == 0,
            final(self).cells() == old(self).cells(),
            final(self).width() == old(self).width(),
            final(self).height() == old(self).height(),
            final(self).view_rect() == old(self).view_rect(),
    {
        let size = if self.flags & UPDATE_SIZE != 0 {
            Some((self.width, self.height))
        } else {
            None
        };
        let view = if self.flags & UPDATE_VIEW != 0 {
            Some(self.view)
        } else {
            None
        };
        let mut batches = Vec::new();
        std::mem::swap(&mut batches, &mut self.batches_updates);
        self.flags = 0;
        TerrainSync { size, view, batches }
    }
}

/// The chunk of an in-world cell exists.
proof fn lemma_batch_index_bound(w: int, h: int, cx: int, cy: int)
    requires
        0 <= cx < w,
        0 <= cy < h,
    ensures
        0 <= (cy / 16) * chunks_for(w) + cx / 16 < chunk_count(w, h),
        cell_position(w, cx, cy) / 256 == (cy / 16) * chunks_for(w) + cx / 16,
        0 <= cell_position(w, cx, cy) < chunk_count(w, h) * 256,
{
    let a = cy / 16;
    let s = chunks_for(w);
    let bx = cx / 16;
    let bcx = chunks_for(w);
    let bcy = chunks_for(h);
    assert(a <= bcy - 1 && s <= bcx && bx <= bcx - 1 && a >= 0 && s >= 0 && bx >= 0);
    assert(a * s + bx < bcy * bcx) by (nonlinear_arith)
        requires
            0 <= a <= bcy - 1,
            0 <= s <= bcx,
            0 <= bx <= bcx - 1,
    ;
    assert(a * s >= 0) by (nonlinear_arith)
        requires
            a >= 0,
            s >= 0,
    ;
    let b = a * s + bx;
    let inner = (cy % 16) * 16 + cx % 16;
    assert(0 <= inner < 256);
    assert((b * 256 + inner) / 256 == b);
}

/// Position in the cell sequence where cell `k` of the cells copied into the
/// rectangle at (`x`, `y`) of `width` columns lands: that cell is at row
/// `k / width`, column `k % width` of the rectangle.
pub open spec fn copy_target(w: int, x: int, y: int, width: int, k: int) -> int {
    cell_position(w, x + k % width, y + k / width)
}

/// After copying the first `n` cells of `src`: each copied cell that no later
/// copied cell overwrote holds its source value, and every cell that no copied
/// cell landed on holds its old value.
#[verifier::opaque]
spec fn copied_prefix(
    now: Seq<TerrainType>,
    before: Seq<TerrainType>,
    src: Seq<TerrainType>,
    w: int,
    x: int,
    y: int,
    width: int,
    n: int,
) -> bool {
    &&& now.len() == before.len()
    &&& forall|k: int|
        #![trigger copy_target(w, x, y, width, k)]
        0 <= k < n && (forall|k2: int|
            #![trigger copy_target(w, x, y, width, k2)]
            k < k2 < n ==> copy_target(w, x, y, width, k2) != copy_target(w, x, y, width, k))
            ==> now[copy_target(w, x, y, width, k)] == src[k]
    &&& forall|t: int|
        0 <= t < before.len() && (forall|k: int|
            #![trigger copy_target(w, x, y, width, k)]
            0 <= k < n ==> copy_target(w, x, y, width, k) != t) ==> #[trigger] now[t] == before[t]
}

/// After copying the first `n` of `total` cells: the chunks marked before are
/// kept in front, every chunk touched so far is marked, and the new marks are
/// distinct chunks touched by the copy that were not marked before.
#[verifier::opaque]
spec fn marked_prefix(
    now: Seq<usize>,
    before: Seq<usize>,
    w: int,
    x: int,
    y: int,
    width: int,
    n: int,
    total: int,
) -> bool {
    &&& now.len() >= before.len()
    &&& now.subrange(0, before.len() as int) == before
    &&& forall|k: int|
        #![trigger copy_target(w, x, y, width, k)]
        0 <= k < n ==> now.contains((copy_target(w, x, y, width, k) / 256) as usize)
    &&& forall|i: int|
        #![trigger now[i]]
        before.len() <= i < now.len() ==> {
            &&& !before.contains(now[i])
            &&& exists|k: int|
                #![trigger copy_target(w, x, y, width, k)]
                0 <= k < total && now[i] as int == copy_target(w, x, y, width, k) / 256
        }
    &&& forall|i: int, j: int| before.len() <= i < j < now.len() ==> now[i] != now[j]
}

/// Copying `cnt` more cells onto consecutive positions starting at `t0`.
proof fn lemma_copy_step(
    prev: Seq<TerrainType>,
    next: Seq<TerrainType>,
    orig: Seq<TerrainType>,
    src: Seq<TerrainType>,
    w: int,
    x: int,
    y: int,
    width: int,
    n: int,
    cnt: int,
    t0: int,
)
    requires
        copied_prefix(prev, orig, src, w, x, y, width, n),
        0 <= n,
        0 <= cnt,
        n + cnt <= src.len(),
        0 <= t0,
        t0 + cnt <= prev.len(),
        next.len() == prev.len(),
        forall|k: int|
            0 <= k < n + cnt ==> 0 <= #[trigger] copy_target(w, x, y, width, k) < prev.len(),
        forall|j: int| 0 <= j < cnt ==> #[trigger] copy_target(w, x, y, width, n + j) == t0 + j,
        forall|i: int|
            #![trigger next[i]]
            0 <= i < prev.len() ==> next[i] == if t0 <= i < t0 + cnt {
                src[n + (i - t0)]
            } else {
                prev[i]
            },
    ensures
        copied_prefix(next, orig, src, w, x, y, width, n + cnt),
{
    reveal(copied_prefix);
    assert forall|k: int|
        #![trigger copy_target(w, x, y, width, k)]
        0 <= k < n + cnt && (forall|k2: int|
            #![trigger copy_target(w, x, y, width, k2)]
            k < k2 < n + cnt ==> copy_target(w, x, y, width, k2) != copy_target(w, x, y, width, k))
            implies next[copy_target(w, x, y, width, k)] == src[k] by {
        let t = copy_target(w, x, y, width, k);
        if k >= n {
            assert(copy_target(w, x, y, width, n + (k - n)) == t0 + (k - n));
        } else {
            if t0 <= t < t0 + cnt {
                let k2 = n + (t - t0);
                assert(copy_target(w, x, y, width, n + (t - t0)) == t0 + (t - t0));
                assert(k < k2 < n + cnt);
            }
            assert forall|k2: int|
                #![trigger copy_target(w, x, y, width, k2)]
                k < k2 < n implies copy_target(w, x, y, width, k2) != t by {
            }
            assert(0 <= t < prev.len());
        }
    }
    assert forall|t: int|
        0 <= t < orig.len() && (forall|k: int|
            #![trigger copy_target(w, x, y, width, k)]
            0 <= k < n + cnt ==> copy_target(w, x, y, width, k) != t) implies #[trigger] next[t]
        == orig[t] by {
        if t0 <= t < t0 + cnt {
            assert(copy_target(w, x, y, width, n + (t - t0)) == t0 + (t - t0));
        }
        assert forall|k: int|
            #![trigger copy_target(w, x, y, width, k)]
            0 <= k < n implies copy_target(w, x, y, width, k) != t by {
        }
    }
}

/// Marking the chunk `b` of the next `cnt` copied cells, unless it is marked.
proof fn lemma_mark_step(
    prev: Seq<usize>,
    next: Seq<usize>,
    orig: Seq<usize>,
    w: int,
    x: int,
    y: int,
    width: int,
    n: int,
    cnt: int,
    total: int,
    b: usize,
)
    requires
        marked_prefix(prev, orig, w, x, y, width, n, total),
        0 <= n,
        0 < cnt,
        n + cnt <= total,
        forall|j: int| 0 <= j < cnt ==> #[trigger] copy_target(w, x, y, width, n + j) / 256 == b,
        next == if prev.contains(b) {
            prev
        } else {
            prev.push(b)
        },
    ensures
        marked_prefix(next, orig, w, x, y, width, n + cnt, total),
{
    reveal(marked_prefix);
    assert(copy_target(w, x, y, width, n + 0) / 256 == b);
    if !prev.contains(b) {
        assert(next.subrange(0, orig.len() as int) =~= prev.subrange(0, orig.len() as int));
        assert forall|k: int|
            #![trigger copy_target(w, x, y, width, k)]
            0 <= k < n + cnt implies next.contains((copy_target(w, x, y, width, k) / 256) as usize) by {
            if k < n {
                let v = (copy_target(w, x, y, width, k) / 256) as usize;
                assert(prev.contains(v));
                let i = choose|i: int| 0 <= i < prev.len() && prev[i] == v;
                assert(next[i] == v);
            } else {
                assert(copy_target(w, x, y, width, n + (k - n)) / 256 == b);
                assert(next[prev.len() as int] == b);
            }
        }
        assert forall|i: int|
            #![trigger next[i]]
            orig.len() <= i < next.len() implies {
                &&& !orig.contains(next[i])
                &&& exists|k: int|
                    #![trigger copy_target(w, x, y, width, k)]
                    0 <= k < total && next[i] as int == copy_target(w, x, y, width, k) / 256
            } by {
            if i == prev.len() {
                if orig.contains(b) {
                    let m = choose|m: int| 0 <= m < orig.len() && orig[m] == b;
                    assert(prev.subrange(0, orig.len() as int)[m] == prev[m]);
                }
                assert(copy_target(w, x, y, width, n) / 256 == b);
            } else {
                assert(prev[i] == next[i]);
            }
        }
        assert forall|i: int, j: int| orig.len() <= i < j < next.len() implies next[i] != next[j] by {
            if j == prev.len() {
                assert(prev[i] == next[i]);
            }
        }
    } else {
        assert forall|k: int|
            #![trigger copy_target(w, x, y, width, k)]
            0 <= k < n + cnt implies next.contains((copy_target(w, x, y, width, k) / 256) as usize) by {
            if k >= n {
                assert(copy_target(w, x, y, width, n + (k - n)) / 256 == b);
            }
        }
    }
}

/// Every cell of a copy inside the world lands inside the cell sequence.
proof fn lemma_target_in_range(w: int, h: int, x: int, y: int, width: int, height: int, k: int)
    requires
        x >= 0,
        y >= 0,
        width > 0,
        x + width <= w,
        y + height <= h,
        0 <= k < width * height,
    ensures
        0 <= copy_target(w, x, y, width, k) < chunk_count(w, h) * 256,
        0 <= copy_target(w, x, y, width, k) / 256 < chunk_count(w, h),
{
    let r = k / width;
    let c = k % width;
    assert(0 <= r < height) by (nonlinear_arith)
        requires
            0 <= k < width * height,
            width > 0,
            r == k / width,
    ;
    assert(0 <= c < width);
    lemma_batch_index_bound(w, h, x + c, y + r);
}

/// The cells copied to row `r`, columns `c` to `c + cnt`, of the rectangle
/// land on consecutive positions of one chunk when they stay in one chunk row.
proof fn lemma_segment(w: int, x: int, y: int, width: int, r: int, c: int, cnt: int)
    requires
        x >= 0,
        y >= 0,
        r >= 0,
        c >= 0,
        cnt >= 0,
        c + cnt <= width,
        (x + c) % 16 + cnt <= 16,
    ensures
        forall|j: int|
            0 <= j < cnt ==> #[trigger] copy_target(w, x, y, width, r * width + c + j) == cell_position(
                w,
                x + c,
                y + r,
            ) + j,
        forall|j: int|
            0 <= j < cnt ==> #[trigger] copy_target(w, x, y, width, r * width + c + j) / 256 == cell_position(
                w,
                x + c,
                y + r,
            ) / 256,
{
    assert forall|j: int| 0 <= j < cnt implies #[trigger] copy_target(w, x, y, width, r * width + c + j)
        == cell_position(w, x + c, y + r) + j && copy_target(w, x, y, width, r * width + c + j) / 256
        == cell_position(w, x + c, y + r) / 256 by {
        vstd::arithmetic::div_mod::lemma_fundamental_div_mod_converse(
            r * width + c + j,
            width,
            r,
            c + j,
        );
        assert((x + c + j) / 16 == (x + c) / 16);
        assert((x + c + j) % 16 == (x + c) % 16 + j);
        let inner = ((y + r) % 16) * 16 + (x + c) % 16;
        assert(0 <= inner && inner + j < 256);
        let b = ((y + r) / 16) * chunks_for(w) + (x + c) / 16;
        assert((b * 256 + inner + j) / 256 == b);
        assert((b * 256 + inner) / 256 == b);
    }
}

/// Distinct cells of a world have distinct positions in the cell sequence.
pub proof fn lemma_cell_position_injective(w: int, cx1: int, cy1: int, cx2: int, cy2: int)
    requires
        0 <= cx1 < w,
        0 <= cx2 < w,
        0 <= cy1,
        0 <= cy2,
        cx1 != cx2 || cy1 != cy2,
    ensures
        cell_position(w, cx1, cy1) != cell_position(w, cx2, cy2),
{
    let s = chunks_for(w);
    let b1 = (cy1 / 16) * s + cx1 / 16;
    let b2 = (cy2 / 16) * s + cx2 / 16;
    let i1 = (cy1 % 16) * 16 + cx1 % 16;
    let i2 = (cy2 % 16) * 16 + cx2 % 16;
    assert(cx1 / 16 < s && cx2 / 16 < s);
    if cell_position(w, cx1, cy1) == cell_position(w, cx2, cy2) {
        assert(b1 * 256 + i1 == b2 * 256 + i2);
        assert((b1 * 256 + i1) / 256 == b1);
        assert((b2 * 256 + i2) / 256 == b2);
        assert(i1 == i2);
        assert(cy1 % 16 == cy2 % 16 && cx1 % 16 == cx2 % 16);
        vstd::arithmetic::div_mod::lemma_fundamental_div_mod_converse(b1, s, cy1 / 16, cx1 / 16);
        vstd::arithmetic::div_mod::lemma_fundamental_div_mod_converse(b2, s, cy2 / 16, cx2 / 16);
        assert(cy1 / 16 == cy2 / 16 && cx1 / 16 == cx2 / 16);
    }
}

/// Cell `r * width + c` of a copy lands on terrain cell (`x + c`, `y + r`).
pub proof fn lemma_copy_target_cell(w: int, x: int, y: int, width: int, r: int, c: int)
    requires
        0 <= r,
        0 <= c < width,
    ensures
        copy_target(w, x, y, width, r * width + c) == cell_position(w, x + c, y + r),
{
    vstd::arithmetic::div_mod::lemma_fundamental_div_mod_converse(r * width + c, width, r, c);
}

/// Reading back a copy: after `set_cells` the cell (`x + c`, `y + r`) of the
/// terrain holds cell `r * width + c` of the copied cells, for every cell of
/// the rectangle.
#[verifier::spinoff_prover]
#[verifier::rlimit(40)]
proof fn lemma_set_cells_read_back(
    before: Seq<TerrainType>,
    after: Seq<TerrainType>,
    src: Seq<TerrainType>,
    w: int,
    h: int,
    x: int,
    y: int,
    width: int,
    height: int,
    r: int,
    c: int,
)
    requires
        0 <= x,
        0 <= y,
        width > 0,
        height > 0,
        x + width <= w,
        y + height <= h,
        src.len() == width * height,
        0 <= r < height,
        0 <= c < width,
        forall|k: int|
            #![trigger copy_target(w, x, y, width, k)]
            0 <= k < src.len() && (forall|k2: int|
                #![trigger copy_target(w, x, y, width, k2)]
                k < k2 < src.len() ==> copy_target(w, x, y, width, k2) != copy_target(w, x, y, width, k))
                ==> after[copy_target(w, x, y, width, k)] == src[k],
    ensures
        after[cell_position(w, x + c, y + r)] == src[r * width + c],
{
    let k = r * width + c;
    assert(0 <= k < width * height) by (nonlinear_arith)
        requires
            0 <= r < height,
            0 <= c < width,
            k == r * width + c,
    ;
    lemma_copy_target_cell(w, x, y, width, r, c);
    assert forall|k2: int|
        #![trigger copy_target(w, x, y, width, k2)]
        k < k2 < src.len() implies copy_target(w, x, y, width, k2) != copy_target(w, x, y, width, k) by {
        let r2 = k2 / width;
        let c2 = k2 % width;
        vstd::arithmetic::div_mod::lemma_fundamental_div_mod(k2, width);
        vstd::arithmetic::div_mod::lemma_mod_bound(k2, width);
        vstd::arithmetic::div_mod::lemma_div_pos_is_pos(k2, width);
        assert(0 <= r2 && 0 <= c2 < width);
        assert(k2 == r2 * width + c2) by (nonlinear_arith)
            requires
                k2 == width * r2 + c2,
        ;
        lemma_copy_target_cell(w, x, y, width, r2, c2);
        assert(r2 < height) by (nonlinear_arith)
            requires
                k2 < width * height,
                k2 == r2 * width + c2,
                0 <= c2,
                width > 0,
        ;
        if r2 == r && c2 == c {
            assert(k2 == k);
        }
        lemma_cell_position_injective(w, x + c, y + r, x + c2, y + r2);
    }
}

/// A saved terrain loads back as it was: its view, its size, its update
/// flags and its cells, whatever was saved before and after it.
pub proof fn lemma_terrain_round_trip(t: Terrain, prefix: Seq<u32>, suffix: Seq<u32>)
    requires
        t.wf(),
        t.cells().len() <= u32::MAX,
    ensures
        terrain_at(
            prefix + terrain_words(t.view_rect(), t.width() as u32, t.height() as u32, t.flags(), t.cells()) + suffix,
            prefix.len() as int,
        ) == Some((t.view_rect(), t.width() as u32, t.height() as u32, t.flags(), t.cells())),
{
    let cells = t.cells();
    let view = t.view_rect();
    assert(view.len() == 4);
    let cws = cells.map_values(|c: TerrainType| cell_word(c));
    let words = prefix + terrain_words(view, t.width() as u32, t.height() as u32, t.flags(), cells) + suffix;
    let off = prefix.len() as int;
    let n = cells.len() as int / 256;
    assert(n * 256 == cells.len() && n == t.batch_count()) by (nonlinear_arith)
        requires
            cells.len() == t.batch_count() * 256,
            n == cells.len() as int / 256,
            t.batch_count() >= 0,
    ;
    assert(words.subrange(off, off + 4) =~= view);
    assert(words[off + 4] == t.width() as u32);
    assert(words[off + 5] == t.height() as u32);
    assert(words[off + 6] == t.flags() as u32);
    assert(words[off + 7] as int == n);
    let cw = words.subrange(off + 8, off + 8 + n * 256);
    assert(cw =~= cws);
    assert forall|i: int| 0 <= i < cw.len() implies #[trigger] cw[i] <= 1 by {
        assert(cw[i] == cell_word(cells[i]));
    }
    assert(cw.map_values(|x: u32| word_cell(x)) =~= cells) by {
        assert forall|i: int| 0 <= i < cells.len() implies cw.map_values(|x: u32| word_cell(x))[i] == cells[i] by {
            assert(cw[i] == cell_word(cells[i]));
        }
    }
    assert(flags_of_word(t.flags() as u32) == t.flags());
}

} // verus!
