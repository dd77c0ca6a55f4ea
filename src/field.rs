use vstd::prelude::*;
use vstd::arithmetic::div_mod::{lemma_div_pos_is_pos, lemma_fundamental_div_mod, lemma_multiply_divide_lt};

use crate::cell::{CellType, code_of};
use crate::rules::{Pattern, RuleView, Rules, lookup};

verus! {

/// A grid construction was asked for a zero width or height.
#[derive(Clone, Copy, Debug, PartialEq, Eq, Structural)]
pub enum FieldError {
    InvalidDimensions,
}

/// `x` moved into `[0, hi]`.
pub open spec fn clamp(x: int, hi: int) -> int {
    if x < 0 {
        0
    } else if x > hi {
        hi
    } else {
        x
    }
}

/// Which corner of its 2x2 block the cell at (`r`, `c`) holds at time `t`:
/// 1 top-left, 2 top-right, 3 bottom-left, 4 bottom-right. On odd steps the
/// blocks shift by one cell diagonally, which swaps 1 with 4 and 2 with 3.
pub open spec fn gid(r: int, c: int, t: int) -> int {
    let base = 1 + 2 * (r % 2) + c % 2;
    if t % 2 == 0 {
        base
    } else {
        5 - base
    }
}

/// The distance of `x` from zero.
pub open spec fn abs(x: int) -> int {
    if x < 0 {
        -x
    } else {
        x
    }
}

/// The swap of corners between consecutive steps.
pub open spec fn remap(g: int) -> int {
    if g == 1 {
        4
    } else if g == 4 {
        1
    } else if g == 2 {
        3
    } else {
        2
    }
}

/// What a toggle leaves in a cell: `Empty` where there was anything, `Sand`
/// where there was nothing.
pub open spec fn toggled(c: CellType) -> CellType {
    if c != CellType::Empty {
        CellType::Empty
    } else {
        CellType::Sand
    }
}

/// A grid of cells stored row by row. When `boundary_row_reserved` holds,
/// the last of the `height` rows is a fixed wall: it is read by the blocks
/// next to it but neither stored nor stepped.
pub struct Field {
    pub width: usize,
    pub height: usize,
    boundary_row_reserved: bool,
    values: Vec<CellType>,
}

/// The corner of its block that the cell at (`i`, `j`) holds at
/// `time_step`; see [`gid`].
pub fn grid_idx(i: usize, j: usize, time_step: u32) -> (r: u8)
    ensures
        r as int == gid(i as int, j as int, time_step as int),
        1 <= r <= 4,
{
    let base: u8 = if i % 2 == 0 {
        if j % 2 == 0 {
            1
        } else {
            2
        }
    } else {
        if j % 2 == 0 {
            3
        } else {
            4
        }
    };
    if time_step % 2 == 0 {
        base
    } else {
        match base {
            1 => 4,
            4 => 1,
            2 => 3,
            _ => 2,
        }
    }
}

/// Clamps a coordinate into `[0, hi]`.
fn clamp_coord(x: i128, hi: usize) -> (r: usize)
    ensures
        r as int == clamp(x as int, hi as int),
{
    if x < 0 {
        0
    } else if x > hi as i128 {
        hi
    } else {
        x as usize
    }
}

proof fn lemma_index_in_grid(r: int, c: int, w: int, h: int)
    requires
        0 <= r < h,
        0 <= c < w,
    ensures
        0 <= r * w + c < w * h,
{
    assert(0 <= r * w + c < w * h) by (nonlinear_arith)
        requires
            0 <= r < h,
            0 <= c < w,
    ;
}

proof fn lemma_split_index(i: int, w: int, h: int)
    requires
        0 <= i < w * h,
        w > 0,
    ensures
        0 <= i / w < h,
        0 <= i % w < w,
        (i / w) * w + i % w == i,
{
    lemma_multiply_divide_lt(i, w, h);
    assert(i == w * (i / w) + i % w) by {
        lemma_fundamental_div_mod(i, w);
    }
    assert((i / w) * w == w * (i / w)) by (nonlinear_arith);
    assert(i / w >= 0) by {
        lemma_div_pos_is_pos(i, w);
    }
}

/// Two steps later a cell holds the same corner of its block again; one
/// step later it holds the corner given by the swap 1-4, 2-3.
pub proof fn lemma_parity_round_trip(row: int, col: int, t: int)
    requires
        row >= 0,
        col >= 0,
        t >= 0,
    ensures
        gid(row, col, t + 2) == gid(row, col, t),
        gid(row, col, t + 1) == remap(gid(row, col, t)),
        1 <= gid(row, col, t) <= 4,
{
}

/// Toggling a cell twice gives back its value exactly when it held
/// `Empty` or `Sand`.
pub proof fn lemma_toggle_twice(cells: Seq<CellType>, i: int)
    requires
        0 <= i < cells.len(),
    ensures
        ({
            let once = cells.update(i, toggled(cells[i]));
            let twice = once.update(i, toggled(once[i]));
            twice == cells <==> (cells[i] == CellType::Empty || cells[i] == CellType::Sand)
        }),
{
    let once = cells.update(i, toggled(cells[i]));
    let twice = once.update(i, toggled(once[i]));
    if cells[i] == CellType::Empty || cells[i] == CellType::Sand {
        assert(twice =~= cells);
    } else {
        assert(twice[i] != cells[i]);
    }
}

impl Field {
    /// A grid of `w` columns and `h` rows whose live cells take
    /// `fill(index)` for their row-major index; with
    /// `boundary_row_reserved` the last row is a fixed wall.
    pub fn with_boundary(w: usize, h: usize, boundary_row_reserved: bool, fill: impl Fn(usize) -> CellType) -> (r: Result<Field, FieldError>)
        requires
            w * h <= usize::MAX,
            forall|i: usize| (i as int) < w * h ==> fill.requires((i,)),
        ensures
            r is Err <==> w == 0 || h == 0,
            r matches Ok(f) ==> {
                &&& f.wf()
                &&& f.cols() == w
                &&& f.rows() == h
                &&& f.reserved() == boundary_row_reserved
                &&& forall|i: int| 0 <= i < f.cells().len() ==> fill.ensures(((i as usize),), #[trigger] f.cells()[i])
            },
    {
        if w == 0 || h == 0 {
            return Err(FieldError::InvalidDimensions);
        }
        let live = if boundary_row_reserved { h - 1 } else { h };
        assert(w * live <= w * h) by (nonlinear_arith)
            requires
                live <= h,
        ;
        let n = w * live;
        let mut values: Vec<CellType> = Vec::new();
        let mut i: usize = 0;
        while i < n
            invariant
                n <= w * h,
                i <= n,
                values@.len() == i,
                forall|k: usize| (k as int) < w * h ==> fill.requires((k,)),
                forall|k: int| 0 <= k < i ==> fill.ensures(((k as usize),), #[trigger] values@[k]),
            decreases n - i,
        {
            values.push(fill(i));
            i += 1;
        }
        Ok(Field { width: w, height: h, boundary_row_reserved, values })
    }

    /// A grid of `w` columns and `h` rows, filled by `fill`, whose last row
    /// is a reserved wall.
    pub fn new(w: usize, h: usize, fill: impl Fn(usize) -> CellType) -> (r: Result<Field, FieldError>)
        requires
            w * h <= usize::MAX,
            forall|i: usize| (i as int) < w * h ==> fill.requires((i,)),
        ensures
            r is Err <==> w == 0 || h == 0,
            r matches Ok(f) ==> {
                &&& f.wf()
                &&& f.cols() == w
                &&& f.rows() == h
                &&& f.reserved()
                &&& forall|i: int| 0 <= i < f.cells().len() ==> fill.ensures(((i as usize),), #[trigger] f.cells()[i])
            },
    {
        Self::with_boundary(w, h, true, fill)
    }

    /// A grid of `w` columns and `h` rows whose live cells all hold
    /// `value`, with a reserved wall row.
    pub fn new_uniform(w: usize, h: usize, value: CellType) -> (r: Result<Field, FieldError>)
        requires
            w * h <= usize::MAX,
        ensures
            r is Err <==> w == 0 || h == 0,
            r matches Ok(f) ==> {
                &&& f.wf()
                &&& f.cols() == w
                &&& f.rows() == h
                &&& f.reserved()
                &&& forall|i: int| 0 <= i < f.cells().len() ==> #[trigger] f.cells()[i] == value
            },
    {
        let fill = |_i: usize| -> (c: CellType)
            ensures
                c == value,
            { value };
        Self::new(w, h, fill)
    }

    /// The row-major index of (`row`, `col`).
    pub fn get_idx(&self, row: usize, col: usize) -> (r: usize)
        requires
            row * self.cols() + col <= usize::MAX,
        ensures
            r == row * self.cols() + col,
    {
        row * self.width + col
    }

    /// The number of rows that steps update.
    pub fn playable_height(&self) -> (r: usize)
        requires
            self.wf(),
        ensures
            r == self.live_rows(),
    {
        if self.boundary_row_reserved {
            self.height - 1
        } else {
            self.height
        }
    }

    /// The cell at (`row`, `col`); the reserved row holds walls.
    pub fn get(&self, row: usize, col: usize) -> (r: CellType)
        requires
            self.wf(),
            row < self.rows(),
            col < self.cols(),
        ensures
            r == self.cell(row as int, col as int),
    {
        if row < self.playable_height() {
            proof {
                self.lemma_live_index(row as int, col as int);
            }
            self.values[row * self.width + col]
        } else {
            CellType::Wall
        }
    }

    /// Writes `value` into the live cell at (`row`, `col`).
    pub fn set(&mut self, row: usize, col: usize, value: CellType)
        requires
            old(self).wf(),
            row < old(self).live_rows(),
            col < old(self).cols(),
        ensures
            final(self).wf(),
            final(self).cols() == old(self).cols() && final(self).rows() == old(self).rows(),
            final(self).reserved() == old(self).reserved(),
            final(self).cells() == old(self).cells().update(row * old(self).cols() + col, value),
    {
        proof {
            self.lemma_live_index(row as int, col as int);
        }
        let idx = self.get_idx(row, col);
        self.values.set(idx, value);
    }

    /// Empties the live cell at (`row`, `col`) if it holds anything, and
    /// puts sand in it if it is empty.
    pub fn togglerc(&mut self, row: usize, col: usize)
        requires
            old(self).wf(),
            row < old(self).live_rows(),
            col < old(self).cols(),
        ensures
            final(self).wf(),
            final(self).cols() == old(self).cols() && final(self).rows() == old(self).rows(),
            final(self).reserved() == old(self).reserved(),
            final(self).cells() == old(self).cells().update(
                row * old(self).cols() + col,
                toggled(old(self).cells()[row * old(self).cols() + col]),
            ),
    {
        proof {
            self.lemma_live_index(row as int, col as int);
        }
        let idx = self.get_idx(row, col);
        if self.values[idx] != CellType::Empty {
            self.values.set(idx, CellType::Empty);
        } else {
            self.values.set(idx, CellType::Sand);
        }
    }

    /// The cell nearest to (`row`, `col`) inside the grid.
    pub fn read_clamped(&self, row: i128, col: i128) -> (r: CellType)
        requires
            self.wf(),
        ensures
            r == self.read(row as int, col as int),
    {
        let r = clamp_coord(row, self.height - 1);
        let c = clamp_coord(col, self.width - 1);
        self.get(r, c)
    }

    /// The four cells nearest to the given coordinates inside the grid.
    pub fn slice(&self, i1: (i128, i128), i2: (i128, i128), i3: (i128, i128), i4: (i128, i128)) -> (r: Pattern)
        requires
            self.wf(),
        ensures
            r@ == seq![
                self.read(i1.0 as int, i1.1 as int),
                self.read(i2.0 as int, i2.1 as int),
                self.read(i3.0 as int, i3.1 as int),
                self.read(i4.0 as int, i4.1 as int),
            ],
    {
        let r = [
            self.read_clamped(i1.0, i1.1),
            self.read_clamped(i2.0, i2.1),
            self.read_clamped(i3.0, i3.1),
            self.read_clamped(i4.0, i4.1),
        ];
        assert(r@ =~= seq![
            self.read(i1.0 as int, i1.1 as int),
            self.read(i2.0 as int, i2.1 as int),
            self.read(i3.0 as int, i3.1 as int),
            self.read(i4.0 as int, i4.1 as int),
        ]);
        r
    }

    /// The block in which the cell at (`row`, `col`) holds corner `gid`.
    pub fn encodde_neighborhood(&self, gid: u8, row: usize, col: usize) -> (r: Pattern)
        requires
            self.wf(),
            1 <= gid <= 4,
        ensures
            r@ == self.neighborhood(gid as int, row as int, col as int),
    {
        let r = row as i128;
        let c = col as i128;
        match gid {
            1 => self.slice((r, c), (r, c + 1), (r + 1, c), (r + 1, c + 1)),
            2 => self.slice((r, c - 1), (r, c), (r + 1, c - 1), (r + 1, c)),
            3 => self.slice((r - 1, c), (r - 1, c + 1), (r, c), (r, c + 1)),
            _ => self.slice((r - 1, c - 1), (r - 1, c), (r, c - 1), (r, c)),
        }
    }

    /// Advances every live cell by one step at `time_step`. Every new value
    /// is computed from the cells as they were before the step.
    pub fn step(&mut self, time_step: u32, rules: &Rules)
        requires
            old(self).wf(),
            rules.wf(),
        ensures
            final(self).wf(),
            final(self).cols() == old(self).cols() && final(self).rows() == old(self).rows(),
            final(self).reserved() == old(self).reserved(),
            final(self).cells() == old(self).stepped(time_step as int, rules.table()),
    {
        let w = self.width;
        let n = self.values.len();
        let ghost before = *self;
        let mut new_values: Vec<CellType> = Vec::new();
        let mut idx: usize = 0;
        while idx < n
            invariant
                self.wf(),
                rules.wf(),
                *self == before,
                w == self.cols(),
                n == self.cells().len(),
                idx <= n,
                new_values@.len() == idx,
                forall|k: int| 0 <= k < idx ==> #[trigger] new_values@[k] == self.stepped(time_step as int, rules.table())[k],
            decreases n - idx,
        {
            let row = idx / w;
            let col = idx % w;
            let gid = grid_idx(row, col, time_step);
            let nh = self.encodde_neighborhood(gid, row, col);
            let shifted = rules.rules(nh);
            new_values.push(shifted[(gid - 1) as usize]);
            idx += 1;
        }
        assert(new_values@ =~= self.stepped(time_step as int, rules.table()));
        self.values = new_values;
    }

    /// Every row as cell codes, row by row, the reserved wall row last.
    pub fn export(&self) -> (r: Vec<u8>)
        requires
            self.wf(),
        ensures
            r@ == self.exported(),
    {
        let w = self.width;
        let n = self.width * self.height;
        let mut r: Vec<u8> = Vec::new();
        let mut idx: usize = 0;
        while idx < n
            invariant
                self.wf(),
                w == self.cols(),
                n == self.cols() * self.rows(),
                idx <= n,
                r@.len() == idx,
                forall|k: int| 0 <= k < idx ==> #[trigger] r@[k] == self.exported()[k],
            decreases n - idx,
        {
            proof {
                lemma_split_index(idx as int, w as int, self.rows() as int);
            }
            let c = self.get(idx / w, idx % w);
            r.push(c.code());
            idx += 1;
        }
        assert(r@ =~= self.exported());
        r
    }

    /// A read at any coordinates, inside the grid or not, gives the grid
    /// cell nearest to them.
    pub proof fn lemma_clamp_at_edge(&self, r: int, c: int)
        requires
            self.wf(),
        ensures
            0 <= clamp(r, self.rows() - 1) < self.rows(),
            0 <= clamp(c, self.cols() - 1) < self.cols(),
            self.read(r, c) == self.cell(clamp(r, self.rows() - 1), clamp(c, self.cols() - 1)),
            forall|r2: int|
                0 <= r2 < self.rows() ==> #[trigger] abs(r - r2) >= abs(r - clamp(r, self.rows() - 1)),
            forall|c2: int|
                0 <= c2 < self.cols() ==> #[trigger] abs(c - c2) >= abs(c - clamp(c, self.cols() - 1)),
    {
    }

    proof fn lemma_live_index(&self, r: int, c: int)
        requires
            self.wf(),
            0 <= r < self.live_rows(),
            0 <= c < self.cols(),
        ensures
            0 <= r * self.cols() + c < self.cells().len(),
            self.cells().len() <= self.cols() * self.rows() <= usize::MAX,
    {
        lemma_index_in_grid(r, c, self.cols() as int, self.live_rows() as int);
        let w = self.cols();
        let l = self.live_rows();
        let h = self.rows();
        assert(w * l <= w * h) by (nonlinear_arith)
            requires
                l <= h,
        ;
    }

    /// The live cells, row by row.
    pub closed spec fn cells(&self) -> Seq<CellType> {
        self.values@
    }

    /// The number of columns.
    pub closed spec fn cols(&self) -> nat {
        self.width as nat
    }

    /// The number of rows, the reserved one included.
    pub closed spec fn rows(&self) -> nat {
        self.height as nat
    }

    pub closed spec fn reserved(&self) -> bool {
        self.boundary_row_reserved
    }

    /// The number of rows that are stored and stepped.
    pub open spec fn live_rows(&self) -> nat {
        if self.reserved() {
            (self.rows() - 1) as nat
        } else {
            self.rows()
        }
    }

    pub open spec fn wf(&self) -> bool {
        &&& self.cols() >= 1
        &&& self.rows() >= 1
        &&& self.cols() * self.rows() <= usize::MAX
        &&& self.cells().len() == self.cols() * self.live_rows()
    }

    /// The cell at (`r`, `c`), for `r < height` and `c < width`; the
    /// reserved row reads as `Wall`.
    pub open spec fn cell(&self, r: int, c: int) -> CellType {
        if r < self.live_rows() {
            self.cells()[r * self.cols() + c]
        } else {
            CellType::Wall
        }
    }

    /// The cell nearest to (`r`, `c`) inside the grid.
    pub open spec fn read(&self, r: int, c: int) -> CellType {
        self.cell(clamp(r, self.rows() - 1), clamp(c, self.cols() - 1))
    }

    /// The block in which the cell at (`r`, `c`) holds corner `g`, read in
    /// the order top-left, top-right, bottom-left, bottom-right.
    pub open spec fn neighborhood(&self, g: int, r: int, c: int) -> Seq<CellType> {
        let top = r - (g - 1) / 2;
        let left = c - (g - 1) % 2;
        seq![
            self.read(top, left),
            self.read(top, left + 1),
            self.read(top + 1, left),
            self.read(top + 1, left + 1),
        ]
    }

    /// The value of the cell at (`r`, `c`) after one step at time `t`.
    pub open spec fn next_cell(&self, r: int, c: int, t: int, table: Seq<RuleView>) -> CellType {
        let g = gid(r, c, t);
        lookup(table, self.neighborhood(g, r, c))[g - 1]
    }

    /// The live cells after one step at time `t`, each computed from the
    /// cells before the step.
    pub open spec fn stepped(&self, t: int, table: Seq<RuleView>) -> Seq<CellType> {
        Seq::new(
            self.cells().len(),
            |i: int| self.next_cell(i / self.cols() as int, i % self.cols() as int, t, table),
        )
    }

    /// Every row, the reserved one included, as cell codes row by row.
    pub open spec fn exported(&self) -> Seq<u8> {
        Seq::new(
            (self.cols() * self.rows()) as nat,
            |i: int| code_of(self.cell(i / self.cols() as int, i % self.cols() as int)) as u8,
        )
    }
}

} // verus!
