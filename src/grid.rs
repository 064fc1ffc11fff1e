use crate::location::{loc_lt, Location};
use vstd::arithmetic::div_mod::{lemma_fundamental_div_mod, lemma_fundamental_div_mod_converse, lemma_mod_pos_bound};
use vstd::prelude::*;

verus! {

/// Holds of a value that `T::default()` can return.
pub open spec fn is_default<T: Default>(v: T) -> bool {
    call_ensures(T::default, (), v)
}

/// True when `loc` addresses a cell of a `width` by `height` grid.
pub open spec fn in_bounds(loc: Location, width: int, height: int) -> bool {
    0 <= loc.0 < width && 0 <= loc.1 < height
}

/// The offsets probed around a cell, in order: east, west, south, north, and
/// with `all` then the diagonals (+x,+y), (+x,-y), (-x,+y), (-x,-y).
pub open spec fn offsets(all: bool) -> Seq<(int, int)> {
    let orth = seq![(1int, 0int), (-1int, 0int), (0int, 1int), (0int, -1int)];
    if all {
        orth + seq![(1int, 1int), (1int, -1int), (-1int, 1int), (-1int, -1int)]
    } else {
        orth
    }
}

/// The locations `(x + dx, y + dy)` for the offsets of `offs` that fall
/// inside a `width` by `height` grid, in the order of `offs`.
pub open spec fn kept(x: int, y: int, offs: Seq<(int, int)>, width: int, height: int) -> Seq<
    Location,
>
    decreases offs.len(),
{
    if offs.len() == 0 {
        seq![]
    } else {
        let prev = kept(x, y, offs.drop_last(), width, height);
        let o = offs.last();
        if 0 <= x + o.0 < width && 0 <= y + o.1 < height {
            prev.push(Location((x + o.0) as isize, (y + o.1) as isize))
        } else {
            prev
        }
    }
}

/// The in-bounds neighbours of `loc` in enumeration order: the four
/// orthogonal ones, and with `all` the four diagonal ones after them.
pub open spec fn neighbor_locs(loc: Location, all: bool, width: int, height: int) -> Seq<Location> {
    kept(loc.0 as int, loc.1 as int, offsets(all), width, height)
}

/// The `k`-th location of row-major order over rows of `width` cells.
pub open spec fn loc_at(k: int, width: int) -> Location {
    Location((k % width) as isize, (k / width) as isize)
}

/// The position of column `col` of row `row` in row-major order over rows of
/// `width` cells.
pub open spec fn index_of(col: int, row: int, width: int) -> int {
    row * width + col
}

/// A dense `width` by `height` grid of `T`, stored row by row.
/// `(0,0)` is the upper-left cell.
#[derive(Clone, Debug, Default, PartialEq, Eq, Hash)]
pub struct Grid<T: Default + Clone> {
    g: Vec<Vec<T>>,
    width: usize,
    height: usize,
}

impl<T: Default + Clone> Grid<T> {
    /// The number of columns.
    pub closed spec fn spec_width(&self) -> nat {
        self.width as nat
    }

    /// The number of rows.
    pub closed spec fn spec_height(&self) -> nat {
        self.height as nat
    }

    /// The value in column `col` of row `row`.
    pub closed spec fn cell(&self, col: int, row: int) -> T {
        self.g@[row]@[col]
    }

    /// The value at `loc`.
    pub open spec fn at(&self, loc: Location) -> T {
        self.cell(loc.0 as int, loc.1 as int)
    }

    /// True when `loc` addresses a cell of this grid.
    pub open spec fn contains(&self, loc: Location) -> bool {
        in_bounds(loc, self.spec_width() as int, self.spec_height() as int)
    }

    /// Well-formedness: `height` rows of `width` cells each, and dimensions
    /// that signed coordinates can address.
    pub closed spec fn wf(&self) -> bool {
        &&& self.g@.len() == self.height
        &&& forall|r: int| 0 <= r < self.height ==> (#[trigger] self.g@[r])@.len() == self.width
        &&& self.width <= isize::MAX
        &&& self.height <= isize::MAX
    }

    /// True when `other` is `self` with the cell at `loc` replaced by `v`.
    pub open spec fn is_update(&self, other: &Self, loc: Location, v: T) -> bool {
        &&& other.wf()
        &&& other.spec_width() == self.spec_width()
        &&& other.spec_height() == self.spec_height()
        &&& other.at(loc) == v
        &&& forall|c: int, r: int|
            0 <= c < self.spec_width() && 0 <= r < self.spec_height() && !(c == loc.0 && r == loc.1)
                ==> #[trigger] other.cell(c, r) == self.cell(c, r)
    }

    /// A grid of `x` columns and `y` rows, every cell set to `T::default()`.
    pub fn new(x: usize, y: usize) -> (grid: Self)
        requires
            x <= isize::MAX,
            y <= isize::MAX,
        ensures
            grid.wf(),
            grid.spec_width() == x,
            grid.spec_height() == y,
            forall|c: int, r: int| 0 <= c < x && 0 <= r < y ==> is_default(#[trigger] grid.cell(c, r)),
    {
        let mut g: Vec<Vec<T>> = Vec::new();
        let mut j: usize = 0;
        while j < y
            invariant
                j <= y,
                g@.len() == j,
                forall|r: int| 0 <= r < j ==> (#[trigger] g@[r])@.len() == x,
                forall|c: int, r: int| 0 <= c < x && 0 <= r < j ==> is_default(#[trigger] g@[r]@[c]),
            decreases y - j,
        {
            let mut row: Vec<T> = Vec::new();
            let mut i: usize = 0;
            while i < x
                invariant
                    i <= x,
                    row@.len() == i,
                    forall|c: int| 0 <= c < i ==> is_default(#[trigger] row@[c]),
                decreases x - i,
            {
                row.push(T::default());
                i = i + 1;
            }
            g.push(row);
            j = j + 1;
        }
        Grid { g, width: x, height: y }
    }

    /// The number of columns given at construction.
    pub fn width(&self) -> (r: usize)
        ensures
            r == self.spec_width(),
    {
        self.width
    }

    /// The number of rows given at construction.
    pub fn height(&self) -> (r: usize)
        ensures
            r == self.spec_height(),
    {
        self.height
    }

    /// Replaces the value at `l` with `t`.
    pub fn add(&mut self, l: &Location, t: T)
        requires
            old(self).wf(),
            old(self).contains(*l),
        ensures
            old(self).is_update(final(self), *l, t),
    {
        self.g[l.1 as usize][l.0 as usize] = t;
    }

    /// The value at `l`.
    pub fn get<'a>(&'a self, l: &Location) -> (r: &'a T)
        requires
            self.wf(),
            self.contains(*l),
        ensures
            *r == self.at(*l),
    {
        &self.g[l.1 as usize][l.0 as usize]
    }

    /// A mutable borrow of the value at `l`; whatever is written through it
    /// becomes the value at `l`, and no other cell changes.
    pub fn get_mut<'a>(&'a mut self, l: &Location) -> (r: &'a mut T)
        requires
            old(self).wf(),
            old(self).contains(*l),
        ensures
            *r == old(self).at(*l),
            old(self).is_update(final(self), *l, *final(r)),
    {
        &mut self.g[l.1 as usize][l.0 as usize]
    }

    /// True when `r` lists exactly the locations of `locs`, in order, each
    /// with the value this grid holds there.
    pub open spec fn lists(&self, r: Seq<(Location, &T)>, locs: Seq<Location>) -> bool {
        &&& r.len() == locs.len()
        &&& forall|k: int| 0 <= k < r.len() ==> (#[trigger] r[k]).0 == locs[k] && *r[k].1 == self.at(locs[k])
    }

    /// A fresh traversal of every cell in row-major order: row 0 from left
    /// to right, then row 1, and so on.
    pub fn iter<'a>(&'a self) -> (it: GridIter<'a, T>)
        requires
            self.wf(),
        ensures
            it.wf(),
            it.source() == *self,
            it.index() == 0,
    {
        GridIter { grid: self, col: 0, row: 0 }
    }

    fn neighbors_impl<'a>(&'a self, l: &Location, all: bool) -> (n: Vec<(Location, &'a T)>)
        requires
            self.wf(),
        ensures
            self.lists(n@, neighbor_locs(*l, all, self.spec_width() as int, self.spec_height() as int)),
    {
        let x = l.0;
        let y = l.1;
        let mut n: Vec<(Location, &'a T)> = Vec::new();
        let mut tests: Vec<(i8, i8)> = vec![(1, 0), (-1, 0), (0, 1), (0, -1)];
        if all {
            tests.push((1, 1));
            tests.push((1, -1));
            tests.push((-1, 1));
            tests.push((-1, -1));
        }
        let ghost offs = offsets(all);
        assert(tests@.len() == offs.len());
        let ghost w = self.width as int;
        let ghost h = self.height as int;
        let mut i: usize = 0;
        while i < tests.len()
            invariant
                self.wf(),
                w == self.width,
                h == self.height,
                i <= tests@.len(),
                tests@.len() == offs.len(),
                forall|k: int| 0 <= k < offs.len() ==> (#[trigger] tests@[k]).0 == offs[k].0 && tests@[k].1 == offs[k].1,
                self.lists(n@, kept(x as int, y as int, offs.take(i as int), w, h)),
            decreases tests@.len() - i,
        {
            let t = tests[i];
            let nx: i128 = x as i128 + t.0 as i128;
            let ny: i128 = y as i128 + t.1 as i128;
            assert(offs.take(i + 1).drop_last() =~= offs.take(i as int));
            if 0 <= nx && nx < self.width as i128 && 0 <= ny && ny < self.height as i128 {
                let loc = Location(nx as isize, ny as isize);
                n.push((loc, &self.g[ny as usize][nx as usize]));
            }
            i = i + 1;
        }
        assert(offs.take(tests@.len() as int) =~= offs);
        n
    }

    /// The in-bounds orthogonal neighbours of `l`, in the order east, west,
    /// south, north, each with its value.
    pub fn neighbors<'a>(&'a self, l: &Location) -> (r: Vec<(Location, &'a T)>)
        requires
            self.wf(),
        ensures
            self.lists(r@, neighbor_locs(*l, false, self.spec_width() as int, self.spec_height() as int)),
    {
        self.neighbors_impl(l, false)
    }

    /// The in-bounds neighbours of `l` in all eight directions: the
    /// orthogonal ones as `neighbors` gives them, then (+x,+y), (+x,-y),
    /// (-x,+y), (-x,-y), each with its value.
    pub fn neighbors_all<'a>(&'a self, l: &Location) -> (r: Vec<(Location, &'a T)>)
        requires
            self.wf(),
        ensures
            self.lists(r@, neighbor_locs(*l, true, self.spec_width() as int, self.spec_height() as int)),
    {
        self.neighbors_impl(l, true)
    }
}

/// Every location that `kept` produces lies inside the grid.
proof fn lemma_kept_in_bounds(x: int, y: int, offs: Seq<(int, int)>, width: int, height: int)
    requires
        width <= isize::MAX,
        height <= isize::MAX,
    ensures
        forall|k: int|
            0 <= k < kept(x, y, offs, width, height).len() ==> in_bounds(
                #[trigger] kept(x, y, offs, width, height)[k],
                width,
                height,
            ),
    decreases offs.len(),
{
    if offs.len() > 0 {
        let prev = kept(x, y, offs.drop_last(), width, height);
        lemma_kept_in_bounds(x, y, offs.drop_last(), width, height);
        let cur = kept(x, y, offs, width, height);
        assert forall|k: int| 0 <= k < cur.len() implies in_bounds(#[trigger] cur[k], width, height) by {
            if k < prev.len() {
                assert(cur[k] == prev[k]);
            }
        }
    }
}

/// Neighbour queries never leave the grid: every location they report is
/// in bounds.
pub proof fn lemma_neighbors_in_bounds(loc: Location, all: bool, width: int, height: int)
    requires
        width <= isize::MAX,
        height <= isize::MAX,
    ensures
        forall|k: int|
            0 <= k < neighbor_locs(loc, all, width, height).len() ==> in_bounds(
                #[trigger] neighbor_locs(loc, all, width, height)[k],
                width,
                height,
            ),
{
    lemma_kept_in_bounds(loc.0 as int, loc.1 as int, offsets(all), width, height);
}

/// Around an interior cell (one at least a cell away from every edge, so
/// the grid is at least 3x3) all four orthogonal neighbours are reported, in
/// the order east, west, south, north; with `all` the four diagonal ones
/// follow in the order (+x,+y), (+x,-y), (-x,+y), (-x,-y).
pub proof fn lemma_interior_neighbors(loc: Location, width: int, height: int)
    requires
        1 <= loc.0 < width - 1,
        1 <= loc.1 < height - 1,
        width <= isize::MAX,
        height <= isize::MAX,
    ensures
        neighbor_locs(loc, false, width, height) == seq![
            Location((loc.0 + 1) as isize, loc.1),
            Location((loc.0 - 1) as isize, loc.1),
            Location(loc.0, (loc.1 + 1) as isize),
            Location(loc.0, (loc.1 - 1) as isize),
        ],
        neighbor_locs(loc, true, width, height) == seq![
            Location((loc.0 + 1) as isize, loc.1),
            Location((loc.0 - 1) as isize, loc.1),
            Location(loc.0, (loc.1 + 1) as isize),
            Location(loc.0, (loc.1 - 1) as isize),
            Location((loc.0 + 1) as isize, (loc.1 + 1) as isize),
            Location((loc.0 + 1) as isize, (loc.1 - 1) as isize),
            Location((loc.0 - 1) as isize, (loc.1 + 1) as isize),
            Location((loc.0 - 1) as isize, (loc.1 - 1) as isize),
        ],
        neighbor_locs(loc, false, width, height).len() == 4,
        neighbor_locs(loc, true, width, height).len() == 8,
{
    reveal_with_fuel(kept, 9);
    let (x, y) = (loc.0 as int, loc.1 as int);
    assert(neighbor_locs(loc, false, width, height) =~= seq![
        Location((x + 1) as isize, y as isize),
        Location((x - 1) as isize, y as isize),
        Location(x as isize, (y + 1) as isize),
        Location(x as isize, (y - 1) as isize),
    ]);
    assert(neighbor_locs(loc, true, width, height) =~= seq![
        Location((x + 1) as isize, y as isize),
        Location((x - 1) as isize, y as isize),
        Location(x as isize, (y + 1) as isize),
        Location(x as isize, (y - 1) as isize),
        Location((x + 1) as isize, (y + 1) as isize),
        Location((x + 1) as isize, (y - 1) as isize),
        Location((x - 1) as isize, (y + 1) as isize),
        Location((x - 1) as isize, (y - 1) as isize),
    ]);
}

/// At the top-left corner of a grid of at least 2x2, only the in-bounds
/// neighbours are reported: east and south, and with `all` also south-east.
pub proof fn lemma_corner_neighbors(width: int, height: int)
    requires
        2 <= width <= isize::MAX,
        2 <= height <= isize::MAX,
    ensures
        neighbor_locs(Location(0, 0), false, width, height) == seq![Location(1, 0), Location(0, 1)],
        neighbor_locs(Location(0, 0), true, width, height) == seq![
            Location(1, 0),
            Location(0, 1),
            Location(1, 1),
        ],
{
    reveal_with_fuel(kept, 9);
    assert(neighbor_locs(Location(0, 0), false, width, height) =~= seq![
        Location(1, 0),
        Location(0, 1),
    ]);
    assert(neighbor_locs(Location(0, 0), true, width, height) =~= seq![
        Location(1, 0),
        Location(0, 1),
        Location(1, 1),
    ]);
}

/// Row-major traversal of a `width` by `height` grid visits `width * height`
/// positions: each is in bounds, each comes strictly after the one before it
/// in row-major order, and every cell of the grid is among them, once.
pub proof fn lemma_iteration_order(width: int, height: int)
    requires
        0 <= width <= isize::MAX,
        0 <= height <= isize::MAX,
    ensures
        forall|k: int| 0 <= k < width * height ==> in_bounds(#[trigger] loc_at(k, width), width, height),
        forall|k1: int, k2: int|
            0 <= k1 < k2 < width * height ==> loc_lt(#[trigger] loc_at(k1, width), #[trigger] loc_at(k2, width)),
        forall|c: int, r: int|
            0 <= c < width && 0 <= r < height ==> 0 <= #[trigger] index_of(c, r, width) < width * height
                && loc_at(index_of(c, r, width), width) == Location(c as isize, r as isize),
{
    assert forall|k: int| 0 <= k < width * height implies in_bounds(#[trigger] loc_at(k, width), width, height) by {
        lemma_row_col_of(k, width, height);
    }
    assert forall|k1: int, k2: int| 0 <= k1 < k2 < width * height implies loc_lt(
        #[trigger] loc_at(k1, width),
        #[trigger] loc_at(k2, width),
    ) by {
        lemma_row_col_of(k1, width, height);
        lemma_row_col_of(k2, width, height);
        let (q1, r1, q2, r2) = (k1 / width, k1 % width, k2 / width, k2 % width);
        assert(q1 <= q2) by (nonlinear_arith)
            requires k1 == width * q1 + r1, k2 == width * q2 + r2, 0 <= r1 < width, 0 <= r2 < width, k1 < k2;
        assert(q1 == q2 ==> r1 < r2) by (nonlinear_arith)
            requires k1 == width * q1 + r1, k2 == width * q2 + r2, k1 < k2;
    }
    assert forall|c: int, r: int| 0 <= c < width && 0 <= r < height implies 0 <= #[trigger] index_of(
        c,
        r,
        width,
    ) < width * height && loc_at(index_of(c, r, width), width) == Location(c as isize, r as isize) by {
        let k = r * width + c;
        lemma_fundamental_div_mod_converse(k, width, r, c);
        assert(0 <= k < width * height) by (nonlinear_arith)
            requires k == r * width + c, 0 <= c < width, 0 <= r < height;
    }
}

/// The row and column of the `k`-th position of a `width` by `height` grid.
proof fn lemma_row_col_of(k: int, width: int, height: int)
    requires
        0 <= width <= isize::MAX,
        0 <= height <= isize::MAX,
        0 <= k < width * height,
    ensures
        k == width * (k / width) + k % width,
        0 <= k % width < width,
        0 <= k / width < height,
{
    assert(width > 0) by (nonlinear_arith)
        requires 0 <= k < width * height, 0 <= height;
    lemma_fundamental_div_mod(k, width);
    lemma_mod_pos_bound(k, width);
    let (q, r) = (k / width, k % width);
    assert(0 <= q < height) by (nonlinear_arith)
        requires k == width * q + r, 0 <= r < width, 0 <= k < width * height;
}

/// The value written last at `loc` by a run of writes, if any wrote there.
pub open spec fn last_write<T>(ops: Seq<(Location, T)>, loc: Location) -> Option<T>
    decreases ops.len(),
{
    if ops.len() == 0 {
        None
    } else if ops.last().0 == loc {
        Some(ops.last().1)
    } else {
        last_write(ops.drop_last(), loc)
    }
}

/// Reading a cell right after writing it gives the value just written.
pub proof fn lemma_add_then_get<T: Default + Clone>(g: Grid<T>, g2: Grid<T>, loc: Location, v: T)
    requires
        g.wf(),
        g.contains(loc),
        g.is_update(&g2, loc, v),
    ensures
        g2.at(loc) == v,
{
}

/// Start from a fresh grid (every cell a default value) and apply the writes
/// of `ops` in order, `grids[i + 1]` being `grids[i]` after the write
/// `ops[i]`: each cell then holds the value last written there, or a default
/// value if no write touched it.
pub proof fn lemma_last_write_wins<T: Default + Clone>(
    grids: Seq<Grid<T>>,
    ops: Seq<(Location, T)>,
    loc: Location,
)
    requires
        grids.len() == ops.len() + 1,
        grids[0].wf(),
        forall|c: int, r: int|
            0 <= c < grids[0].spec_width() && 0 <= r < grids[0].spec_height() ==> is_default(
                #[trigger] grids[0].cell(c, r),
            ),
        forall|i: int|
            0 <= i < ops.len() ==> grids[0].contains(#[trigger] ops[i].0) && grids[i].is_update(
                &grids[i + 1],
                ops[i].0,
                ops[i].1,
            ),
        grids[0].contains(loc),
    ensures
        grids.last().wf(),
        grids.last().spec_width() == grids[0].spec_width(),
        grids.last().spec_height() == grids[0].spec_height(),
        match last_write(ops, loc) {
            Some(v) => grids.last().at(loc) == v,
            None => is_default(grids.last().at(loc)),
        },
    decreases ops.len(),
{
    if ops.len() > 0 {
        let n = ops.len() - 1;
        let pre = grids.drop_last();
        assert forall|i: int| 0 <= i < ops.drop_last().len() implies grids[0].contains(
            #[trigger] ops.drop_last()[i].0,
        ) && pre[i].is_update(&pre[i + 1], ops.drop_last()[i].0, ops.drop_last()[i].1) by {
            assert(ops.drop_last()[i] == ops[i]);
            assert(pre[i] == grids[i] && pre[i + 1] == grids[i + 1]);
        }
        lemma_last_write_wins(pre, ops.drop_last(), loc);
        assert(pre.last() == grids[n]);
        assert(grids[n].is_update(&grids[n + 1], ops[n].0, ops[n].1));
        if ops.last().0 != loc {
            assert(grids[n + 1].cell(loc.0 as int, loc.1 as int) == grids[n].cell(loc.0 as int, loc.1 as int));
        }
    }
}

/// A row-major traversal of a `Grid`, one cell per call of `next`.
pub struct GridIter<'a, T: Default + Clone> {
    grid: &'a Grid<T>,
    col: usize,
    row: usize,
}

impl<'a, T: Default + Clone> GridIter<'a, T> {
    /// The grid being traversed.
    pub closed spec fn source(&self) -> Grid<T> {
        *self.grid
    }

    /// How many cells have been handed out so far.
    pub closed spec fn index(&self) -> int {
        self.row * self.grid.width + self.col
    }

    /// The number of cells of the grid being traversed.
    pub open spec fn total(&self) -> int {
        (self.source().spec_width() * self.source().spec_height()) as int
    }

    pub closed spec fn wf(&self) -> bool {
        &&& self.grid.wf()
        &&& self.row <= self.grid.height
        &&& self.col < self.grid.width || self.col == 0
        &&& self.row == self.grid.height ==> self.col == 0
    }

    /// The next cell in row-major order with its location, or `None` once
    /// every cell has been handed out.
    pub fn next(&mut self) -> (r: Option<(Location, &'a T)>)
        requires
            old(self).wf(),
        ensures
            final(self).wf(),
            final(self).source() == old(self).source(),
            old(self).index() <= old(self).total(),
            old(self).index() < old(self).total() ==> {
                &&& final(self).index() == old(self).index() + 1
                &&& r matches Some(p)
                &&& p.0 == loc_at(old(self).index(), old(self).source().spec_width() as int)
                &&& old(self).source().contains(p.0)
                &&& *p.1 == old(self).source().at(p.0)
            },
            old(self).index() == old(self).total() ==> r is None && final(self).index()
                == old(self).index(),
    {
        let w = self.grid.width;
        let h = self.grid.height;
        proof {
            let (row, col) = (self.row as int, self.col as int);
            if row < h {
                assert(row * w + col <= w * h) by (nonlinear_arith)
                    requires row + 1 <= h, 0 <= col, (col < w || col == 0), 0 <= w;
            }
        }
        if self.row < h && self.col < w {
            let loc = Location(self.col as isize, self.row as isize);
            let v = &self.grid.g[self.row][self.col];
            proof {
                let (row, col) = (self.row as int, self.col as int);
                lemma_fundamental_div_mod_converse(row * w + col, w as int, row, col);
                assert(row * w + col < w * h) by (nonlinear_arith)
                    requires row + 1 <= h, 0 <= col < w;
                assert((row + 1) * w == row * w + w) by (nonlinear_arith);
            }
            if self.col + 1 == w {
                self.col = 0;
                self.row = self.row + 1;
            } else {
                self.col = self.col + 1;
            }
            Some((loc, v))
        } else {
            proof {
                if self.row < h {
                    assert(w == 0);
                }
            }
            None
        }
    }
}

} // verus!
