//! The framebuffer: a fixed-size, row-major grid of cells, where cell
//! `i + j * width` holds the pixel in column `i` and row `j`.
use vstd::prelude::*;

verus! {

/// Position in the row-major cell sequence of the pixel in column `i`, row `j`.
pub open spec fn cell_index(i: int, j: int, width: int) -> int {
    i + j * width
}

/// Index in a row-major buffer of the pixel in column `i`, row `j`.
pub fn index_of(i: usize, j: usize, width: usize) -> (r: usize)
    requires
        i < width,
        j * width + i <= usize::MAX,
    ensures
        r == cell_index(i as int, j as int, width as int),
{
    j * width + i
}

/// Column and row of the pixel stored at `index` of a row-major buffer.
pub fn pixel_of(index: usize, width: usize) -> (r: (usize, usize))
    requires
        width > 0,
    ensures
        r.0 == index % width,
        r.1 == index / width,
        r.0 < width,
        cell_index(r.0 as int, r.1 as int, width as int) == index,
{
    let i = index % width;
    let j = index / width;
    proof {
        lemma_div_mod_split(index as int, width as int);
    }
    (i, j)
}

proof fn lemma_div_mod_split(k: int, w: int)
    requires
        k >= 0,
        w > 0,
    ensures
        k % w + (k / w) * w == k,
        0 <= k % w < w,
{
    vstd::arithmetic::div_mod::lemma_fundamental_div_mod(k, w);
    vstd::arithmetic::mul::lemma_mul_is_commutative(w, k / w);
}

/// The layout is a bijection: the cell of column `i`, row `j` is read back as
/// column `i`, row `j`, and every index names the cell of the pixel it decodes to.
pub proof fn lemma_pixel_index_round_trip(i: int, j: int, width: int, index: int)
    requires
        0 <= i < width,
        0 <= j,
        0 <= index,
    ensures
        cell_index(i, j, width) % width == i,
        cell_index(i, j, width) / width == j,
        cell_index(index % width, index / width, width) == index,
{
    lemma_cell_index_decodes(i, j, width);
    lemma_div_mod_split(index, width);
}

/// The cell of column `i`, row `j` decodes back to column `i`, row `j`.
proof fn lemma_cell_index_decodes(i: int, j: int, width: int)
    requires
        0 <= i < width,
        0 <= j,
    ensures
        cell_index(i, j, width) % width == i,
        cell_index(i, j, width) / width == j,
{
    vstd::arithmetic::div_mod::lemma_fundamental_div_mod_converse(
        cell_index(i, j, width),
        width,
        j,
        i,
    );
    vstd::arithmetic::mul::lemma_mul_is_commutative(width, j);
}

/// A `width` by `height` grid of cells, stored row-major in one vector.
pub struct Framebuffer<T> {
    width: usize,
    height: usize,
    cells: Vec<T>,
}

impl<T> Framebuffer<T> {
    pub closed spec fn spec_width(&self) -> nat {
        self.width as nat
    }

    pub closed spec fn spec_height(&self) -> nat {
        self.height as nat
    }

    /// The cells in row-major order.
    pub closed spec fn spec_cells(&self) -> Seq<T> {
        self.cells@
    }

    /// The grid holds exactly one cell per pixel, and its cells can be indexed.
    pub open spec fn wf(&self) -> bool {
        &&& self.spec_cells().len() == self.spec_width() * self.spec_height()
        &&& self.spec_width() * self.spec_height() <= usize::MAX
    }

    /// The cell of column `i`, row `j`.
    pub open spec fn spec_at(&self, i: int, j: int) -> T {
        self.spec_cells()[cell_index(i, j, self.spec_width() as int)]
    }

    /// A grid whose every cell holds `fill`.
    pub fn new(width: usize, height: usize, fill: T) -> (r: Self)
        where
            T: Copy,
        requires
            width * height <= usize::MAX,
        ensures
            r.wf(),
            r.spec_width() == width,
            r.spec_height() == height,
            r.spec_cells() == Seq::new((width * height) as nat, |k: int| fill),
    {
        let n = width * height;
        let mut cells: Vec<T> = Vec::with_capacity(n);
        let mut k: usize = 0;
        while k < n
            invariant
                k <= n,
                cells@ == Seq::new(k as nat, |m: int| fill),
            decreases n - k,
        {
            cells.push(fill);
            k = k + 1;
            assert(cells@ =~= Seq::new(k as nat, |m: int| fill));
        }
        Framebuffer { width, height, cells }
    }

    /// Takes over `cells` as the row-major content of a `width` by `height` grid;
    /// `None` when their number is not `width * height`.
    pub fn from_cells(width: usize, height: usize, cells: Vec<T>) -> (r: Option<Self>)
        ensures
            r.is_some() <==> cells@.len() == width as int * height as int,
            r matches Some(fb) ==> fb.wf() && fb.spec_width() == width && fb.spec_height()
                == height && fb.spec_cells() == cells@,
    {
        let len = cells.len();
        match width.checked_mul(height) {
            Some(n) => {
                if len == n {
                    Some(Framebuffer { width, height, cells })
                } else {
                    None
                }
            },
            None => None,
        }
    }

    pub fn width(&self) -> (r: usize)
        ensures
            r == self.spec_width(),
    {
        self.width
    }

    pub fn height(&self) -> (r: usize)
        ensures
            r == self.spec_height(),
    {
        self.height
    }

    /// The cells in row-major order.
    pub fn cells(&self) -> (r: &Vec<T>)
        ensures
            r@ == self.spec_cells(),
    {
        &self.cells
    }

    /// Hands over the cells in row-major order.
    pub fn into_cells(self) -> (r: Vec<T>)
        ensures
            r@ == self.spec_cells(),
    {
        self.cells
    }

    /// The cell of column `i`, row `j`.
    pub fn get(&self, i: usize, j: usize) -> (r: &T)
        requires
            self.wf(),
            i < self.spec_width(),
            j < self.spec_height(),
        ensures
            *r == self.spec_at(i as int, j as int),
    {
        proof {
            lemma_cell_in_bounds(i as int, j as int, self.width as int, self.height as int);
        }
        &self.cells[j * self.width + i]
    }

    /// Writes `v` into the cell of column `i`, row `j`, and leaves every other
    /// cell as it was.
    pub fn set(&mut self, i: usize, j: usize, v: T)
        requires
            old(self).wf(),
            i < old(self).spec_width(),
            j < old(self).spec_height(),
        ensures
            final(self).wf(),
            final(self).spec_width() == old(self).spec_width(),
            final(self).spec_height() == old(self).spec_height(),
            final(self).spec_cells() == old(self).spec_cells().update(
                cell_index(i as int, j as int, old(self).spec_width() as int),
                v,
            ),
    {
        proof {
            lemma_cell_in_bounds(i as int, j as int, self.width as int, self.height as int);
        }
        let k = j * self.width + i;
        self.cells.set(k, v);
    }
}

/// The cell of a pixel inside the grid lies inside the cell sequence.
proof fn lemma_cell_in_bounds(i: int, j: int, width: int, height: int)
    requires
        0 <= i < width,
        0 <= j < height,
    ensures
        0 <= cell_index(i, j, width) < width * height,
{
    vstd::arithmetic::mul::lemma_mul_inequality(j + 1, height, width);
    vstd::arithmetic::mul::lemma_mul_is_distributive_add_other_way(width, j, 1);
    vstd::arithmetic::mul::lemma_mul_is_commutative(width, height);
    vstd::arithmetic::mul::lemma_mul_nonnegative(j, width);
}

/// Writing a cell and reading it back gives the value written; the other cells
/// are untouched.
pub proof fn lemma_set_then_get<T>(
    before: Framebuffer<T>,
    after: Framebuffer<T>,
    i: int,
    j: int,
    v: T,
    i2: int,
    j2: int,
)
    requires
        before.wf(),
        0 <= i < before.spec_width(),
        0 <= j < before.spec_height(),
        0 <= i2 < before.spec_width(),
        0 <= j2 < before.spec_height(),
        after.spec_width() == before.spec_width(),
        after.spec_height() == before.spec_height(),
        after.spec_cells() == before.spec_cells().update(
            cell_index(i, j, before.spec_width() as int),
            v,
        ),
    ensures
        after.spec_at(i, j) == v,
        (i2 != i || j2 != j) ==> after.spec_at(i2, j2) == before.spec_at(i2, j2),
{
    let w = before.spec_width() as int;
    lemma_cell_in_bounds(i, j, w, before.spec_height() as int);
    lemma_cell_in_bounds(i2, j2, w, before.spec_height() as int);
    if i2 != i || j2 != j {
        lemma_cell_index_decodes(i, j, w);
        lemma_cell_index_decodes(i2, j2, w);
    }
}

} // verus!
