//! Four-dimensional arrays of pixel intensities, kept in an `ndarray` array.
//!
//! The axes are, in order: observation, channel, row, column.

use vstd::prelude::*;

verus! {

/// A dense four-dimensional array of bytes, held by `ndarray`.
///
/// Verus does not look inside: what the array holds is named by
/// [`array_dims`] and [`array_cells`], and the functions of this module say
/// of each call into `ndarray` what it does to them.
#[verifier::external_body]
#[derive(Debug)]
pub struct PixelArray {
    inner: ndarray::Array4<u8>,
}

/// The lengths of the four axes of an array.
pub uninterp spec fn array_dims(array: PixelArray) -> (nat, nat, nat, nat);

/// The cells of an array, by observation, channel, row and column.
pub uninterp spec fn array_cells(array: PixelArray) -> Map<(int, int, int, int), u8>;

/// Whether a position lies inside an array of the given axis lengths.
pub open spec fn in_bounds(dims: (nat, nat, nat, nat), at: (int, int, int, int)) -> bool {
    &&& 0 <= at.0 < dims.0
    &&& 0 <= at.1 < dims.1
    &&& 0 <= at.2 < dims.2
    &&& 0 <= at.3 < dims.3
}

/// The length that an axis counts for in the size of an array: `ndarray`
/// leaves axes of length zero out of the product that it bounds.
pub open spec fn axis_factor(len: nat) -> nat {
    if len == 0 {
        1
    } else {
        len
    }
}

/// The product of the axis lengths other than zero.
pub open spec fn extent(n: nat, c: nat, h: nat, w: nat) -> nat {
    axis_factor(n) * axis_factor(c) * axis_factor(h) * axis_factor(w)
}

/// The position `(n, c, y, x)` as integers.
pub open spec fn position(at: (usize, usize, usize, usize)) -> (int, int, int, int) {
    (at.0 as int, at.1 as int, at.2 as int, at.3 as int)
}

impl PixelArray {
    /// `ArrayBase::zeros` for a four-dimensional array of bytes: every cell
    /// inside the bounds is zero. The call panics where the product of the
    /// axis lengths other than zero overflows `isize`, which `requires` rules
    /// out.
    #[verifier::external_body]
    pub(crate) fn zeros(n: usize, c: usize, h: usize, w: usize) -> (array: PixelArray)
        requires
            extent(n as nat, c as nat, h as nat, w as nat) <= isize::MAX,
        ensures
            array_dims(array) == (n as nat, c as nat, h as nat, w as nat),
            forall|at: (int, int, int, int)|
                in_bounds(array_dims(array), at) ==> #[trigger] array_cells(array)[at] == 0,
    {
        PixelArray { inner: ndarray::Array4::<u8>::zeros((n, c, h, w)) }
    }

    /// `ArrayBase::dim`: the lengths of the four axes.
    #[verifier::external_body]
    pub(crate) fn dims(&self) -> (d: (usize, usize, usize, usize))
        ensures
            array_dims(*self) == (d.0 as nat, d.1 as nat, d.2 as nat, d.3 as nat),
    {
        self.inner.dim()
    }

    /// Reads one cell through `Index`. The call panics outside the bounds,
    /// which `requires` rules out.
    #[verifier::external_body]
    pub(crate) fn cell(&self, at: (usize, usize, usize, usize)) -> (value: u8)
        requires
            in_bounds(array_dims(*self), position(at)),
        ensures
            value == array_cells(*self)[position(at)],
    {
        self.inner[[at.0, at.1, at.2, at.3]]
    }

    /// Assigns one cell through `IndexMut`: that cell takes the value, the
    /// axis lengths and every other cell stay. The call panics outside the
    /// bounds, which `requires` rules out.
    #[verifier::external_body]
    pub(crate) fn set_cell(&mut self, at: (usize, usize, usize, usize), value: u8)
        requires
            in_bounds(array_dims(*old(self)), position(at)),
        ensures
            array_dims(*final(self)) == array_dims(*old(self)),
            array_cells(*final(self)) == array_cells(*old(self)).insert(position(at), value),
    {
        self.inner[[at.0, at.1, at.2, at.3]] = value;
    }
}

/// The number of cells of an array of the given axis lengths.
pub open spec fn volume(dims: (nat, nat, nat, nat)) -> nat {
    dims.0 * dims.1 * dims.2 * dims.3
}

/// Where a cell stands when the cells are listed with the last axis running
/// fastest.
pub open spec fn flat_index(dims: (nat, nat, nat, nat), at: (int, int, int, int)) -> int {
    ((at.0 * dims.1 + at.1) * dims.2 + at.2) * dims.3 + at.3
}

proof fn lemma_radix_step(q: int, r: int, base: int, limit: int)
    by (nonlinear_arith)
    requires
        0 <= q < limit,
        0 <= r < base,
    ensures
        0 <= q * base + r < limit * base,
{
}

proof fn lemma_radix_unique(q1: int, r1: int, q2: int, r2: int, base: int)
    by (nonlinear_arith)
    requires
        0 <= r1 < base,
        0 <= r2 < base,
        q1 * base + r1 == q2 * base + r2,
    ensures
        q1 == q2,
        r1 == r2,
{
}

proof fn lemma_radix_carry(t: int, base: int)
    by (nonlinear_arith)
    ensures
        (t + 1) * base == t * base + base,
{
}

/// A position inside the bounds has its place among the cells.
pub proof fn lemma_flat_bounds(dims: (nat, nat, nat, nat), at: (int, int, int, int))
    requires
        in_bounds(dims, at),
    ensures
        0 <= flat_index(dims, at) < volume(dims),
{
    let s1 = at.0 * dims.1 + at.1;
    let s2 = s1 * dims.2 + at.2;
    lemma_radix_step(at.0, at.1, dims.1 as int, dims.0 as int);
    lemma_radix_step(s1, at.2, dims.2 as int, (dims.0 * dims.1) as int);
    lemma_radix_step(s2, at.3, dims.3 as int, (dims.0 * dims.1 * dims.2) as int);
}

/// Two positions inside the bounds do not share a place.
pub proof fn lemma_flat_injective(
    dims: (nat, nat, nat, nat),
    a: (int, int, int, int),
    b: (int, int, int, int),
)
    requires
        in_bounds(dims, a),
        in_bounds(dims, b),
        flat_index(dims, a) == flat_index(dims, b),
    ensures
        a == b,
{
    let a1 = a.0 * dims.1 + a.1;
    let a2 = a1 * dims.2 + a.2;
    let b1 = b.0 * dims.1 + b.1;
    let b2 = b1 * dims.2 + b.2;
    lemma_radix_unique(a2, a.3, b2, b.3, dims.3 as int);
    lemma_radix_unique(a1, a.2, b1, b.2, dims.2 as int);
    lemma_radix_unique(a.0, a.1, b.0, b.1, dims.1 as int);
}

/// Whether `values` lists every cell of `array`, each at its place.
pub open spec fn holds_values(array: PixelArray, values: Seq<u8>) -> bool {
    &&& values.len() == volume(array_dims(array))
    &&& forall|at: (int, int, int, int)|
        in_bounds(array_dims(array), at) ==> 0 <= #[trigger] flat_index(array_dims(array), at)
            < values.len() && values[flat_index(array_dims(array), at)] == array_cells(array)[at]
}

/// Whether `values` lists the cells of `array` up to, and without, place
/// `end`.
spec fn lists_cells(array: PixelArray, values: Seq<u8>, end: int) -> bool {
    forall|at: (int, int, int, int)|
        in_bounds(array_dims(array), at) && #[trigger] flat_index(array_dims(array), at) < end
            ==> 0 <= flat_index(array_dims(array), at) < values.len() && values[flat_index(
            array_dims(array),
            at,
        )] == array_cells(array)[at]
}

impl PixelArray {
    /// The lengths of the four axes: observations, channels, rows, columns.
    pub fn shape(&self) -> (d: (usize, usize, usize, usize))
        ensures
            array_dims(*self) == (d.0 as nat, d.1 as nat, d.2 as nat, d.3 as nat),
    {
        self.dims()
    }

    /// The cell at a position, or `None` outside the bounds.
    pub fn get(&self, at: (usize, usize, usize, usize)) -> (value: Option<u8>)
        ensures
            value == if in_bounds(array_dims(*self), position(at)) {
                Some(array_cells(*self)[position(at)])
            } else {
                None
            },
    {
        let (n, c, h, w) = self.dims();
        if at.0 < n && at.1 < c && at.2 < h && at.3 < w {
            Some(self.cell(at))
        } else {
            None
        }
    }

    /// One more cell, appended at its place.
    fn push_cell(&self, out: &mut Vec<u8>, at: (usize, usize, usize, usize))
        requires
            in_bounds(array_dims(*self), position(at)),
            old(out)@.len() == flat_index(array_dims(*self), position(at)),
            lists_cells(*self, old(out)@, old(out)@.len() as int),
        ensures
            final(out)@.len() == old(out)@.len() + 1,
            lists_cells(*self, final(out)@, final(out)@.len() as int),
    {
        let ghost dims = array_dims(*self);
        let ghost before = out@;
        let value = self.cell(at);
        out.push(value);
        proof {
            assert forall|p: (int, int, int, int)|
                in_bounds(dims, p) && #[trigger] flat_index(dims, p) < out@.len() implies 0
                <= flat_index(dims, p) < out@.len() && out@[flat_index(dims, p)] == array_cells(
                *self,
            )[p] by {
                lemma_flat_bounds(dims, p);
                if flat_index(dims, p) < before.len() {
                    assert(out@[flat_index(dims, p)] == before[flat_index(dims, p)]);
                } else {
                    lemma_flat_injective(dims, p, position(at));
                }
            }
        }
    }

    /// The cells of the array as one list, the last axis running fastest.
    pub fn values(&self) -> (out: Vec<u8>)
        ensures
            holds_values(*self, out@),
    {
        let (n, c, h, w) = self.dims();
        let ghost dims = array_dims(*self);
        let mut out: Vec<u8> = Vec::new();
        let mut i: usize = 0;
        assert(flat_index(dims, (0, 0, 0, 0)) == 0) by (nonlinear_arith);
        while i < n
            invariant
                i <= n,
                dims == array_dims(*self),
                dims == (n as nat, c as nat, h as nat, w as nat),
                out@.len() == flat_index(dims, (i as int, 0, 0, 0)),
                lists_cells(*self, out@, out@.len() as int),
            decreases n - i,
        {
            let mut j: usize = 0;
            while j < c
                invariant
                    i < n,
                    j <= c,
                    dims == array_dims(*self),
                    dims == (n as nat, c as nat, h as nat, w as nat),
                    out@.len() == flat_index(dims, (i as int, j as int, 0, 0)),
                    lists_cells(*self, out@, out@.len() as int),
                decreases c - j,
            {
                let mut y: usize = 0;
                while y < h
                    invariant
                        i < n,
                        j < c,
                        y <= h,
                        dims == array_dims(*self),
                        dims == (n as nat, c as nat, h as nat, w as nat),
                        out@.len() == flat_index(dims, (i as int, j as int, y as int, 0)),
                        lists_cells(*self, out@, out@.len() as int),
                    decreases h - y,
                {
                    let mut x: usize = 0;
                    while x < w
                        invariant
                            i < n,
                            j < c,
                            y < h,
                            x <= w,
                            dims == array_dims(*self),
                            dims == (n as nat, c as nat, h as nat, w as nat),
                            out@.len() == flat_index(
                                dims,
                                (i as int, j as int, y as int, x as int),
                            ),
                            lists_cells(*self, out@, out@.len() as int),
                        decreases w - x,
                    {
                        self.push_cell(&mut out, (i, j, y, x));
                        x += 1;
                    }
                    proof {
                        lemma_radix_carry((i * c + j) * h + y, w as int);
                    }
                    y += 1;
                }
                proof {
                    lemma_radix_carry(i * c + j, h as int);
                }
                j += 1;
            }
            proof {
                lemma_radix_carry(i as int, c as int);
            }
            i += 1;
        }
        proof {
            assert forall|at: (int, int, int, int)| in_bounds(dims, at) implies 0
                <= #[trigger] flat_index(dims, at) < out@.len() && out@[flat_index(dims, at)]
                == array_cells(*self)[at] by {
                lemma_flat_bounds(dims, at);
            }
        }
        out
    }
}

} // verus!
