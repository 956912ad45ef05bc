//! Shape and stride arithmetic: the map from a multi-index to a flat offset.

use vstd::prelude::*;

verus! {

/// The number of elements of a buffer with the given extents: their product.
pub open spec fn num_elements(shape: Seq<usize>) -> nat
    decreases shape.len(),
{
    if shape.len() == 0 {
        1
    } else {
        (shape[0] as nat) * num_elements(shape.skip(1))
    }
}

/// The row-major stride of dimension `d`: the product of the extents behind it.
pub open spec fn stride_of(shape: Seq<usize>, d: int) -> nat {
    num_elements(shape.skip(d + 1))
}

/// The strides of a freshly allocated contiguous buffer.
pub open spec fn row_major_strides(shape: Seq<usize>) -> Seq<usize> {
    Seq::new(shape.len(), |d: int| stride_of(shape, d) as usize)
}

/// Every suffix product of the extents fits in a machine word, so that all
/// row-major strides and the element count can be computed.
pub open spec fn fits(shape: Seq<usize>) -> bool {
    forall|k: int| 0 <= k <= shape.len() ==> #[trigger] num_elements(shape.skip(k)) <= usize::MAX
}

/// The index names one element of a buffer with the given extents.
pub open spec fn in_bounds(shape: Seq<usize>, index: Seq<usize>) -> bool {
    &&& index.len() == shape.len()
    &&& forall|d: int| 0 <= d < shape.len() ==> index[d] < shape[d]
}

/// The sum of `index[d] * strides[d]` over the dimensions from `k` on.
pub open spec fn offset_from(strides: Seq<usize>, index: Seq<usize>, k: int) -> nat
    decreases index.len() - k,
{
    if 0 <= k < index.len() {
        (index[k] as nat) * (strides[k] as nat) + offset_from(strides, index, k + 1)
    } else {
        0
    }
}

/// The flat offset of a multi-index: the sum of `index[d] * strides[d]`.
pub open spec fn offset(strides: Seq<usize>, index: Seq<usize>) -> nat {
    offset_from(strides, index, 0)
}

/// The largest offset that an index within the extents reaches from
/// dimension `k` on, where no extent is zero.
pub open spec fn max_offset_from(shape: Seq<usize>, strides: Seq<usize>, k: int) -> nat
    decreases shape.len() - k,
{
    if 0 <= k < shape.len() {
        ((shape[k] - 1) as nat) * (strides[k] as nat) + max_offset_from(shape, strides, k + 1)
    } else {
        0
    }
}

/// Some extent is zero: the buffer has no element.
pub open spec fn is_empty(shape: Seq<usize>) -> bool {
    exists|d: int| 0 <= d < shape.len() && shape[d] == 0
}

/// A buffer of `len` elements holds every element that the extents and
/// strides can address.
pub open spec fn covers(shape: Seq<usize>, strides: Seq<usize>, len: nat) -> bool {
    &&& strides.len() == shape.len()
    &&& !is_empty(shape) ==> max_offset_from(shape, strides, 0) < len
}

/// The product of the extents from `k` on is the extent of `k` times the
/// product of those behind it.
pub proof fn lemma_num_elements_unfold(shape: Seq<usize>, k: int)
    requires
        0 <= k < shape.len(),
    ensures
        num_elements(shape.skip(k)) == (shape[k] as nat) * num_elements(shape.skip(k + 1)),
{
    assert(shape.skip(k).skip(1) =~= shape.skip(k + 1));
}

/// Row-major strides obey the recurrence that defines them: the last
/// dimension has stride one, and each other dimension steps over the whole
/// of the dimension behind it.
pub proof fn lemma_row_major_recurrence(shape: Seq<usize>)
    ensures
        shape.len() > 0 ==> stride_of(shape, shape.len() - 1) == 1,
        forall|d: int|
            0 <= d < shape.len() - 1 ==> #[trigger] stride_of(shape, d) == stride_of(shape, d + 1)
                * shape[d + 1],
{
    assert forall|d: int| 0 <= d < shape.len() - 1 implies #[trigger] stride_of(shape, d)
        == stride_of(shape, d + 1) * shape[d + 1] by {
        lemma_num_elements_unfold(shape, d + 1);
        assert(stride_of(shape, d + 1) * shape[d + 1] == (shape[d + 1] as nat) * stride_of(
            shape,
            d + 1,
        )) by (nonlinear_arith);
    }
}

/// An index within the extents lands, from dimension `k` on, below the
/// product of the extents from `k` on.
pub proof fn lemma_offset_from_below(shape: Seq<usize>, index: Seq<usize>, k: int)
    requires
        fits(shape),
        in_bounds(shape, index),
        0 <= k <= shape.len(),
    ensures
        offset_from(row_major_strides(shape), index, k) < num_elements(shape.skip(k)),
    decreases shape.len() - k,
{
    if k < shape.len() {
        lemma_offset_from_below(shape, index, k + 1);
        lemma_num_elements_unfold(shape, k);
        let p = num_elements(shape.skip(k + 1));
        let rest = offset_from(row_major_strides(shape), index, k + 1);
        let i = index[k] as nat;
        let e = shape[k] as nat;
        assert(i * p + rest < e * p) by (nonlinear_arith)
            requires
                i < e,
                rest < p,
        ;
    }
}

/// The flat offset of an index within the extents is below the element count.
pub proof fn lemma_offset_below(shape: Seq<usize>, index: Seq<usize>)
    requires
        fits(shape),
        in_bounds(shape, index),
    ensures
        offset(row_major_strides(shape), index) < num_elements(shape) <= usize::MAX,
{
    lemma_offset_from_below(shape, index, 0);
    assert(shape.skip(0) =~= shape);
}

/// Two indices within the extents that agree before dimension `k` and reach
/// the same offset from `k` on agree everywhere.
pub proof fn lemma_offset_from_injective(
    shape: Seq<usize>,
    a: Seq<usize>,
    b: Seq<usize>,
    k: int,
)
    requires
        fits(shape),
        in_bounds(shape, a),
        in_bounds(shape, b),
        0 <= k <= shape.len(),
        forall|d: int| 0 <= d < k ==> a[d] == b[d],
        offset_from(row_major_strides(shape), a, k) == offset_from(row_major_strides(shape), b, k),
    ensures
        a == b,
    decreases shape.len() - k,
{
    if k < shape.len() {
        let strides = row_major_strides(shape);
        let p = num_elements(shape.skip(k + 1));
        let ra = offset_from(strides, a, k + 1);
        let rb = offset_from(strides, b, k + 1);
        let x = a[k] as nat;
        let y = b[k] as nat;
        lemma_offset_from_below(shape, a, k + 1);
        lemma_offset_from_below(shape, b, k + 1);
        assert(x == y && ra == rb) by (nonlinear_arith)
            requires
                x * p + ra == y * p + rb,
                ra < p,
                rb < p,
        ;
        lemma_offset_from_injective(shape, a, b, k + 1);
    }
}

/// Distinct indices within the extents have distinct row-major offsets.
pub proof fn lemma_offset_injective(shape: Seq<usize>, a: Seq<usize>, b: Seq<usize>)
    requires
        fits(shape),
        in_bounds(shape, a),
        in_bounds(shape, b),
        offset(row_major_strides(shape), a) == offset(row_major_strides(shape), b),
    ensures
        a == b,
{
    lemma_offset_from_injective(shape, a, b, 0);
}

/// With any strides, an index within the extents reaches at most the
/// largest offset.
pub proof fn lemma_offset_from_at_most(
    shape: Seq<usize>,
    strides: Seq<usize>,
    index: Seq<usize>,
    k: int,
)
    requires
        strides.len() == shape.len(),
        in_bounds(shape, index),
        0 <= k <= shape.len(),
    ensures
        offset_from(strides, index, k) <= max_offset_from(shape, strides, k),
    decreases shape.len() - k,
{
    if k < shape.len() {
        lemma_offset_from_at_most(shape, strides, index, k + 1);
        let i = index[k] as nat;
        let e = (shape[k] - 1) as nat;
        let s = strides[k] as nat;
        assert(i * s <= e * s) by (nonlinear_arith)
            requires
                i <= e,
        ;
    }
}

/// A buffer that covers the extents and strides holds the element of every
/// index within the extents.
pub proof fn lemma_covered(shape: Seq<usize>, strides: Seq<usize>, len: nat, index: Seq<usize>)
    requires
        covers(shape, strides, len),
        in_bounds(shape, index),
    ensures
        offset(strides, index) < len,
{
    lemma_offset_from_at_most(shape, strides, index, 0);
}

/// The multi-index of the element that lies at flat position `k` of a
/// contiguous buffer: in each dimension, `k` divided by the row-major stride,
/// modulo the extent.
pub open spec fn unravel(shape: Seq<usize>, k: int) -> Seq<usize> {
    Seq::new(
        shape.len(),
        |d: int| ((k / (stride_of(shape, d) as int)) % (shape[d] as int)) as usize,
    )
}

/// Where no extent is zero, every product of trailing extents is positive.
pub proof fn lemma_num_elements_positive(shape: Seq<usize>, k: int)
    requires
        !is_empty(shape),
        0 <= k <= shape.len(),
    ensures
        num_elements(shape.skip(k)) > 0,
    decreases shape.len() - k,
{
    if k < shape.len() {
        lemma_num_elements_positive(shape, k + 1);
        lemma_num_elements_unfold(shape, k);
        let e = shape[k] as nat;
        let p = num_elements(shape.skip(k + 1));
        assert(e * p > 0) by (nonlinear_arith)
            requires
                e > 0,
                p > 0,
        ;
    }
}

/// A buffer with an element has no zero extent.
pub proof fn lemma_count_positive(shape: Seq<usize>)
    requires
        num_elements(shape) > 0,
    ensures
        !is_empty(shape),
    decreases shape.len(),
{
    if shape.len() > 0 {
        let e = shape[0] as nat;
        let p = num_elements(shape.skip(1));
        assert(e > 0 && p > 0) by (nonlinear_arith)
            requires
                e * p > 0,
        ;
        lemma_count_positive(shape.skip(1));
        if is_empty(shape) {
            let d = choose|d: int| 0 <= d < shape.len() && shape[d] == 0;
            assert(shape.skip(1)[d - 1] == 0);
        }
    }
}

/// From dimension `d` on, the multi-index of flat position `k` adds up to
/// `k` modulo the product of the extents from `d` on.
pub proof fn lemma_unravel_offset_from(shape: Seq<usize>, k: int, d: int)
    requires
        fits(shape),
        !is_empty(shape),
        0 <= k,
        0 <= d <= shape.len(),
    ensures
        offset_from(row_major_strides(shape), unravel(shape, k), d) == k % (num_elements(
            shape.skip(d),
        ) as int),
    decreases shape.len() - d,
{
    if d < shape.len() {
        lemma_unravel_offset_from(shape, k, d + 1);
        lemma_num_elements_unfold(shape, d);
        lemma_num_elements_positive(shape, d + 1);
        let p = num_elements(shape.skip(d + 1)) as int;
        let e = shape[d] as int;
        let q = k / p;
        let r = k % p;
        assert(k == (q / e) * (e * p) + ((q % e) * p + r) && 0 <= (q % e) * p + r < e * p)
            by (nonlinear_arith)
            requires
                p > 0,
                e > 0,
                q == k / p,
                r == k % p,
                0 <= k,
        ;
        vstd::arithmetic::div_mod::lemma_fundamental_div_mod_converse(
            k,
            e * p,
            q / e,
            (q % e) * p + r,
        );
    }
}

/// Flat position and multi-index name the same element of a contiguous
/// buffer: the multi-index of position `k` has offset `k`.
pub proof fn lemma_unravel_offset(shape: Seq<usize>, k: int)
    requires
        fits(shape),
        0 <= k < num_elements(shape),
    ensures
        in_bounds(shape, unravel(shape, k)),
        offset(row_major_strides(shape), unravel(shape, k)) == k,
{
    lemma_count_positive(shape);
    lemma_unravel_offset_from(shape, k, 0);
    assert(shape.skip(0) =~= shape);
    vstd::arithmetic::div_mod::lemma_small_mod(k as nat, num_elements(shape));
}

/// A contiguous buffer of as many elements as the shape counts holds every
/// element that the shape addresses through its row-major strides.
pub proof fn lemma_row_major_covers(shape: Seq<usize>)
    requires
        fits(shape),
    ensures
        covers(shape, row_major_strides(shape), num_elements(shape)),
{
    if !is_empty(shape) {
        lemma_max_offset_from_below(shape, 0);
        assert(shape.skip(0) =~= shape);
    }
}

/// Where no extent is zero, the largest row-major offset from dimension `k`
/// on lies below the product of the extents from `k` on.
proof fn lemma_max_offset_from_below(shape: Seq<usize>, k: int)
    requires
        fits(shape),
        !is_empty(shape),
        0 <= k <= shape.len(),
    ensures
        max_offset_from(shape, row_major_strides(shape), k) < num_elements(shape.skip(k)),
    decreases shape.len() - k,
{
    if k < shape.len() {
        lemma_max_offset_from_below(shape, k + 1);
        lemma_num_elements_unfold(shape, k);
        let p = num_elements(shape.skip(k + 1));
        let rest = max_offset_from(shape, row_major_strides(shape), k + 1);
        let e = shape[k] as nat;
        assert(((e - 1) as nat) * p + rest < e * p) by (nonlinear_arith)
            requires
                e > 0,
                rest < p,
        ;
    }
}

/// The extents of a dense buffer, outermost dimension first.
pub struct Shape {
    dims: Vec<usize>,
}

impl View for Shape {
    type V = Seq<usize>;

    closed spec fn view(&self) -> Seq<usize> {
        self.dims@
    }
}

impl Clone for Shape {
    fn clone(&self) -> (r: Self)
        ensures
            r@ == self@,
    {
        Shape { dims: crate::dtype::copy_of(self.dims.as_slice()) }
    }
}

impl Shape {
    /// The row-major strides and the element count are machine words.
    pub open spec fn wf(&self) -> bool {
        fits(self@)
    }

    /// Takes the extents as a shape, unless a product of trailing extents
    /// overflows a machine word.
    pub fn new(dims: Vec<usize>) -> (r: Option<Shape>)
        ensures
            r.is_some() == fits(dims@),
            r matches Some(s) ==> s@ == dims@ && s.wf(),
    {
        let n = dims.len();
        let mut k = n;
        let mut acc: usize = 1;
        while k > 0
            invariant
                n == dims@.len(),
                k <= n,
                acc == num_elements(dims@.skip(k as int)),
                forall|j: int| k <= j <= n ==> #[trigger] num_elements(dims@.skip(j)) <= usize::MAX,
            decreases k,
        {
            k -= 1;
            proof {
                lemma_num_elements_unfold(dims@, k as int);
            }
            match dims[k].checked_mul(acc) {
                Some(v) => {
                    acc = v;
                },
                None => {
                    return None;
                },
            }
        }
        Some(Shape { dims })
    }

    /// The extents.
    pub fn concrete(&self) -> (r: &Vec<usize>)
        ensures
            r@ == self@,
    {
        &self.dims
    }

    /// The rank.
    pub fn num_dims(&self) -> (r: usize)
        ensures
            r == self@.len(),
    {
        self.dims.len()
    }

    /// The number of elements.
    pub fn num_elements(&self) -> (r: usize)
        requires
            self.wf(),
        ensures
            r == num_elements(self@),
    {
        let n = self.dims.len();
        let mut k = n;
        let mut acc: usize = 1;
        while k > 0
            invariant
                n == self.dims@.len(),
                k <= n,
                fits(self.dims@),
                acc == num_elements(self.dims@.skip(k as int)),
            decreases k,
        {
            k -= 1;
            proof {
                lemma_num_elements_unfold(self.dims@, k as int);
            }
            acc = self.dims[k] * acc;
        }
        proof {
            assert(self.dims@.skip(0) =~= self.dims@);
        }
        acc
    }

    /// The strides of a contiguous buffer of this shape: one for the last
    /// dimension, and for each other the stride of the next times its extent.
    pub fn strides(&self) -> (r: Vec<usize>)
        requires
            self.wf(),
        ensures
            r@ == row_major_strides(self@),
    {
        let n = self.dims.len();
        let mut out: Vec<usize> = Vec::new();
        let mut i: usize = 0;
        while i < n
            invariant
                i <= n,
                out@.len() == i,
            decreases n - i,
        {
            out.push(0);
            i += 1;
        }
        let mut k = n;
        let mut acc: usize = 1;
        while k > 0
            invariant
                n == self.dims@.len(),
                out@.len() == n,
                k <= n,
                fits(self.dims@),
                acc == num_elements(self.dims@.skip(k as int)),
                forall|d: int| k <= d < n ==> out@[d] == stride_of(self.dims@, d),
            decreases k,
        {
            k -= 1;
            proof {
                lemma_num_elements_unfold(self.dims@, k as int);
            }
            out[k] = acc;
            acc = self.dims[k] * acc;
        }
        out
    }

    /// Whether no extent is zero.
    pub fn has_elements(&self) -> (r: bool)
        ensures
            r == !is_empty(self@),
    {
        let n = self.dims.len();
        let mut d: usize = 0;
        while d < n
            invariant
                n == self.dims@.len(),
                d <= n,
                forall|j: int| 0 <= j < d ==> self.dims@[j] != 0,
            decreases n - d,
        {
            if self.dims[d] == 0 {
                return false;
            }
            d += 1;
        }
        true
    }

    /// Whether the index names an element: it has the rank of the shape and
    /// stays below the extent in each dimension.
    pub fn contains(&self, index: &[usize]) -> (r: bool)
        ensures
            r == in_bounds(self@, index@),
    {
        let n = self.dims.len();
        if index.len() != n {
            return false;
        }
        let mut d: usize = 0;
        while d < n
            invariant
                n == self.dims@.len(),
                index@.len() == n,
                d <= n,
                forall|j: int| 0 <= j < d ==> index@[j] < self.dims@[j],
            decreases n - d,
        {
            if index[d] >= self.dims[d] {
                return false;
            }
            d += 1;
        }
        true
    }

    /// The multi-index of the element at flat position `k` of a contiguous
    /// buffer of this shape, given the row-major strides.
    pub fn unravel(&self, strides: &[usize], k: usize) -> (r: Vec<usize>)
        requires
            self.wf(),
            !is_empty(self@),
            strides@ == row_major_strides(self@),
        ensures
            r@ == unravel(self@, k as int),
            in_bounds(self@, r@),
    {
        let n = self.dims.len();
        let mut out: Vec<usize> = Vec::new();
        let mut d: usize = 0;
        while d < n
            invariant
                n == self.dims@.len(),
                d <= n,
                fits(self.dims@),
                !is_empty(self.dims@),
                strides@ == row_major_strides(self.dims@),
                out@.len() == d,
                forall|j: int| 0 <= j < d ==> out@[j] == unravel(self.dims@, k as int)[j],
            decreases n - d,
        {
            proof {
                lemma_num_elements_positive(self.dims@, d + 1);
            }
            out.push((k / strides[d]) % self.dims[d]);
            d += 1;
        }
        out
    }

    /// Whether a buffer of `len` elements holds every element that this
    /// shape addresses through the strides.
    pub fn covered_by(&self, strides: &[usize], len: usize) -> (r: bool)
        ensures
            r == covers(self@, strides@, len as nat),
    {
        let n = self.dims.len();
        if strides.len() != n {
            return false;
        }
        if !self.has_elements() {
            return true;
        }
        let mut k: usize = 0;
        let mut acc: usize = 0;
        while k < n
            invariant
                n == self.dims@.len(),
                strides@.len() == n,
                k <= n,
                !is_empty(self.dims@),
                acc + max_offset_from(self.dims@, strides@, k as int) == max_offset_from(
                    self.dims@,
                    strides@,
                    0,
                ),
            decreases n - k,
        {
            let term = match (self.dims[k] - 1).checked_mul(strides[k]) {
                Some(t) => t,
                None => {
                    return false;
                },
            };
            acc = match acc.checked_add(term) {
                Some(a) => a,
                None => {
                    return false;
                },
            };
            k += 1;
        }
        acc < len
    }
}

/// The flat offset of an index within the extents: the sum over the
/// dimensions of the index times the stride.
pub fn index_to_i(shape: &Shape, strides: &[usize], index: &[usize]) -> (r: usize)
    requires
        strides@.len() == shape@.len(),
        in_bounds(shape@, index@),
        offset(strides@, index@) <= usize::MAX,
    ensures
        r == offset(strides@, index@),
{
    let n = index.len();
    let mut k: usize = 0;
    let mut acc: usize = 0;
    while k < n
        invariant
            n == index@.len(),
            strides@.len() == n,
            k <= n,
            acc + offset_from(strides@, index@, k as int) == offset(strides@, index@),
            offset(strides@, index@) <= usize::MAX,
        decreases n - k,
    {
        acc = acc + index[k] * strides[k];
        k += 1;
    }
    acc
}

} // verus!
