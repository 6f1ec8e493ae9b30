//! Strided tensor views over borrowed data, and owned tensors.
use vstd::prelude::*;
use vstd::slice::slice_to_vec;
use crate::shape::checked_numel;
use crate::shape::numel;

verus! {

/// Element count of the dimensions of `s` from position `i` on.
pub open spec fn suffix_numel(s: Seq<usize>, i: int) -> nat {
    numel(s.subrange(i, s.len() as int))
}

/// Row-major strides fit in `isize`: every suffix product does.
pub open spec fn strides_fit(s: Seq<usize>) -> bool {
    forall|i: int| 0 <= i <= s.len() ==> #[trigger] suffix_numel(s, i) <= isize::MAX
}

/// Row-major strides of shape `s`: the stride of a dimension is the element count
/// of the dimensions after it.
pub open spec fn row_major(s: Seq<usize>, strides: Seq<isize>) -> bool {
    &&& strides.len() == s.len()
    &&& forall|i: int| 0 <= i < s.len() ==> #[trigger] strides[i] == suffix_numel(s, i + 1)
}

/// Offset of the element at `indices` for `strides`: the sum of index times stride
/// over the dimensions both cover.
pub open spec fn linear_index(indices: Seq<usize>, strides: Seq<isize>) -> int
    decreases indices.len(),
{
    if indices.len() == 0 || strides.len() == 0 {
        0
    } else {
        linear_index(indices.drop_last(), strides.subrange(0, indices.len() - 1))
            + indices.last() * strides[indices.len() - 1]
    }
}

proof fn lemma_numel_prepend(a: usize, t: Seq<usize>)
    ensures
        numel(seq![a] + t) == a * numel(t),
    decreases t.len(),
{
    if t.len() == 0 {
        assert((seq![a] + t).drop_last() =~= Seq::<usize>::empty());
        assert(numel(seq![a] + t) == numel(Seq::<usize>::empty()) * a);
        assert(numel(Seq::<usize>::empty()) == 1);
        assert(numel(t) == 1);
        assert(1 * (a as int) == (a as int) * 1);
    } else {
        lemma_numel_prepend(a, t.drop_last());
        assert((seq![a] + t).drop_last() =~= seq![a] + t.drop_last());
        assert((seq![a] + t).last() == t.last());
        let p = numel(t.drop_last());
        let l = t.last() as nat;
        assert(numel(t) == p * l);
        assert(numel(seq![a] + t) == numel(seq![a] + t.drop_last()) * l);
        assert(numel(seq![a] + t.drop_last()) == a * p);
        assert((a * p) * l == a * (p * l)) by (nonlinear_arith);
        assert(numel(seq![a] + t) == a * numel(t));
    }
}

proof fn lemma_suffix_step(s: Seq<usize>, i: int)
    requires
        0 <= i < s.len(),
    ensures
        suffix_numel(s, i) == s[i] * suffix_numel(s, i + 1),
{
    assert(s.subrange(i, s.len() as int) =~= seq![s[i]] + s.subrange(i + 1, s.len() as int));
    lemma_numel_prepend(s[i], s.subrange(i + 1, s.len() as int));
}

/// Row-major strides of `shape`, or `None` where they do not fit in `isize`.
pub fn checked_strides(shape: &[usize]) -> (r: Option<Vec<isize>>)
    ensures
        r is Some <==> strides_fit(shape@),
        r matches Some(v) ==> row_major(shape@, v@),
{
    let n = shape.len();
    let mut strides: Vec<isize> = vec![0isize; n];
    let mut stride: isize = 1;
    let mut i: usize = n;
    proof {
        assert(shape@.subrange(n as int, n as int).len() == 0);
    }
    while i > 0
        invariant
            i <= n,
            n == shape@.len(),
            strides@.len() == n,
            stride >= 0,
            stride as nat == suffix_numel(shape@, i as int),
            forall|j: int| i <= j <= n ==> #[trigger] suffix_numel(shape@, j) <= isize::MAX,
            forall|j: int| i <= j < n ==> #[trigger] strides@[j] == suffix_numel(shape@, j + 1),
        decreases i,
    {
        i = i - 1;
        strides.set(i, stride);
        proof {
            lemma_suffix_step(shape@, i as int);
            assert((shape@[i as int] as u128) * (stride as u128) < 0x1_0000_0000_0000_0000_0000_0000_0000_0000)
                by (nonlinear_arith)
                requires
                    shape@[i as int] < 0x1_0000_0000_0000_0000,
                    stride < 0x1_0000_0000_0000_0000,
                    stride >= 0,
            ;
        }
        let p: u128 = (shape[i] as u128) * (stride as u128);
        if p > isize::MAX as u128 {
            return None;
        }
        stride = p as isize;
    }
    Some(strides)
}

/// A view of `data` with a shape and strides.
#[derive(Debug)]
pub struct TensorView<'a, T> {
    pub data: &'a [T],
    pub shape: Vec<usize>,
    pub strides: Vec<isize>,
}

impl<'a, T: Copy> TensorView<'a, T> {
    /// A row-major view of `data` with `shape`.
    pub fn new(data: &'a [T], shape: Vec<usize>) -> (r: Self)
        requires
            strides_fit(shape@),
        ensures
            r.data@ == data@,
            r.shape@ == shape@,
            row_major(shape@, r.strides@),
    {
        let strides = match checked_strides(shape.as_slice()) {
            Some(s) => s,
            None => Vec::new(),
        };
        TensorView { data, shape, strides }
    }

    /// Number of elements of the underlying data.
    pub fn len(&self) -> (r: usize)
        ensures
            r == self.data@.len(),
    {
        self.data.len()
    }

    pub fn is_empty(&self) -> (r: bool)
        ensures
            r == (self.data@.len() == 0),
    {
        self.data.len() == 0
    }

    /// Number of dimensions.
    pub fn ndim(&self) -> (r: usize)
        ensures
            r == self.shape@.len(),
    {
        self.shape.len()
    }

    /// Offset of the element at `indices`: the sum of index times stride.
    pub fn index(&self, indices: &[usize]) -> (r: usize)
        requires
            indices@.len() == self.strides@.len(),
            forall|k: int| 0 <= k < self.strides@.len() ==> #[trigger] self.strides@[k] >= 0,
            linear_index(indices@, self.strides@) <= usize::MAX,
        ensures
            r == linear_index(indices@, self.strides@),
    {
        let n = indices.len();
        let mut sum: u128 = 0;
        let mut k: usize = 0;
        while k < n
            invariant
                n == indices@.len(),
                n == self.strides@.len(),
                k <= n,
                forall|j: int| 0 <= j < n ==> #[trigger] self.strides@[j] >= 0,
                linear_index(indices@, self.strides@) <= usize::MAX,
                sum == linear_index(indices@.subrange(0, k as int), self.strides@.subrange(0, k as int)),
                sum >= 0,
            decreases n - k,
        {
            proof {
                let ks = k as int;
                let ii = indices@.subrange(0, ks + 1);
                let ss = self.strides@.subrange(0, ks + 1);
                assert(ii.drop_last() =~= indices@.subrange(0, ks));
                assert(ss.subrange(0, ks) =~= self.strides@.subrange(0, ks));
                lemma_linear_prefix_le(indices@, self.strides@, ks + 1);
                assert(indices@[ks] * self.strides@[ks] >= 0) by (nonlinear_arith)
                    requires
                        self.strides@[ks] >= 0,
                        indices@[ks] >= 0,
                ;
                assert((indices@[ks] as u128) * (self.strides@[ks] as u128) < 0x1_0000_0000_0000_0000_0000_0000_0000_0000)
                    by (nonlinear_arith)
                    requires
                        indices@[ks] < 0x1_0000_0000_0000_0000,
                        self.strides@[ks] < 0x1_0000_0000_0000_0000,
                        self.strides@[ks] >= 0,
                ;
            }
            let term: u128 = (indices[k] as u128) * (self.strides[k] as u128);
            sum = sum + term;
            k = k + 1;
        }
        proof {
            assert(indices@.subrange(0, n as int) =~= indices@);
            assert(self.strides@.subrange(0, n as int) =~= self.strides@);
        }
        sum as usize
    }

    /// The element at `indices`.
    pub fn get(&self, indices: &[usize]) -> (r: T)
        requires
            indices@.len() == self.strides@.len(),
            forall|k: int| 0 <= k < self.strides@.len() ==> #[trigger] self.strides@[k] >= 0,
            linear_index(indices@, self.strides@) < self.data@.len(),
        ensures
            r == self.data@[linear_index(indices@, self.strides@)],
    {
        let _ = self.data.len();
        let idx = self.index(indices);
        self.data[idx]
    }

    /// The same data under `new_shape`, or `None` when the element counts differ
    /// (or the new strides would not fit in `isize`).
    pub fn reshape(&self, new_shape: Vec<usize>) -> (r: Option<TensorView<'a, T>>)
        ensures
            r is Some <==> numel(new_shape@) == self.data@.len() && strides_fit(new_shape@),
            r matches Some(v) ==> v.data@ == self.data@ && v.shape@ == new_shape@ && row_major(
                new_shape@,
                v.strides@,
            ),
    {
        let _ = self.data.len();
        match checked_numel(new_shape.as_slice()) {
            None => None,
            Some(total) => {
                if total != self.data.len() {
                    return None;
                }
                match checked_strides(new_shape.as_slice()) {
                    None => None,
                    Some(strides) => Some(TensorView { data: self.data, shape: new_shape, strides }),
                }
            },
        }
    }

    /// The view with its dimensions (and strides) in reverse order.
    pub fn transpose(&self) -> (r: TensorView<'a, T>)
        ensures
            r.data@ == self.data@,
            r.shape@ == self.shape@.reverse(),
            r.strides@ == self.strides@.reverse(),
    {
        TensorView {
            data: self.data,
            shape: reversed(self.shape.as_slice()),
            strides: reversed(self.strides.as_slice()),
        }
    }
}

/// With non-negative strides, a prefix of the sum never exceeds the whole.
proof fn lemma_linear_prefix_le(indices: Seq<usize>, strides: Seq<isize>, k: int)
    requires
        indices.len() == strides.len(),
        0 <= k <= indices.len(),
        forall|j: int| 0 <= j < strides.len() ==> #[trigger] strides[j] >= 0,
    ensures
        0 <= linear_index(indices.subrange(0, k), strides.subrange(0, k)) <= linear_index(
            indices,
            strides,
        ),
    decreases indices.len(),
{
    if indices.len() == 0 {
        assert(indices.subrange(0, k).len() == 0);
    } else if k == indices.len() {
        assert(indices.subrange(0, k) =~= indices);
        assert(strides.subrange(0, k) =~= strides);
        lemma_linear_nonneg(indices, strides);
    } else {
        let n = indices.len();
        let di = indices.drop_last();
        let ds = strides.subrange(0, n - 1);
        lemma_linear_prefix_le(di, ds, k);
        assert(di.subrange(0, k) =~= indices.subrange(0, k));
        assert(ds.subrange(0, k) =~= strides.subrange(0, k));
        assert(indices.last() * strides[n - 1] >= 0) by (nonlinear_arith)
            requires
                strides[n - 1] >= 0,
                indices.last() >= 0,
        ;
    }
}

proof fn lemma_linear_nonneg(indices: Seq<usize>, strides: Seq<isize>)
    requires
        indices.len() == strides.len(),
        forall|j: int| 0 <= j < strides.len() ==> #[trigger] strides[j] >= 0,
    ensures
        linear_index(indices, strides) >= 0,
    decreases indices.len(),
{
    if indices.len() > 0 {
        let n = indices.len();
        lemma_linear_nonneg(indices.drop_last(), strides.subrange(0, n - 1));
        assert(indices.last() * strides[n - 1] >= 0) by (nonlinear_arith)
            requires
                strides[n - 1] >= 0,
                indices.last() >= 0,
        ;
    }
}

/// `s` in reverse order.
fn reversed<T: Copy>(s: &[T]) -> (r: Vec<T>)
    ensures
        r@ == s@.reverse(),
{
    let n = s.len();
    let mut out: Vec<T> = Vec::new();
    let mut i: usize = n;
    while i > 0
        invariant
            i <= n,
            n == s@.len(),
            out@ == s@.subrange(i as int, n as int).reverse(),
        decreases i,
    {
        i = i - 1;
        out.push(s[i]);
        proof {
            assert(out@ =~= s@.subrange(i as int, n as int).reverse());
        }
    }
    proof {
        assert(s@.subrange(0, n as int) =~= s@);
    }
    out
}

/// An owned tensor: its elements in row-major order and its shape.
#[derive(Debug, Clone)]
pub struct Tensor<T> {
    pub data: Vec<T>,
    pub shape: Vec<usize>,
}

impl<T: Copy> Tensor<T> {
    pub fn new(data: Vec<T>, shape: Vec<usize>) -> (r: Self)
        ensures
            r.data@ == data@,
            r.shape@ == shape@,
    {
        Tensor { data, shape }
    }

    /// A tensor of `shape` whose elements are all `T::default()`.
    pub fn zeros(shape: Vec<usize>) -> (r: Self) where T: Default
        requires
            numel(shape@) <= usize::MAX,
        ensures
            r.shape@ == shape@,
            r.data@.len() == numel(shape@),
            forall|i: int, j: int|
                0 <= i < r.data@.len() && 0 <= j < r.data@.len() ==> r.data@[i] == r.data@[j],
    {
        let size = match checked_numel(shape.as_slice()) {
            Some(n) => n,
            None => 0,
        };
        let z = T::default();
        let mut data: Vec<T> = Vec::new();
        let mut i: usize = 0;
        while i < size
            invariant
                i <= size,
                data@.len() == i,
                forall|j: int| 0 <= j < i ==> data@[j] == z,
            decreases size - i,
        {
            data.push(z);
            i = i + 1;
        }
        Tensor { data, shape }
    }

    pub fn len(&self) -> (r: usize)
        ensures
            r == self.data@.len(),
    {
        self.data.len()
    }

    pub fn is_empty(&self) -> (r: bool)
        ensures
            r == (self.data@.len() == 0),
    {
        self.data.len() == 0
    }

    /// A row-major view of this tensor.
    pub fn view(&self) -> (r: TensorView<'_, T>)
        requires
            strides_fit(self.shape@),
        ensures
            r.data@ == self.data@,
            r.shape@ == self.shape@,
            row_major(self.shape@, r.strides@),
    {
        TensorView::new(self.data.as_slice(), slice_to_vec(self.shape.as_slice()))
    }

    /// The same elements under `new_shape`, or `None` when the element counts differ.
    pub fn reshape(self, new_shape: Vec<usize>) -> (r: Option<Self>)
        ensures
            r is Some <==> numel(new_shape@) == self.data@.len(),
            r matches Some(t) ==> t.data@ == self.data@ && t.shape@ == new_shape@,
    {
        let _ = self.data.len();
        match checked_numel(new_shape.as_slice()) {
            None => None,
            Some(total) => {
                if total != self.data.len() {
                    None
                } else {
                    Some(Tensor { data: self.data, shape: new_shape })
                }
            },
        }
    }
}

} // verus!
