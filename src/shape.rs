//! Shapes: element counts and row-major strides.
use vstd::prelude::*;

verus! {

/// Number of elements of a tensor of shape `s`: the product of its dimensions.
pub open spec fn numel(s: Seq<usize>) -> nat
    decreases s.len(),
{
    if s.len() == 0 {
        1
    } else {
        numel(s.drop_last()) * (s.last() as nat)
    }
}

/// A shape with a zero dimension has no elements.
pub proof fn lemma_numel_zero(s: Seq<usize>, k: int)
    requires
        0 <= k < s.len(),
        s[k] == 0,
    ensures
        numel(s) == 0,
    decreases s.len(),
{
    if k < s.len() - 1 {
        assert(s.drop_last()[k] == s[k]);
        lemma_numel_zero(s.drop_last(), k);
        assert(numel(s) == 0 * (s.last() as nat));
    } else {
        assert(numel(s) == numel(s.drop_last()) * 0);
    }
}

/// With every dimension at least one, a prefix never has more elements than the whole.
pub proof fn lemma_numel_prefix_le(s: Seq<usize>, k: int)
    requires
        0 <= k <= s.len(),
        forall|i: int| 0 <= i < s.len() ==> s[i] >= 1,
    ensures
        numel(s.subrange(0, k)) <= numel(s),
    decreases s.len(),
{
    if k < s.len() {
        lemma_numel_prefix_le(s.drop_last(), k);
        assert(s.drop_last().subrange(0, k) =~= s.subrange(0, k));
        let a = numel(s.drop_last());
        let b = s.last() as nat;
        assert(a <= a * b) by (nonlinear_arith)
            requires
                b >= 1,
        ;
    } else {
        assert(s.subrange(0, k) =~= s);
    }
}

/// The element count of `shape`, or `None` where it does not fit in a `usize`.
pub fn checked_numel(shape: &[usize]) -> (r: Option<usize>)
    ensures
        r == (if numel(shape@) <= usize::MAX {
            Some(numel(shape@) as usize)
        } else {
            None::<usize>
        }),
{
    let n = shape.len();
    let mut i: usize = 0;
    while i < n
        invariant
            n == shape@.len(),
            i <= n,
            forall|j: int| 0 <= j < i ==> shape@[j] >= 1,
        decreases n - i,
    {
        if shape[i] == 0 {
            proof {
                lemma_numel_zero(shape@, i as int);
            }
            return Some(0);
        }
        i = i + 1;
    }
    let mut p: usize = 1;
    let mut k: usize = 0;
    while k < n
        invariant
            n == shape@.len(),
            k <= n,
            forall|j: int| 0 <= j < n ==> shape@[j] >= 1,
            p as nat == numel(shape@.subrange(0, k as int)),
        decreases n - k,
    {
        proof {
            assert(shape@.subrange(0, k + 1).drop_last() =~= shape@.subrange(0, k as int));
        }
        match p.checked_mul(shape[k]) {
            Some(q) => {
                p = q;
                k = k + 1;
            },
            None => {
                proof {
                    lemma_numel_prefix_le(shape@, k + 1);
                }
                return None;
            },
        }
    }
    proof {
        assert(shape@.subrange(0, n as int) =~= shape@);
    }
    Some(p)
}

} // verus!
