//! Per-sequence key/value cache indexed by (layer, position).
use vstd::prelude::*;
use crate::error::ChatLoopError;
use crate::error::Result;

verus! {

/// Keys and values of past positions, one row of `num_heads * head_dim`
/// elements per (layer, position). Each layer fills its own prefix of
/// positions; the shared position counter `seq_len` counts the positions that
/// every layer holds, so once a step has been written at all layers, every
/// layer holds the same prefix `[0, seq_len)`.
pub struct KVCache<T> {
    keys: Vec<Vec<Vec<T>>>,
    values: Vec<Vec<Vec<T>>>,
    seq_len: usize,
    max_len: usize,
    num_layers: usize,
    num_heads: usize,
    head_dim: usize,
}

/// Whether the cache `b` is `a` with one more row `k`/`v` at `layer`, at position
/// `a.key_rows(layer).len()`, and every other layer unchanged.
pub open spec fn appended<T: Copy>(a: KVCache<T>, b: KVCache<T>, layer: int, k: Seq<T>, v: Seq<T>) -> bool {
    &&& b.num_layers_spec() == a.num_layers_spec()
    &&& b.capacity() == a.capacity()
    &&& b.row_width() == a.row_width()
    &&& b.key_rows(layer) == a.key_rows(layer).push(k)
    &&& b.value_rows(layer) == a.value_rows(layer).push(v)
    &&& forall|l: int|
        0 <= l < a.num_layers_spec() && l != layer ==> b.key_rows(l) == a.key_rows(l) && b.value_rows(l)
            == a.value_rows(l)
}

impl<T: Copy> KVCache<T> {
    /// Key rows of `layer`, by position.
    pub closed spec fn key_rows(self, layer: int) -> Seq<Seq<T>> {
        self.keys@[layer]@.map_values(|r: Vec<T>| r@)
    }

    /// Value rows of `layer`, by position.
    pub closed spec fn value_rows(self, layer: int) -> Seq<Seq<T>> {
        self.values@[layer]@.map_values(|r: Vec<T>| r@)
    }

    /// Positions complete in every layer.
    pub closed spec fn position(self) -> nat {
        self.seq_len as nat
    }

    pub closed spec fn capacity(self) -> nat {
        self.max_len as nat
    }

    pub closed spec fn num_layers_spec(self) -> nat {
        self.num_layers as nat
    }

    /// Elements per row: `num_heads * head_dim`.
    pub closed spec fn row_width(self) -> nat {
        (self.num_heads * self.head_dim) as nat
    }

    pub closed spec fn wf(self) -> bool {
        &&& self.keys@.len() == self.num_layers
        &&& self.values@.len() == self.num_layers
        &&& self.num_heads * self.head_dim <= usize::MAX
        &&& self.seq_len <= self.max_len
        &&& forall|l: int|
            0 <= l < self.num_layers ==> {
                &&& (#[trigger] self.keys@[l])@.len() == self.values@[l]@.len()
                &&& self.seq_len <= self.keys@[l]@.len() <= self.max_len
            }
        &&& self.num_layers > 0 ==> exists|l: int|
            0 <= l < self.num_layers && (#[trigger] self.keys@[l])@.len() == self.seq_len
    }

    /// An empty cache for `num_layers` layers of `num_heads * head_dim` elements per
    /// row, holding at most `max_len` positions.
    pub fn new(num_layers: usize, num_heads: usize, head_dim: usize, max_len: usize) -> (r: Self)
        requires
            num_heads * head_dim <= usize::MAX,
        ensures
            r.wf(),
            r.num_layers_spec() == num_layers,
            r.capacity() == max_len,
            r.row_width() == num_heads * head_dim,
            r.position() == 0,
            forall|l: int| 0 <= l < num_layers ==> r.key_rows(l).len() == 0 && r.value_rows(l).len() == 0,
    {
        let mut keys: Vec<Vec<Vec<T>>> = Vec::new();
        let mut values: Vec<Vec<Vec<T>>> = Vec::new();
        let mut i: usize = 0;
        while i < num_layers
            invariant
                i <= num_layers,
                keys@.len() == i,
                values@.len() == i,
                forall|l: int| 0 <= l < i ==> (#[trigger] keys@[l])@.len() == 0 && values@[l]@.len() == 0,
            decreases num_layers - i,
        {
            keys.push(Vec::new());
            values.push(Vec::new());
            i = i + 1;
        }
        let r = KVCache { keys, values, seq_len: 0, max_len, num_layers, num_heads, head_dim };
        proof {
            if num_layers > 0 {
                assert(r.keys@[0]@.len() == 0);
            }
        }
        r
    }

    /// Store the key and value rows of the next position of `layer`. Fails with a
    /// `Tensor` error when the layer is out of range, a row has the wrong width,
    /// or the layer already holds `max_len` positions.
    pub fn append(&mut self, layer_idx: usize, keys: &[T], values: &[T]) -> (r: Result<()>)
        requires
            old(self).wf(),
        ensures
            final(self).wf(),
            r is Ok <==> layer_idx < old(self).num_layers_spec() && keys@.len() == old(self).row_width()
                && values@.len() == old(self).row_width() && old(self).key_rows(layer_idx as int).len()
                < old(self).capacity(),
            r is Ok ==> appended(*old(self), *final(self), layer_idx as int, keys@, values@),
            r is Ok ==> final(self).position() == if (forall|l: int|
                0 <= l < final(self).num_layers_spec() ==> #[trigger] final(self).key_rows(l).len()
                    > old(self).position()) {
                old(self).position() + 1
            } else {
                old(self).position()
            },
            r matches Err(e) ==> e is Tensor && *final(self) == *old(self),
    {
        if layer_idx >= self.num_layers {
            return Err(ChatLoopError::tensor("Layer index out of bounds"));
        }
        let width = self.num_heads * self.head_dim;
        if keys.len() != width || values.len() != width {
            return Err(ChatLoopError::tensor("Key/value row has the wrong width"));
        }
        if self.keys[layer_idx].len() >= self.max_len {
            return Err(ChatLoopError::tensor("KV cache full"));
        }
        let ghost old_self = *self;
        let krow = vstd::slice::slice_to_vec(keys);
        let vrow = vstd::slice::slice_to_vec(values);
        self.keys[layer_idx].push(krow);
        self.values[layer_idx].push(vrow);
        proof {
            assert(self.key_rows(layer_idx as int) =~= old_self.key_rows(layer_idx as int).push(keys@));
            assert(self.value_rows(layer_idx as int) =~= old_self.value_rows(layer_idx as int).push(
                values@,
            ));
            assert forall|l: int| 0 <= l < self.num_layers && l != layer_idx implies self.key_rows(l) == old_self.key_rows(l)
                && self.value_rows(l) == old_self.value_rows(l) by {
                assert(self.keys@[l] == old_self.keys@[l]);
                assert(self.values@[l] == old_self.values@[l]);
            }
        }
        let n = self.num_layers;
        let mut all: bool = true;
        let mut i: usize = 0;
        while i < n
            invariant
                n == self.num_layers,
                i <= n,
                self.keys@.len() == n,
                self.seq_len < self.max_len,
                self.seq_len == old_self.seq_len,
                all == forall|l: int| 0 <= l < i ==> (#[trigger] self.keys@[l])@.len() > self.seq_len,
            decreases n - i,
        {
            if self.keys[i].len() <= self.seq_len {
                all = false;
            }
            i = i + 1;
        }
        proof {
            assert forall|l: int| 0 <= l < n implies #[trigger] self.key_rows(l).len()
                == self.keys@[l]@.len() by {}
            if all {
                assert forall|l: int| 0 <= l < self.num_layers implies #[trigger] self.key_rows(l).len()
                    > old_self.position() by {
                    assert(self.keys@[l]@.len() > self.seq_len);
                }
            } else {
                let l = choose|l: int|
                    !(0 <= l < n ==> (#[trigger] self.keys@[l])@.len() > self.seq_len);
                assert(!(self.key_rows(l).len() > old_self.position()));
            }
        }
        if all {
            proof {
                let w = choose|l: int|
                    0 <= l < old_self.num_layers && (#[trigger] old_self.keys@[l])@.len() == old_self.seq_len;
                if w != layer_idx {
                    assert(self.keys@[w] == old_self.keys@[w]);
                    assert(self.keys@[w]@.len() > self.seq_len);
                }
                assert(self.keys@[layer_idx as int]@.len() == self.seq_len + 1);
            }
            self.seq_len = self.seq_len + 1;
        } else {
            proof {
                let l = choose|l: int|
                    0 <= l < self.num_layers && !((#[trigger] self.keys@[l])@.len() > self.seq_len);
                assert(self.keys@[l]@.len() == self.seq_len);
            }
        }
        Ok(())
    }

    /// The key row at (`layer_idx`, `pos`), if it has been written.
    pub fn get_keys(&self, layer_idx: usize, pos: usize) -> (r: Option<&[T]>)
        requires
            self.wf(),
        ensures
            r is Some <==> layer_idx < self.num_layers_spec() && pos < self.key_rows(layer_idx as int).len(),
            r matches Some(s) ==> s@ == self.key_rows(layer_idx as int)[pos as int],
    {
        if layer_idx >= self.num_layers || pos >= self.keys[layer_idx].len() {
            return None;
        }
        Some(self.keys[layer_idx][pos].as_slice())
    }

    /// The value row at (`layer_idx`, `pos`), if it has been written.
    pub fn get_values(&self, layer_idx: usize, pos: usize) -> (r: Option<&[T]>)
        requires
            self.wf(),
        ensures
            r is Some <==> layer_idx < self.num_layers_spec() && pos < self.value_rows(layer_idx as int).len(),
            r matches Some(s) ==> s@ == self.value_rows(layer_idx as int)[pos as int],
    {
        if layer_idx >= self.num_layers || pos >= self.values[layer_idx].len() {
            return None;
        }
        Some(self.values[layer_idx][pos].as_slice())
    }

    /// Drop every stored row; the position returns to zero.
    pub fn reset(&mut self)
        requires
            old(self).wf(),
        ensures
            final(self).wf(),
            final(self).position() == 0,
            final(self).capacity() == old(self).capacity(),
            final(self).num_layers_spec() == old(self).num_layers_spec(),
            final(self).row_width() == old(self).row_width(),
            forall|l: int|
                0 <= l < final(self).num_layers_spec() ==> final(self).key_rows(l).len() == 0
                    && final(self).value_rows(l).len() == 0,
    {
        let n = self.num_layers;
        let mut keys: Vec<Vec<Vec<T>>> = Vec::new();
        let mut values: Vec<Vec<Vec<T>>> = Vec::new();
        let mut i: usize = 0;
        while i < n
            invariant
                i <= n,
                keys@.len() == i,
                values@.len() == i,
                forall|l: int| 0 <= l < i ==> (#[trigger] keys@[l])@.len() == 0 && values@[l]@.len() == 0,
            decreases n - i,
        {
            keys.push(Vec::new());
            values.push(Vec::new());
            i = i + 1;
        }
        self.keys = keys;
        self.values = values;
        self.seq_len = 0;
        proof {
            if n > 0 {
                assert(self.keys@[0]@.len() == 0);
            }
        }
    }

    /// Empty the cache and change its capacity to `new_max_len` positions.
    pub fn resize(&mut self, new_max_len: usize)
        requires
            old(self).wf(),
        ensures
            final(self).wf(),
            final(self).position() == 0,
            final(self).capacity() == new_max_len,
            final(self).num_layers_spec() == old(self).num_layers_spec(),
            final(self).row_width() == old(self).row_width(),
            forall|l: int|
                0 <= l < final(self).num_layers_spec() ==> final(self).key_rows(l).len() == 0
                    && final(self).value_rows(l).len() == 0,
    {
        self.reset();
        proof {
            assert forall|l: int| 0 <= l < self.num_layers implies (#[trigger] self.keys@[l])@.len()
                == 0 && self.values@[l]@.len() == 0 by {
                assert(self.key_rows(l).len() == 0);
                assert(self.value_rows(l).len() == 0);
            }
            if self.num_layers > 0 {
                assert(self.keys@[0]@.len() == 0);
            }
        }
        self.max_len = new_max_len;
    }

    /// Positions held at `layer_idx` (zero for a layer out of range).
    pub fn layer_len(&self, layer_idx: usize) -> (r: usize)
        requires
            self.wf(),
        ensures
            layer_idx < self.num_layers_spec() ==> r == self.key_rows(layer_idx as int).len(),
            layer_idx >= self.num_layers_spec() ==> r == 0,
    {
        if layer_idx >= self.num_layers {
            return 0;
        }
        self.keys[layer_idx].len()
    }

    /// Positions complete in every layer.
    pub fn seq_len(&self) -> (r: usize)
        ensures
            r == self.position(),
    {
        self.seq_len
    }

    /// Most positions the cache can hold.
    pub fn max_len(&self) -> (r: usize)
        ensures
            r == self.capacity(),
    {
        self.max_len
    }
}

/// Appends observed at one layer land at strictly increasing positions: the
/// second of two successive appends at `layer` is placed after the first, and
/// the first row stays where it was put.
pub proof fn lemma_append_positions_increase<T: Copy>(
    c0: KVCache<T>,
    c1: KVCache<T>,
    c2: KVCache<T>,
    layer: int,
    k1: Seq<T>,
    v1: Seq<T>,
    k2: Seq<T>,
    v2: Seq<T>,
)
    requires
        appended(c0, c1, layer, k1, v1),
        appended(c1, c2, layer, k2, v2),
    ensures
        c0.key_rows(layer).len() < c1.key_rows(layer).len(),
        c2.key_rows(layer)[c0.key_rows(layer).len() as int] == k1,
        c2.key_rows(layer)[c1.key_rows(layer).len() as int] == k2,
        c2.value_rows(layer)[c0.value_rows(layer).len() as int] == v1,
{
}

} // verus!
