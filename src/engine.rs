//! The inference engine's state: the model partition it serves and one key/value
//! cache per sequence. The forward arithmetic runs outside this library.
use vstd::prelude::*;
use crate::config::LayerGroupConfig;
use crate::kv_cache::KVCache;
use crate::kv_cache::appended;
use crate::container::SafeTensorView;
use crate::error::ChatLoopError;
use crate::error::Result;
use crate::model::AttentionWeights;
use crate::model::LayerNormWeights;
use crate::model::MlpWeights;
use crate::model::ModelPartition;
use crate::model::layer_tensor_shape;
use crate::model::is_layer_tensor;

verus! {

/// Positions each sequence's cache holds.
pub const MAX_SEQUENCE_POSITIONS: usize = 2048;

/// Number of layers a group owns.
pub open spec fn owned_layers(g: LayerGroupConfig) -> nat {
    if g.end_layer >= g.start_layer {
        (g.end_layer - g.start_layer) as nat
    } else {
        0
    }
}

/// All weights of one layer.
pub struct LayerWeights<'a> {
    pub attention: AttentionWeights<'a>,
    pub mlp: MlpWeights<'a>,
    pub norm: LayerNormWeights<'a>,
}

/// A view has exactly the dimensions `dims`.
pub open spec fn has_shape(v: SafeTensorView, dims: Seq<usize>) -> bool {
    v.view_shape() == dims
}

/// Every weight of a layer has the shape the layer group's dimensions call for:
/// projections are stored one output row per line (`out × in`), norms as vectors.
pub open spec fn layer_shapes_ok(w: LayerWeights, g: LayerGroupConfig) -> bool {
    let width = (g.num_heads * g.head_dim) as usize;
    &&& has_shape(w.attention.q_proj, seq![width, g.hidden_dim])
    &&& has_shape(w.attention.k_proj, seq![width, g.hidden_dim])
    &&& has_shape(w.attention.v_proj, seq![width, g.hidden_dim])
    &&& has_shape(w.attention.o_proj, seq![g.hidden_dim, width])
    &&& has_shape(w.mlp.gate_proj, seq![g.intermediate_dim, g.hidden_dim])
    &&& has_shape(w.mlp.up_proj, seq![g.intermediate_dim, g.hidden_dim])
    &&& has_shape(w.mlp.down_proj, seq![g.hidden_dim, g.intermediate_dim])
    &&& has_shape(w.norm.attention_norm, seq![g.hidden_dim])
    &&& has_shape(w.norm.ffn_norm, seq![g.hidden_dim])
}

/// The stored weights of `layer` have the shapes `layer_shapes_ok` asks for.
pub open spec fn stored_shapes_ok(m: ModelPartition, layer: nat, g: LayerGroupConfig) -> bool {
    let width = (g.num_heads * g.head_dim) as usize;
    let b = m.buffer();
    &&& layer_tensor_shape(b, layer, "attention.wq.weight"@) == seq![width, g.hidden_dim]
    &&& layer_tensor_shape(b, layer, "attention.wk.weight"@) == seq![width, g.hidden_dim]
    &&& layer_tensor_shape(b, layer, "attention.wv.weight"@) == seq![width, g.hidden_dim]
    &&& layer_tensor_shape(b, layer, "attention.wo.weight"@) == seq![g.hidden_dim, width]
    &&& layer_tensor_shape(b, layer, "feed_forward.gate_proj.weight"@) == seq![g.intermediate_dim, g.hidden_dim]
    &&& layer_tensor_shape(b, layer, "feed_forward.up_proj.weight"@) == seq![g.intermediate_dim, g.hidden_dim]
    &&& layer_tensor_shape(b, layer, "feed_forward.down_proj.weight"@) == seq![g.hidden_dim, g.intermediate_dim]
    &&& layer_tensor_shape(b, layer, "attention_norm.weight"@) == seq![g.hidden_dim]
    &&& layer_tensor_shape(b, layer, "ffn_norm.weight"@) == seq![g.hidden_dim]
}

fn shape_is(v: &SafeTensorView, dims: &[usize]) -> (r: bool)
    ensures
        r == has_shape(*v, dims@),
{
    crate::container::usize_slices_equal(v.shape(), dims)
}

/// Number of rows of `hidden_dim` activations in `len` values; a `Tensor` error
/// when they are not whole rows (or `hidden_dim` is zero).
pub fn hidden_rows(len: usize, hidden_dim: usize) -> (r: Result<usize>)
    ensures
        r is Ok <==> hidden_dim > 0 && len % hidden_dim == 0,
        r matches Ok(n) ==> n * hidden_dim == len,
        r matches Err(e) ==> e is Tensor,
{
    if hidden_dim == 0 || len % hidden_dim != 0 {
        return Err(ChatLoopError::tensor("Hidden states are not whole rows"));
    }
    proof {
        vstd::arithmetic::div_mod::lemma_fundamental_div_mod(len as int, hidden_dim as int);
        assert((len / hidden_dim) * hidden_dim == hidden_dim * (len / hidden_dim)) by (nonlinear_arith);
    }
    Ok(len / hidden_dim)
}

/// A cache holds one layer per owned layer, rows of `num_heads * head_dim`
/// elements, and `MAX_SEQUENCE_POSITIONS` positions.
pub open spec fn cache_sized<T: Copy>(c: KVCache<T>, g: LayerGroupConfig) -> bool {
    &&& c.num_layers_spec() == owned_layers(g)
    &&& c.row_width() == g.num_heads * g.head_dim
    &&& c.capacity() == MAX_SEQUENCE_POSITIONS
}

/// An append of rows of `klen` and `vlen` elements at cache layer `layer` fits the
/// shape of the group's caches.
pub open spec fn append_admitted(g: LayerGroupConfig, layer: usize, klen: nat, vlen: nat) -> bool {
    &&& layer < owned_layers(g)
    &&& klen == g.num_heads * g.head_dim
    &&& vlen == g.num_heads * g.head_dim
}

/// Owner of a model partition and of the key/value caches of its sequences.
pub struct InferenceEngine<'a, T> {
    model: ModelPartition<'a>,
    config: LayerGroupConfig,
    kv_caches: Vec<(u64, KVCache<T>)>,
}

impl<'a, T: Copy> InferenceEngine<'a, T> {
    /// The sequence ids that have a cache, in order of first use.
    pub closed spec fn sequences(&self) -> Seq<u64> {
        self.kv_caches@.map_values(|e: (u64, KVCache<T>)| e.0)
    }

    /// The cache of the `i`-th sequence.
    pub closed spec fn cache_at(&self, i: int) -> KVCache<T> {
        self.kv_caches@[i].1
    }

    pub closed spec fn layer_group(&self) -> LayerGroupConfig {
        self.config
    }

    /// Every cache is well formed, sized for the owned layers, and each sequence
    /// has at most one.
    pub closed spec fn wf(&self) -> bool {
        &&& forall|i: int| 0 <= i < self.kv_caches@.len() ==> (#[trigger] self.kv_caches@[i]).1.wf()
        &&& forall|i: int|
            0 <= i < self.kv_caches@.len() ==> cache_sized(#[trigger] self.kv_caches@[i].1, self.config)
        &&& forall|i: int, j: int|
            0 <= i < j < self.kv_caches@.len() ==> (#[trigger] self.kv_caches@[i]).0
                != (#[trigger] self.kv_caches@[j]).0
    }

    /// An engine serving `model` for the layer group `config`, with no caches yet.
    pub fn new(model: ModelPartition<'a>, config: LayerGroupConfig) -> (r: Self)
        ensures
            r.wf(),
            r.sequences().len() == 0,
            r.layer_group() == config,
            r.partition() == model,
    {
        InferenceEngine { model, config, kv_caches: Vec::new() }
    }

    /// The model partition served.
    pub closed spec fn partition(&self) -> ModelPartition<'a> {
        self.model
    }

    /// The model partition.
    pub fn model(&self) -> (r: &ModelPartition<'a>)
        ensures
            *r == self.partition(),
    {
        &self.model
    }

    /// The layer group.
    pub fn config(&self) -> (r: LayerGroupConfig)
        ensures
            r == self.layer_group(),
    {
        self.config
    }

    /// Position of the cache of `sequence_id`, creating an empty one (one layer per
    /// owned layer, layer `start_layer` first) on first use.
    pub fn cache_index(&mut self, sequence_id: u64) -> (r: usize)
        requires
            old(self).wf(),
            old(self).layer_group().num_heads * old(self).layer_group().head_dim <= usize::MAX,
        ensures
            final(self).wf(),
            final(self).layer_group() == old(self).layer_group(),
            final(self).partition() == old(self).partition(),
            r < final(self).sequences().len(),
            final(self).sequences()[r as int] == sequence_id,
            old(self).sequences().contains(sequence_id) ==> final(self).sequences() == old(
                self,
            ).sequences() && forall|i: int|
                0 <= i < final(self).sequences().len() ==> #[trigger] final(self).cache_at(i) == old(
                    self,
                ).cache_at(i),
            !old(self).sequences().contains(sequence_id) ==> {
                &&& final(self).sequences() == old(self).sequences().push(sequence_id)
                &&& r == old(self).sequences().len()
                &&& final(self).cache_at(r as int).position() == 0
                &&& final(self).cache_at(r as int).capacity() == MAX_SEQUENCE_POSITIONS
                &&& final(self).cache_at(r as int).num_layers_spec() == owned_layers(old(self).layer_group())
                &&& forall|l: int| 0 <= l < owned_layers(old(self).layer_group()) ==> (#[trigger] final(self).cache_at(r as int).key_rows(l)).len() == 0
                    && final(self).cache_at(r as int).value_rows(l).len() == 0
                &&& forall|i: int| 0 <= i < r ==> #[trigger] final(self).cache_at(i) == old(self).cache_at(i)
            },
    {
        let n = self.kv_caches.len();
        let mut i: usize = 0;
        while i < n
            invariant
                n == self.kv_caches@.len(),
                i <= n,
                self.wf(),
                forall|j: int| 0 <= j < i ==> (#[trigger] self.kv_caches@[j]).0 != sequence_id,
            decreases n - i,
        {
            if self.kv_caches[i].0 == sequence_id {
                proof {
                    assert(self.sequences()[i as int] == sequence_id);
                }
                return i;
            }
            i = i + 1;
        }
        proof {
            assert forall|j: int| 0 <= j < self.sequences().len() implies self.sequences()[j]
                != sequence_id by {
                assert(self.sequences()[j] == self.kv_caches@[j].0);
            }
        }
        let layers = if self.config.end_layer >= self.config.start_layer {
            self.config.end_layer - self.config.start_layer
        } else {
            0
        };
        let cache = KVCache::new(
            layers,
            self.config.num_heads,
            self.config.head_dim,
            MAX_SEQUENCE_POSITIONS,
        );
        let ghost before = self.kv_caches@;
        self.kv_caches.push((sequence_id, cache));
        proof {
            assert(self.sequences() =~= before.map_values(|e: (u64, KVCache<T>)| e.0).push(sequence_id));
            assert forall|j: int| 0 <= j < n implies #[trigger] self.cache_at(j) == before[j].1 by {
                assert(self.kv_caches@[j] == before[j]);
            }
            assert forall|j: int| 0 <= j < self.kv_caches@.len() implies cache_sized(
                #[trigger] self.kv_caches@[j].1,
                self.config,
            ) by {
                if j < n {
                    assert(self.kv_caches@[j] == before[j]);
                }
            }
        }
        n
    }

    /// The cache of `sequence_id`, created empty on first use.
    pub fn get_kv_cache(&mut self, sequence_id: u64) -> (r: &KVCache<T>)
        requires
            old(self).wf(),
            old(self).layer_group().num_heads * old(self).layer_group().head_dim <= usize::MAX,
        ensures
            final(self).wf(),
            final(self).layer_group() == old(self).layer_group(),
            final(self).partition() == old(self).partition(),
            r.wf(),
            final(self).sequences() == if old(self).sequences().contains(sequence_id) {
                old(self).sequences()
            } else {
                old(self).sequences().push(sequence_id)
            },
            exists|i: int|
                0 <= i < final(self).sequences().len() && final(self).sequences()[i] == sequence_id
                    && *r == #[trigger] final(self).cache_at(i),
    {
        let i = self.cache_index(sequence_id);
        proof {
            assert(self.kv_caches@[i as int].1.wf());
            assert(self.cache_at(i as int) == self.kv_caches@[i as int].1);
        }
        &self.kv_caches[i].1
    }

    /// Append the key and value rows of the next position of `sequence_id` at cache
    /// layer `layer_idx` (owned layer `start_layer + layer_idx`), creating the sequence's cache on first use. Errors are those
    /// of `KVCache::append`; other sequences' caches are untouched.
    pub fn append_kv(&mut self, sequence_id: u64, layer_idx: usize, keys: &[T], values: &[T]) -> (r:
        crate::error::Result<()>)
        requires
            old(self).wf(),
            old(self).layer_group().num_heads * old(self).layer_group().head_dim <= usize::MAX,
        ensures
            final(self).wf(),
            final(self).layer_group() == old(self).layer_group(),
            final(self).partition() == old(self).partition(),
            final(self).sequences() == if old(self).sequences().contains(sequence_id) {
                old(self).sequences()
            } else {
                old(self).sequences().push(sequence_id)
            },
            forall|j: int|
                0 <= j < old(self).sequences().len() && old(self).sequences()[j] != sequence_id
                    ==> #[trigger] final(self).cache_at(j) == old(self).cache_at(j),
            forall|j: int|
                0 <= j < old(self).sequences().len() && old(self).sequences()[j] == sequence_id ==> {
                    &&& (r is Ok <==> append_admitted(
                        old(self).layer_group(),
                        layer_idx,
                        keys@.len(),
                        values@.len(),
                    ) && (#[trigger] old(self).cache_at(j)).key_rows(layer_idx as int).len()
                        < MAX_SEQUENCE_POSITIONS)
                    &&& (r is Ok ==> appended(
                        old(self).cache_at(j),
                        final(self).cache_at(j),
                        layer_idx as int,
                        keys@,
                        values@,
                    ))
                    &&& (r is Err ==> final(self).cache_at(j) == old(self).cache_at(j))
                },
            !old(self).sequences().contains(sequence_id) ==> {
                let c = final(self).cache_at(old(self).sequences().len() as int);
                &&& (r is Ok <==> append_admitted(
                    old(self).layer_group(),
                    layer_idx,
                    keys@.len(),
                    values@.len(),
                ))
                &&& forall|l: int|
                    0 <= l < owned_layers(old(self).layer_group()) ==> (#[trigger] c.key_rows(l))
                        == (if r is Ok && l == layer_idx {
                        seq![keys@]
                    } else {
                        Seq::empty()
                    }) && c.value_rows(l) == (if r is Ok && l == layer_idx {
                        seq![values@]
                    } else {
                        Seq::empty()
                    })
            },
            r matches Err(e) ==> e is Tensor,
    {
        let ghost old_self = *self;
        let i = self.cache_index(sequence_id);
        let ghost mid = self.kv_caches@;
        let ghost mid_self = *self;
        proof {
            assert(self.kv_caches@[i as int].1.wf());
            assert forall|j: int|
                0 <= j < old_self.sequences().len() && old_self.sequences()[j] != sequence_id implies j
                != i && #[trigger] mid[j].1 == old_self.cache_at(j) by {
                assert(mid_self.sequences()[j] == old_self.sequences()[j]);
                assert(mid_self.cache_at(j) == mid[j].1);
                if !old_self.sequences().contains(sequence_id) {
                    assert(j < i);
                }
            }
        }
        let r = self.kv_caches[i].1.append(layer_idx, keys, values);
        proof {
            assert forall|j: int| 0 <= j < self.kv_caches@.len() && j != i implies (#[trigger] self.kv_caches@[j]) == mid[j] by {}
            assert forall|j: int|
                0 <= j < old_self.sequences().len() && old_self.sequences()[j] != sequence_id implies #[trigger] self.cache_at(j)
                == old_self.cache_at(j) by {
                assert(mid[j].1 == old_self.cache_at(j));
                assert(self.kv_caches@[j] == mid[j]);
            }
            assert(self.sequences() =~= mid.map_values(|e: (u64, KVCache<T>)| e.0));
            let c0 = mid[i as int].1;
            let c1 = self.kv_caches@[i as int].1;
            assert(cache_sized(c0, self.config));
            assert(c1 == self.cache_at(i as int));
            if old_self.sequences().contains(sequence_id) {
                assert forall|j: int|
                    0 <= j < old_self.sequences().len() && old_self.sequences()[j] == sequence_id implies j
                    == i by {
                    assert(mid_self.sequences()[j] == sequence_id);
                    assert(mid_self.sequences()[j] == mid[j].0);
                    assert(mid_self.sequences()[i as int] == mid[i as int].0);
                }
                assert(c0 == mid_self.cache_at(i as int));
            } else {
                assert(i == old_self.sequences().len());
                assert forall|l: int| 0 <= l < owned_layers(self.config) implies (#[trigger] c1.key_rows(l))
                    == (if r is Ok && l == layer_idx {
                    seq![keys@]
                } else {
                    Seq::empty()
                }) && c1.value_rows(l) == (if r is Ok && l == layer_idx {
                    seq![values@]
                } else {
                    Seq::empty()
                }) by {
                    assert(c0 == mid_self.cache_at(i as int));
                    assert(mid_self.cache_at(i as int).key_rows(l).len() == 0);
                    assert(c0.key_rows(l).len() == 0 && c0.value_rows(l).len() == 0);
                    if r is Ok && l == layer_idx {
                        assert(c1.key_rows(l) =~= seq![keys@]);
                        assert(c1.value_rows(l) =~= seq![values@]);
                    } else {
                        assert(c1.key_rows(l) =~= Seq::<Seq<T>>::empty());
                        assert(c1.value_rows(l) =~= Seq::<Seq<T>>::empty());
                    }
                }
            }
            assert forall|k: int| 0 <= k < self.kv_caches@.len() implies cache_sized(
                #[trigger] self.kv_caches@[k].1,
                self.config,
            ) by {
                if k != i {
                    assert(self.kv_caches@[k] == mid[k]);
                }
            }
        }
        r
    }

    /// The weights of `layer`: a `Model` error when the layer is not owned or a
    /// bundle is missing, a `Tensor` error when a weight has the wrong shape.
    pub fn layer_weights(&self, layer: usize) -> (r: Result<LayerWeights<'a>>)
        requires
            self.layer_group().num_heads * self.layer_group().head_dim <= usize::MAX,
        ensures
            r is Ok <==> crate::model::owns(self.partition().layer_group(), layer)
                && self.partition().has_bundles(layer) && stored_shapes_ok(
                self.partition(),
                layer as nat,
                self.layer_group(),
            ),
            r matches Ok(w) ==> layer_shapes_ok(w, self.layer_group()),
            r matches Ok(w) ==> is_layer_tensor(self.partition().buffer(), layer as nat, "attention.wq.weight"@, w.attention.q_proj)
                && is_layer_tensor(self.partition().buffer(), layer as nat, "attention.wk.weight"@, w.attention.k_proj)
                && is_layer_tensor(self.partition().buffer(), layer as nat, "attention.wv.weight"@, w.attention.v_proj)
                && is_layer_tensor(self.partition().buffer(), layer as nat, "attention.wo.weight"@, w.attention.o_proj)
                && is_layer_tensor(self.partition().buffer(), layer as nat, "feed_forward.gate_proj.weight"@, w.mlp.gate_proj)
                && is_layer_tensor(self.partition().buffer(), layer as nat, "feed_forward.up_proj.weight"@, w.mlp.up_proj)
                && is_layer_tensor(self.partition().buffer(), layer as nat, "feed_forward.down_proj.weight"@, w.mlp.down_proj)
                && is_layer_tensor(self.partition().buffer(), layer as nat, "attention_norm.weight"@, w.norm.attention_norm)
                && is_layer_tensor(self.partition().buffer(), layer as nat, "ffn_norm.weight"@, w.norm.ffn_norm),
            r matches Err(e) ==> e is Model || e is Tensor,
            (r matches Err(e) && e is Model) <==> !crate::model::owns(self.partition().layer_group(), layer)
                || !self.partition().has_bundles(layer),
    {
        let attention = match self.model.get_attention_weights(layer) {
            Some(a) => a,
            None => {
                return Err(ChatLoopError::model("No attention weights for layer"));
            },
        };
        let mlp = match self.model.get_mlp_weights(layer) {
            Some(m) => m,
            None => {
                return Err(ChatLoopError::model("No MLP weights for layer"));
            },
        };
        let norm = match self.model.get_layer_norm(layer) {
            Some(n) => n,
            None => {
                return Err(ChatLoopError::model("No layer norm for layer"));
            },
        };
        let g = self.config;
        let width = g.num_heads * g.head_dim;
        let w = LayerWeights { attention, mlp, norm };
        let ok = shape_is(&w.attention.q_proj, &[width, g.hidden_dim])
            && shape_is(&w.attention.k_proj, &[width, g.hidden_dim])
            && shape_is(&w.attention.v_proj, &[width, g.hidden_dim])
            && shape_is(&w.attention.o_proj, &[g.hidden_dim, width])
            && shape_is(&w.mlp.gate_proj, &[g.intermediate_dim, g.hidden_dim])
            && shape_is(&w.mlp.up_proj, &[g.intermediate_dim, g.hidden_dim])
            && shape_is(&w.mlp.down_proj, &[g.hidden_dim, g.intermediate_dim])
            && shape_is(&w.norm.attention_norm, &[g.hidden_dim])
            && shape_is(&w.norm.ffn_norm, &[g.hidden_dim]);
        proof {
            assert([width, g.hidden_dim]@ =~= seq![width, g.hidden_dim]);
            assert([g.hidden_dim, width]@ =~= seq![g.hidden_dim, width]);
            assert([g.intermediate_dim, g.hidden_dim]@ =~= seq![g.intermediate_dim, g.hidden_dim]);
            assert([g.hidden_dim, g.intermediate_dim]@ =~= seq![g.hidden_dim, g.intermediate_dim]);
            assert([g.hidden_dim]@ =~= seq![g.hidden_dim]);
        }
        if !ok {
            return Err(ChatLoopError::tensor("Layer weight has the wrong shape"));
        }
        Ok(w)
    }
}

} // verus!
