//! A worker's slice of the model: the tensors of its layer range and the
//! per-layer weight bundles, as zero-copy views into the container.
use vstd::prelude::*;
use crate::config::LayerGroupConfig;
use crate::container::first_named_bytes;
use crate::container::SafeTensorBuffer;
use crate::container::SafeTensorView;
use crate::container::view_of;
use crate::container::dtype_of_tag;
use crate::container::TensorDType;
use crate::error::ChatLoopError;
use crate::error::Result;
use vstd::utf8::encode_utf8;

verus! {

/// The bytes of "model.layers.", with which every layer tensor name starts.
pub open spec fn layers_prefix() -> Seq<u8> {
    seq![109u8, 111, 100, 101, 108, 46, 108, 97, 121, 101, 114, 115, 46]
}

pub open spec fn is_digit(b: u8) -> bool {
    48 <= b <= 57
}

/// Value of a run of decimal digits.
pub open spec fn digits_value(d: Seq<u8>) -> nat
    decreases d.len(),
{
    if d.len() == 0 {
        0
    } else {
        digits_value(d.drop_last()) * 10 + (d.last() - 48) as nat
    }
}

/// Decimal digits of `n`, without leading zeros.
pub open spec fn decimal(n: nat) -> Seq<u8>
    decreases n,
{
    if n < 10 {
        seq![(48 + n) as u8]
    } else {
        decimal(n / 10).push((48 + n % 10) as u8)
    }
}

/// Position of the first '.' in `s` at or after `i`, if any.
pub open spec fn dot_from(s: Seq<u8>, i: int) -> Option<int>
    decreases s.len() - i,
{
    if i < 0 || i >= s.len() {
        None
    } else if s[i] == 46 {
        Some(i)
    } else {
        dot_from(s, i + 1)
    }
}

/// The layer index of a tensor named `model.layers.<i>.<suffix>`, where `<i>` is a
/// non-empty run of decimal digits whose value fits in a `usize`; `None` for
/// names of any other form.
pub open spec fn layer_of_name(b: Seq<u8>) -> Option<nat> {
    if b.len() >= 13 && b.subrange(0, 13) == layers_prefix() {
        match dot_from(b, 13) {
            Some(j) => if j > 13 && (forall|k: int| 13 <= k < j ==> is_digit(#[trigger] b[k]))
                && digits_value(b.subrange(13, j)) <= usize::MAX {
                Some(digits_value(b.subrange(13, j)))
            } else {
                None
            },
            None => None,
        }
    } else {
        None
    }
}

/// The name of tensor `suffix` of layer `layer`: `model.layers.<layer>.<suffix>`.
pub open spec fn layer_tensor_name(layer: nat, suffix: Seq<u8>) -> Seq<u8> {
    layers_prefix() + decimal(layer) + seq![46u8] + suffix
}

proof fn lemma_digits_value_mono(d: Seq<u8>, k: int)
    requires
        0 <= k <= d.len(),
        forall|i: int| 0 <= i < d.len() ==> is_digit(#[trigger] d[i]),
    ensures
        digits_value(d.subrange(0, k)) <= digits_value(d),
    decreases d.len(),
{
    if k < d.len() {
        lemma_digits_value_mono(d.drop_last(), k);
        assert(d.drop_last().subrange(0, k) =~= d.subrange(0, k));
    } else {
        assert(d.subrange(0, k) =~= d);
    }
}

proof fn lemma_dot_from_skip(s: Seq<u8>, i: int, j: int)
    requires
        0 <= i <= j <= s.len(),
        forall|k: int| i <= k < j ==> s[k] != 46,
    ensures
        dot_from(s, i) == dot_from(s, j),
    decreases j - i,
{
    if i < j {
        lemma_dot_from_skip(s, i + 1, j);
    }
}

proof fn lemma_dot_from_range(s: Seq<u8>, i: int)
    ensures
        dot_from(s, i) matches Some(j) ==> 0 <= i <= j < s.len() && s[j] == 46,
    decreases s.len() - i,
{
    if 0 <= i < s.len() && s[i] != 46 {
        lemma_dot_from_range(s, i + 1);
    }
}

/// The layer index in a tensor name of the form `model.layers.<i>.<suffix>`.
pub fn parse_layer_index(name: &[u8]) -> (r: Option<usize>)
    ensures
        r == (match layer_of_name(name@) {
            Some(v) => Some(v as usize),
            None => None::<usize>,
        }),
{
    let prefix: Vec<u8> = vec![109u8, 111, 100, 101, 108, 46, 108, 97, 121, 101, 114, 115, 46];
    proof {
        assert(prefix@ =~= layers_prefix());
    }
    let n = name.len();
    if n < 13 {
        return None;
    }
    let mut p: usize = 0;
    while p < 13
        invariant
            p <= 13,
            n == name@.len(),
            n >= 13,
            prefix@ == layers_prefix(),
            forall|k: int| 0 <= k < p ==> name@[k] == prefix@[k],
        decreases 13 - p,
    {
        if name[p] != prefix[p] {
            proof {
                assert(name@.subrange(0, 13)[p as int] != layers_prefix()[p as int]);
            }
            return None;
        }
        p = p + 1;
    }
    proof {
        assert(name@.subrange(0, 13) =~= layers_prefix());
    }
    let mut i: usize = 13;
    let mut value: usize = 0;
    while i < n && name[i] != 46u8
        invariant
            13 <= i <= n,
            n == name@.len(),
            name@.subrange(0, 13) == layers_prefix(),
            forall|k: int| 13 <= k < i ==> is_digit(#[trigger] name@[k]),
            value == digits_value(name@.subrange(13, i as int)),
            dot_from(name@, 13) == dot_from(name@, i as int),
        decreases n - i,
    {
        let c = name[i];
        if c < 48u8 || c > 57u8 {
            proof {
                lemma_dot_from_skip(name@, i as int, i + 1);
                lemma_dot_from_range(name@, i + 1);
                assert(!is_digit(name@[i as int]));
            }
            return None;
        }
        proof {
            let d = name@.subrange(13, i + 1);
            assert(d.drop_last() =~= name@.subrange(13, i as int));
            lemma_dot_from_skip(name@, i as int, i + 1);
            assert(digits_value(d) == value * 10 + (c - 48) as nat);
        }
        let digit = (c - 48u8) as usize;
        if value > (usize::MAX - digit) / 10 {
            proof {
                let big = name@.subrange(13, i + 1);
                assert(digits_value(big) > usize::MAX) by (nonlinear_arith)
                    requires
                        digits_value(big) == value * 10 + digit,
                        value > (usize::MAX - digit) / 10,
                        digit <= 9,
                ;
                lemma_dot_from_range(name@, i + 1);
                if let Some(j) = dot_from(name@, i + 1) {
                    let d = name@.subrange(13, j);
                    if forall|k: int| 13 <= k < j ==> is_digit(#[trigger] name@[k]) {
                        lemma_digits_value_mono(d, i + 1 - 13);
                        assert(d.subrange(0, i + 1 - 13) =~= big);
                    }
                }
            }
            return None;
        }
        value = value * 10 + digit;
        i = i + 1;
    }
    proof {
        lemma_dot_from_skip(name@, 13, i as int);
    }
    if i == n || i == 13 {
        return None;
    }
    proof {
        assert(dot_from(name@, i as int) == Some(i as int));
    }
    Some(value)
}

fn push_decimal(out: &mut Vec<u8>, n: usize)
    ensures
        final(out)@ == old(out)@ + decimal(n as nat),
    decreases n,
{
    if n >= 10 {
        push_decimal(out, n / 10);
    }
    out.push((48 + n % 10) as u8);
    proof {
        if n >= 10 {
            assert(final(out)@ =~= old(out)@ + decimal(n as nat));
        } else {
            assert(final(out)@ =~= old(out)@ + decimal(n as nat));
        }
    }
}

/// The bytes of `model.layers.<layer>.<suffix>`.
pub fn layer_name(layer: usize, suffix: &str) -> (r: Vec<u8>)
    ensures
        r@ == layer_tensor_name(layer as nat, encode_utf8(suffix@)),
{
    let mut out: Vec<u8> = vec![109u8, 111, 100, 101, 108, 46, 108, 97, 121, 101, 114, 115, 46];
    proof {
        assert(out@ =~= layers_prefix());
    }
    push_decimal(&mut out, layer);
    out.push(46u8);
    let sb = suffix.as_bytes();
    let ghost base = out@;
    let mut i: usize = 0;
    while i < sb.len()
        invariant
            i <= sb@.len(),
            out@ == base + sb@.subrange(0, i as int),
        decreases sb@.len() - i,
    {
        out.push(sb[i]);
        i = i + 1;
        proof {
            assert(out@ =~= base + sb@.subrange(0, i as int));
        }
    }
    proof {
        assert(sb@.subrange(0, sb@.len() as int) =~= sb@);
        assert(out@ =~= layer_tensor_name(layer as nat, encode_utf8(suffix@)));
    }
    out
}

/// Attention projections of one layer.
pub struct AttentionWeights<'a> {
    pub q_proj: SafeTensorView<'a>,
    pub k_proj: SafeTensorView<'a>,
    pub v_proj: SafeTensorView<'a>,
    pub o_proj: SafeTensorView<'a>,
}

/// Feed-forward projections of one layer.
pub struct MlpWeights<'a> {
    pub gate_proj: SafeTensorView<'a>,
    pub up_proj: SafeTensorView<'a>,
    pub down_proj: SafeTensorView<'a>,
}

/// Normalization weights of one layer.
pub struct LayerNormWeights<'a> {
    pub attention_norm: SafeTensorView<'a>,
    pub ffn_norm: SafeTensorView<'a>,
}

/// The tensor of layer `layer` named with `suffix` resolves in `buf`.
pub open spec fn has_layer_tensor<'a>(buf: SafeTensorBuffer<'a>, layer: nat, suffix: Seq<char>) -> bool {
    first_named_bytes(buf.entries(), layer_tensor_name(layer, encode_utf8(suffix))) is Some
}

/// `v` is the tensor of layer `layer` named with `suffix` in `buf`.
pub open spec fn is_layer_tensor<'a>(
    buf: SafeTensorBuffer<'a>,
    layer: nat,
    suffix: Seq<char>,
    v: SafeTensorView<'a>,
) -> bool {
    view_of(buf, layer_tensor_name(layer, encode_utf8(suffix)), v)
}

/// The stored shape of the tensor of layer `layer` named with `suffix` in `buf`
/// (meaningful when it resolves).
pub open spec fn layer_tensor_shape<'a>(buf: SafeTensorBuffer<'a>, layer: nat, suffix: Seq<char>) -> Seq<usize> {
    buf.entries()[first_named_bytes(buf.entries(), layer_tensor_name(layer, encode_utf8(suffix)))->Some_0].1.shape@
}

/// The tensors of a worker's layer range within a weight container.
pub struct ModelPartition<'a> {
    config: LayerGroupConfig,
    tensor_buffer: SafeTensorBuffer<'a>,
    tensors: Vec<usize>,
    dtype: TensorDType,
    memory_usage_bytes: usize,
}

impl<'a> ModelPartition<'a> {
    /// The owned layer range and model dimensions.
    pub closed spec fn layer_group(self) -> LayerGroupConfig {
        self.config
    }

    /// The owned layer range and model dimensions.
    pub fn config(&self) -> (r: LayerGroupConfig)
        ensures
            r == self.layer_group(),
    {
        self.config
    }

    /// The container the partition reads.
    pub closed spec fn buffer(self) -> SafeTensorBuffer<'a> {
        self.tensor_buffer
    }

    /// Positions, in the container's index, of the tensors of the owned layers.
    pub closed spec fn indexed(self) -> Seq<usize> {
        self.tensors@
    }

    pub closed spec fn spec_dtype(self) -> TensorDType {
        self.dtype
    }

    /// Index the tensors of layers `[start_layer, end_layer)` in `buffer`. The layer
    /// range must lie within the model (`start <= end <= total`), else a `Config` error.
    /// The element type of the model is that of the first index entry (F32 if none).
    pub fn load(buffer: SafeTensorBuffer<'a>, config: LayerGroupConfig) -> (r: Result<Self>)
        ensures
            r is Ok <==> config.start_layer <= config.end_layer && config.end_layer
                <= config.total_layers,
            r matches Err(e) ==> e is Config,
            r matches Ok(m) ==> {
                &&& m.buffer() == buffer
                &&& m.layer_group() == config
                &&& m.spec_dtype() == (if buffer.entries().len() > 0 && dtype_of_tag(buffer.entries()[0].1.dtype@) is Some {
                    dtype_of_tag(buffer.entries()[0].1.dtype@)->Some_0
                } else {
                    TensorDType::F32
                })
                &&& forall|i: int|
                    0 <= i < buffer.entries().len() ==> (m.indexed().contains(i as usize)
                        <==> in_range(layer_of_name(encode_utf8(#[trigger] buffer.entries()[i].0@)), config))
                &&& forall|k: int| 0 <= k < m.indexed().len() ==> #[trigger] m.indexed()[k] < buffer.entries().len()
            },
    {
        if !(config.start_layer <= config.end_layer && config.end_layer <= config.total_layers) {
            return Err(ChatLoopError::config("Layer group must satisfy start <= end <= total"));
        }
        let entries = &buffer.header().tensors;
        let n = entries.len();
        let dtype = if n > 0 {
            match entries[0].1.get_dtype() {
                Some(d) => d,
                None => TensorDType::F32,
            }
        } else {
            TensorDType::F32
        };
        let mut tensors: Vec<usize> = Vec::new();
        let mut i: usize = 0;
        while i < n
            invariant
                n == entries@.len(),
                entries@ == buffer.entries(),
                i <= n,
                forall|j: int|
                    0 <= j < i ==> (tensors@.contains(j as usize) <==> in_range(
                        layer_of_name(encode_utf8(#[trigger] entries@[j].0@)),
                        config,
                    )),
                forall|k: int| 0 <= k < tensors@.len() ==> #[trigger] tensors@[k] < i,
            decreases n - i,
        {
            let idx = parse_layer_index(entries[i].0.as_str().as_bytes());
            let keep = match idx {
                Some(l) => l >= config.start_layer && l < config.end_layer,
                None => false,
            };
            let ghost before = tensors@;
            if keep {
                tensors.push(i);
            }
            proof {
                assert forall|j: int|
                    0 <= j < i + 1 implies (tensors@.contains(j as usize) <==> in_range(
                    layer_of_name(encode_utf8(#[trigger] entries@[j].0@)),
                    config,
                )) by {
                    if j < i {
                        if tensors@.contains(j as usize) {
                            let k = choose|k: int| 0 <= k < tensors@.len() && tensors@[k] == j as usize;
                            if k < before.len() {
                                assert(before[k] == j as usize);
                            }
                        }
                        if before.contains(j as usize) {
                            let k = choose|k: int| 0 <= k < before.len() && before[k] == j as usize;
                            assert(tensors@[k] == j as usize);
                        }
                    } else if keep {
                        assert(tensors@[before.len() as int] == i);
                    } else {
                        if tensors@.contains(i) {
                            let k = choose|k: int| 0 <= k < tensors@.len() && tensors@[k] == i;
                            assert(before[k] < i);
                        }
                    }
                }
            }
            i = i + 1;
        }
        let memory_usage_bytes = buffer.file_len();
        Ok(ModelPartition { config, tensor_buffer: buffer, tensors, dtype, memory_usage_bytes })
    }

    /// Number of tensors indexed for the owned layers.
    pub fn num_indexed(&self) -> (r: usize)
        ensures
            r == self.indexed().len(),
    {
        self.tensors.len()
    }

    /// A view of the tensor named `name`.
    pub fn get_tensor(&self, name: &str) -> (r: Option<SafeTensorView<'a>>)
        ensures
            r is Some <==> first_named_bytes(self.buffer().entries(), encode_utf8(name@)) is Some,
            r matches Some(v) ==> view_of(self.buffer(), encode_utf8(name@), v),
    {
        self.tensor_buffer.get_tensor_bytes(name.as_bytes())
    }

    fn layer_tensor(&self, layer: usize, suffix: &str) -> (r: Option<SafeTensorView<'a>>)
        ensures
            r is Some <==> has_layer_tensor(self.buffer(), layer as nat, suffix@),
            r matches Some(v) ==> is_layer_tensor(self.buffer(), layer as nat, suffix@, v),
    {
        let name = layer_name(layer, suffix);
        self.tensor_buffer.get_tensor_bytes(name.as_slice())
    }

    /// The owned layer indices, in order.
    pub fn layer_names(&self) -> (r: Vec<usize>)
        ensures
            r@.len() == if self.layer_group().start_layer <= self.layer_group().end_layer {
                self.layer_group().end_layer - self.layer_group().start_layer
            } else {
                0
            },
            forall|k: int| 0 <= k < r@.len() ==> r@[k] == self.layer_group().start_layer + k,
    {
        let mut out: Vec<usize> = Vec::new();
        let mut l = self.config.start_layer;
        if self.config.end_layer < l {
            return out;
        }
        while l < self.config.end_layer
            invariant
                self.config.start_layer <= l <= self.config.end_layer,
                out@.len() == l - self.config.start_layer,
                forall|k: int| 0 <= k < out@.len() ==> out@[k] == self.config.start_layer + k,
            decreases self.config.end_layer - l,
        {
            out.push(l);
            l = l + 1;
        }
        out
    }

    /// Size in bytes of the container the partition reads.
    pub fn memory_usage_bytes(&self) -> (r: usize)
        ensures
            r == self.buffer().file_bytes().len(),
    {
        self.tensor_buffer.file_len()
    }

    /// Element type of the model.
    pub fn dtype(&self) -> (r: TensorDType)
        ensures
            r == self.spec_dtype(),
    {
        self.dtype
    }

    /// Resolve each named tensor once, so that its pages are touched before use.
    pub fn preload(&self, tensor_names: &[String]) -> (r: Result<()>)
        ensures
            r is Ok,
    {
        let mut i: usize = 0;
        while i < tensor_names.len()
            invariant
                i <= tensor_names@.len(),
            decreases tensor_names@.len() - i,
        {
            let _ = self.get_tensor(tensor_names[i].as_str());
            i = i + 1;
        }
        Ok(())
    }

    /// Every weight of the three bundles of `layer` resolves.
    pub open spec fn has_bundles(self, layer: usize) -> bool {
        &&& has_layer_tensor(self.buffer(), layer as nat, "attention.wq.weight"@)
        &&& has_layer_tensor(self.buffer(), layer as nat, "attention.wk.weight"@)
        &&& has_layer_tensor(self.buffer(), layer as nat, "attention.wv.weight"@)
        &&& has_layer_tensor(self.buffer(), layer as nat, "attention.wo.weight"@)
        &&& has_layer_tensor(self.buffer(), layer as nat, "feed_forward.gate_proj.weight"@)
        &&& has_layer_tensor(self.buffer(), layer as nat, "feed_forward.up_proj.weight"@)
        &&& has_layer_tensor(self.buffer(), layer as nat, "feed_forward.down_proj.weight"@)
        &&& has_layer_tensor(self.buffer(), layer as nat, "attention_norm.weight"@)
        &&& has_layer_tensor(self.buffer(), layer as nat, "ffn_norm.weight"@)
    }

    /// The attention projections of `layer_idx`: `None` outside the owned range or
    /// when any of the four is missing.
    pub fn get_attention_weights(&self, layer_idx: usize) -> (r: Option<AttentionWeights<'a>>)
        ensures
            r is Some <==> owns(self.layer_group(), layer_idx) && has_layer_tensor(
                self.buffer(),
                layer_idx as nat,
                "attention.wq.weight"@,
            ) && has_layer_tensor(self.buffer(), layer_idx as nat, "attention.wk.weight"@)
                && has_layer_tensor(self.buffer(), layer_idx as nat, "attention.wv.weight"@)
                && has_layer_tensor(self.buffer(), layer_idx as nat, "attention.wo.weight"@),
            r matches Some(w) ==> is_layer_tensor(
                self.buffer(),
                layer_idx as nat,
                "attention.wq.weight"@,
                w.q_proj,
            ) && is_layer_tensor(self.buffer(), layer_idx as nat, "attention.wk.weight"@, w.k_proj)
                && is_layer_tensor(self.buffer(), layer_idx as nat, "attention.wv.weight"@, w.v_proj)
                && is_layer_tensor(self.buffer(), layer_idx as nat, "attention.wo.weight"@, w.o_proj),
    {
        if layer_idx < self.config.start_layer || layer_idx >= self.config.end_layer {
            return None;
        }
        let q_proj = self.layer_tensor(layer_idx, "attention.wq.weight");
        let k_proj = self.layer_tensor(layer_idx, "attention.wk.weight");
        let v_proj = self.layer_tensor(layer_idx, "attention.wv.weight");
        let o_proj = self.layer_tensor(layer_idx, "attention.wo.weight");
        match (q_proj, k_proj, v_proj, o_proj) {
            (Some(q_proj), Some(k_proj), Some(v_proj), Some(o_proj)) => Some(
                AttentionWeights { q_proj, k_proj, v_proj, o_proj },
            ),
            _ => None,
        }
    }

    /// The feed-forward projections of `layer_idx`: `None` outside the owned range or
    /// when any of the three is missing.
    pub fn get_mlp_weights(&self, layer_idx: usize) -> (r: Option<MlpWeights<'a>>)
        ensures
            r is Some <==> owns(self.layer_group(), layer_idx) && has_layer_tensor(
                self.buffer(),
                layer_idx as nat,
                "feed_forward.gate_proj.weight"@,
            ) && has_layer_tensor(self.buffer(), layer_idx as nat, "feed_forward.up_proj.weight"@)
                && has_layer_tensor(self.buffer(), layer_idx as nat, "feed_forward.down_proj.weight"@),
            r matches Some(w) ==> is_layer_tensor(
                self.buffer(),
                layer_idx as nat,
                "feed_forward.gate_proj.weight"@,
                w.gate_proj,
            ) && is_layer_tensor(self.buffer(), layer_idx as nat, "feed_forward.up_proj.weight"@, w.up_proj)
                && is_layer_tensor(
                self.buffer(),
                layer_idx as nat,
                "feed_forward.down_proj.weight"@,
                w.down_proj,
            ),
    {
        if layer_idx < self.config.start_layer || layer_idx >= self.config.end_layer {
            return None;
        }
        let gate_proj = self.layer_tensor(layer_idx, "feed_forward.gate_proj.weight");
        let up_proj = self.layer_tensor(layer_idx, "feed_forward.up_proj.weight");
        let down_proj = self.layer_tensor(layer_idx, "feed_forward.down_proj.weight");
        match (gate_proj, up_proj, down_proj) {
            (Some(gate_proj), Some(up_proj), Some(down_proj)) => Some(
                MlpWeights { gate_proj, up_proj, down_proj },
            ),
            _ => None,
        }
    }

    /// The normalization weights of `layer_idx`: `None` outside the owned range or
    /// when either is missing.
    pub fn get_layer_norm(&self, layer_idx: usize) -> (r: Option<LayerNormWeights<'a>>)
        ensures
            r is Some <==> owns(self.layer_group(), layer_idx) && has_layer_tensor(
                self.buffer(),
                layer_idx as nat,
                "attention_norm.weight"@,
            ) && has_layer_tensor(self.buffer(), layer_idx as nat, "ffn_norm.weight"@),
            r matches Some(w) ==> is_layer_tensor(
                self.buffer(),
                layer_idx as nat,
                "attention_norm.weight"@,
                w.attention_norm,
            ) && is_layer_tensor(self.buffer(), layer_idx as nat, "ffn_norm.weight"@, w.ffn_norm),
    {
        if layer_idx < self.config.start_layer || layer_idx >= self.config.end_layer {
            return None;
        }
        let attention_norm = self.layer_tensor(layer_idx, "attention_norm.weight");
        let ffn_norm = self.layer_tensor(layer_idx, "ffn_norm.weight");
        match (attention_norm, ffn_norm) {
            (Some(attention_norm), Some(ffn_norm)) => Some(
                LayerNormWeights { attention_norm, ffn_norm },
            ),
            _ => None,
        }
    }
}

/// The layer group owns layer `l`.
pub open spec fn owns(config: LayerGroupConfig, l: usize) -> bool {
    config.start_layer <= l < config.end_layer
}

/// A parsed layer index lies in the group's range.
pub open spec fn in_range(l: Option<nat>, config: LayerGroupConfig) -> bool {
    l matches Some(v) && config.start_layer <= v < config.end_layer
}

} // verus!
