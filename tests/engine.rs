use chatloop::config::LayerGroupConfig;
use chatloop::container::{write_container, SafeTensorBuffer, SafeTensorHeader, TensorInfo};
use chatloop::engine::{hidden_rows, InferenceEngine};
use chatloop::error::ChatLoopError;
use chatloop::model::ModelPartition;

const SUFFIXES: [(&str, usize); 9] = [
    ("attention.wq.weight", 2),
    ("attention.wk.weight", 2),
    ("attention.wv.weight", 2),
    ("attention.wo.weight", 2),
    ("feed_forward.gate_proj.weight", 2),
    ("feed_forward.up_proj.weight", 2),
    ("feed_forward.down_proj.weight", 2),
    ("attention_norm.weight", 1),
    ("ffn_norm.weight", 1),
];

fn group() -> LayerGroupConfig {
    LayerGroupConfig {
        start_layer: 0,
        end_layer: 3,
        total_layers: 3,
        num_heads: 1,
        head_dim: 2,
        hidden_dim: 2,
        intermediate_dim: 2,
    }
}

/// Layer 0 complete and well shaped, layer 1 with a 1×2 query projection,
/// layer 2 without its norms.
fn container() -> (Vec<u8>, SafeTensorHeader) {
    let mut payload = Vec::new();
    let mut tensors = Vec::new();
    for layer in 0..3usize {
        for (suffix, rank) in SUFFIXES {
            if layer == 2 && rank == 1 {
                continue;
            }
            let shape = if rank == 2 {
                if layer == 1 && suffix == "attention.wq.weight" { vec![1, 2] } else { vec![2, 2] }
            } else {
                vec![2]
            };
            let n: usize = shape.iter().product();
            let lo = payload.len();
            payload.extend(std::iter::repeat(0u8).take(n));
            tensors.push((
                format!("model.layers.{}.{}", layer, suffix),
                TensorInfo { dtype: "U8".to_string(), shape, data_offsets: vec![lo, lo + n] },
            ));
        }
    }
    (write_container(b"{}", &payload), SafeTensorHeader { tensors })
}

#[test]
fn engine_layer_weights_checks_bundles_and_shapes() {
    let (file, header) = container();
    let buffer = SafeTensorBuffer::open(&file, header).unwrap();
    let partition = ModelPartition::load(buffer, group()).unwrap();
    let engine: InferenceEngine<'_, f32> = InferenceEngine::new(partition, group());
    let w = engine.layer_weights(0).unwrap();
    assert_eq!(w.attention.q_proj.shape(), &[2, 2]);
    assert_eq!(w.norm.ffn_norm.shape(), &[2]);
    assert!(matches!(engine.layer_weights(1), Err(ChatLoopError::Tensor(_))));
    assert!(matches!(engine.layer_weights(2), Err(ChatLoopError::Model(_))));
    assert!(matches!(engine.layer_weights(3), Err(ChatLoopError::Model(_))));
}

#[test]
fn engine_keeps_one_cache_per_sequence() {
    let (file, header) = container();
    let buffer = SafeTensorBuffer::open(&file, header).unwrap();
    let partition = ModelPartition::load(buffer, group()).unwrap();
    let mut engine: InferenceEngine<'_, f32> = InferenceEngine::new(partition, group());
    engine.append_kv(7, 0, &[1.0, 2.0], &[3.0, 4.0]).unwrap();
    engine.append_kv(9, 0, &[5.0, 6.0], &[7.0, 8.0]).unwrap();
    assert_eq!(engine.get_kv_cache(7).get_keys(0, 0), Some(&[1.0f32, 2.0][..]));
    assert_eq!(engine.get_kv_cache(9).get_values(0, 0), Some(&[7.0f32, 8.0][..]));
    assert_eq!(engine.get_kv_cache(7).layer_len(0), 1);
    assert_eq!(engine.get_kv_cache(11).layer_len(0), 0);
    assert!(matches!(engine.append_kv(7, 3, &[1.0, 2.0], &[1.0, 2.0]), Err(ChatLoopError::Tensor(_))));
}

#[test]
fn hidden_rows_requires_whole_rows() {
    assert_eq!(hidden_rows(12, 4).unwrap(), 3);
    assert!(matches!(hidden_rows(10, 4), Err(ChatLoopError::Tensor(_))));
    assert!(matches!(hidden_rows(0, 0), Err(ChatLoopError::Tensor(_))));
}

#[test]
fn engine_appends_land_at_successive_positions() {
    let (file, header) = container();
    let buffer = SafeTensorBuffer::open(&file, header).unwrap();
    let partition = ModelPartition::load(buffer, group()).unwrap();
    let mut engine: InferenceEngine<'_, f32> = InferenceEngine::new(partition, group());
    for p in 0..3 {
        engine.append_kv(4, 1, &[p as f32, 0.0], &[0.0, p as f32]).unwrap();
    }
    let cache = engine.get_kv_cache(4);
    assert_eq!(cache.layer_len(1), 3);
    assert_eq!(cache.get_keys(1, 0), Some(&[0.0f32, 0.0][..]));
    assert_eq!(cache.get_keys(1, 2), Some(&[2.0f32, 0.0][..]));
    assert_eq!(cache.layer_len(0), 0);
    assert!(matches!(engine.append_kv(4, 1, &[1.0], &[1.0, 1.0]), Err(ChatLoopError::Tensor(_))));
}
