use chatloop::config::LayerGroupConfig;
use chatloop::container::{write_container, SafeTensorBuffer, SafeTensorHeader, TensorDType, TensorInfo};
use chatloop::error::ChatLoopError;
use chatloop::model::{layer_name, parse_layer_index, ModelPartition};

const SUFFIXES: [&str; 9] = [
    "attention.wq.weight",
    "attention.wk.weight",
    "attention.wv.weight",
    "attention.wo.weight",
    "feed_forward.gate_proj.weight",
    "feed_forward.up_proj.weight",
    "feed_forward.down_proj.weight",
    "attention_norm.weight",
    "ffn_norm.weight",
];

fn group(start: usize, end: usize) -> LayerGroupConfig {
    LayerGroupConfig {
        start_layer: start,
        end_layer: end,
        total_layers: 4,
        num_heads: 1,
        head_dim: 2,
        hidden_dim: 2,
        intermediate_dim: 2,
    }
}

/// Layers 0..3 each with every tensor (two U8 elements holding the layer and the
/// tensor's position), except layer 2 which lacks its ffn norm.
fn model_file() -> (Vec<u8>, SafeTensorHeader) {
    let mut payload = Vec::new();
    let mut tensors = Vec::new();
    for layer in 0..3u8 {
        for (k, s) in SUFFIXES.iter().enumerate() {
            if layer == 2 && *s == "ffn_norm.weight" {
                continue;
            }
            let lo = payload.len();
            payload.extend([layer, k as u8]);
            let name = format!("model.layers.{}.{}", layer, s);
            tensors.push((name, TensorInfo {
                dtype: "U8".to_string(),
                shape: vec![2],
                data_offsets: vec![lo, lo + 2],
            }));
        }
    }
    tensors.push(("embed.weight".to_string(), TensorInfo {
        dtype: "U8".to_string(),
        shape: vec![0],
        data_offsets: vec![0, 0],
    }));
    (write_container(b"{}", &payload), SafeTensorHeader { tensors })
}

#[test]
fn layer_index_parsing() {
    assert_eq!(parse_layer_index(b"model.layers.12.attention.wq.weight"), Some(12));
    assert_eq!(parse_layer_index(b"model.layers.0.x"), Some(0));
    assert_eq!(parse_layer_index(b"model.layers.x1.y"), None);
    assert_eq!(parse_layer_index(b"model.layers.12"), None);
    assert_eq!(parse_layer_index(b"model.layers..y"), None);
    assert_eq!(parse_layer_index(b"model.embed.3.y"), None);
    assert_eq!(parse_layer_index(b"model.layers.99999999999999999999999.y"), None);
}

#[test]
fn layer_names_are_built_in_decimal() {
    assert_eq!(layer_name(7, "ffn_norm.weight"), b"model.layers.7.ffn_norm.weight".to_vec());
    assert_eq!(layer_name(120, "a"), b"model.layers.120.a".to_vec());
}

#[test]
fn partition_indexes_owned_layers_only() {
    let (file, header) = model_file();
    let buffer = SafeTensorBuffer::open(&file, header).unwrap();
    let part = ModelPartition::load(buffer, group(1, 3)).unwrap();
    assert_eq!(part.num_indexed(), 9 + 8);
    assert_eq!(part.layer_names(), vec![1, 2]);
    assert_eq!(part.dtype(), TensorDType::U8);
    assert_eq!(part.memory_usage_bytes(), file.len());
    assert!(part.preload(&["embed.weight".to_string()]).is_ok());
}

#[test]
fn partition_bundles() {
    let (file, header) = model_file();
    let buffer = SafeTensorBuffer::open(&file, header).unwrap();
    let part = ModelPartition::load(buffer, group(1, 3)).unwrap();
    let attn = part.get_attention_weights(1).unwrap();
    assert_eq!(attn.q_proj.data(), &[1, 0]);
    assert_eq!(attn.o_proj.data(), &[1, 3]);
    let mlp = part.get_mlp_weights(2).unwrap();
    assert_eq!(mlp.down_proj.data(), &[2, 6]);
    assert!(part.get_layer_norm(1).is_some());
    assert!(part.get_layer_norm(2).is_none());
    assert!(part.get_attention_weights(0).is_none());
    assert!(part.get_attention_weights(3).is_none());
    assert_eq!(part.get_tensor("embed.weight").unwrap().len(), 0);
}

#[test]
fn partition_rejects_bad_group() {
    let (file, header) = model_file();
    let buffer = SafeTensorBuffer::open(&file, header).unwrap();
    assert!(matches!(ModelPartition::load(buffer, group(3, 5)), Err(ChatLoopError::Config(_))));
}
