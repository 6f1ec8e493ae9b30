use chatloop::container::{
    read_header_len, write_container, SafeTensorBuffer, SafeTensorHeader, TensorDType, TensorInfo,
};
use chatloop::error::ChatLoopError;

fn info(dtype: &str, shape: Vec<usize>, lo: usize, hi: usize) -> TensorInfo {
    TensorInfo { dtype: dtype.to_string(), shape, data_offsets: vec![lo, hi] }
}

fn f32_bytes(values: &[f32]) -> Vec<u8> {
    values.iter().flat_map(|v| v.to_le_bytes()).collect()
}

fn as_f32(data: &[u8]) -> Vec<f32> {
    data.chunks(4).map(|c| f32::from_le_bytes([c[0], c[1], c[2], c[3]])).collect()
}

#[test]
fn test_safetensor_open() {
    let header_json =
        br#"{"tensors":{"weight":{"dtype":"F32","shape":[2,2],"data_offsets":[0,16]}}}"#;
    let data: [u8; 16] = [0, 0, 128, 63, 0, 0, 0, 64, 0, 0, 64, 64, 0, 0, 128, 64];
    let file = write_container(header_json, &data);
    let header = SafeTensorHeader { tensors: vec![("weight".to_string(), info("F32", vec![2, 2], 0, 16))] };
    let buffer = SafeTensorBuffer::open(&file, header).unwrap();

    assert_eq!(buffer.tensor_names().len(), 1);

    let tensor = buffer.get_tensor("weight").unwrap();
    assert_eq!(tensor.shape(), vec![2, 2]);
    assert_eq!(tensor.dtype(), TensorDType::F32);
    assert_eq!(tensor.len(), 4);

    let values = as_f32(tensor.data());
    assert_eq!(values, vec![1.0, 2.0, 3.0, 4.0]);
}

#[test]
fn container_round_trip_two_tensors() {
    let header_json = br#"{"w":{"dtype":"F32","shape":[2,2],"data_offsets":[0,16]},"b":{"dtype":"F32","shape":[2],"data_offsets":[16,24]}}"#;
    let mut payload = f32_bytes(&[1.0, 2.0, 3.0, 4.0]);
    payload.extend(f32_bytes(&[0.5, -0.5]));
    let file = write_container(header_json, &payload);
    assert_eq!(read_header_len(&file).unwrap(), header_json.len());
    assert_eq!(&file[8..8 + header_json.len()], &header_json[..]);
    let header = SafeTensorHeader {
        tensors: vec![
            ("w".to_string(), info("F32", vec![2, 2], 0, 16)),
            ("b".to_string(), info("F32", vec![2], 16, 24)),
        ],
    };
    let buffer = SafeTensorBuffer::open(&file, header).unwrap();
    assert_eq!(as_f32(buffer.get_tensor("w").unwrap().data()), vec![1.0, 2.0, 3.0, 4.0]);
    assert_eq!(as_f32(buffer.get_tensor("b").unwrap().data()), vec![0.5, -0.5]);
    assert!(buffer.get_tensor("missing").is_none());
    assert_eq!(buffer.tensor_names(), vec!["w".to_string(), "b".to_string()]);
}

#[test]
fn header_length_is_little_endian() {
    let file = write_container(&[b'x'; 300], &[]);
    assert_eq!(&file[0..8], &[44, 1, 0, 0, 0, 0, 0, 0]);
    assert_eq!(read_header_len(&file).unwrap(), 300);
}

#[test]
fn truncated_containers_are_memory_map_errors() {
    assert!(matches!(read_header_len(&[1, 0, 0]), Err(ChatLoopError::MemoryMap(_))));
    let mut file = write_container(b"{}", &[]);
    file.pop();
    assert!(matches!(read_header_len(&file), Err(ChatLoopError::MemoryMap(_))));
}

#[test]
fn inconsistent_entries_are_rejected() {
    let payload = f32_bytes(&[1.0, 2.0]);
    let file = write_container(b"{}", &payload);
    let bad = |i: TensorInfo| {
        let header = SafeTensorHeader { tensors: vec![("t".to_string(), i)] };
        matches!(SafeTensorBuffer::open(&file, header), Err(ChatLoopError::MemoryMap(_)))
    };
    assert!(bad(info("F64", vec![2], 0, 8)));
    assert!(bad(info("F32", vec![3], 0, 8)));
    assert!(bad(info("F32", vec![2], 4, 12)));
    assert!(bad(TensorInfo { dtype: "F32".to_string(), shape: vec![2], data_offsets: vec![0] }));
    assert!(!bad(info("F32", vec![2], 0, 8)));
    assert!(!bad(info("F16", vec![2, 2], 0, 8)));
}

#[test]
fn dtype_tags_and_sizes() {
    for (tag, size) in [("F32", 4), ("F16", 2), ("I32", 4), ("I8", 1), ("U8", 1), ("BOOL", 1)] {
        let d = TensorDType::from_str(tag).unwrap();
        assert_eq!(d.size(), size);
        assert_eq!(d.as_str(), tag);
    }
    assert!(TensorDType::from_str("f32").is_none());
    let i = info("I8", vec![3, 5], 0, 15);
    assert_eq!(i.get_dtype(), Some(TensorDType::I8));
    assert_eq!(i.size_bytes(), 15);
    assert_eq!(info("???", vec![3], 0, 12).size_bytes(), 12);
}

#[test]
fn duplicate_names_are_rejected() {
    let payload = f32_bytes(&[1.0, 2.0]);
    let file = write_container(b"{}", &payload);
    let header = SafeTensorHeader {
        tensors: vec![
            ("t".to_string(), info("F32", vec![1], 0, 4)),
            ("t".to_string(), info("F32", vec![1], 4, 8)),
        ],
    };
    assert!(matches!(SafeTensorBuffer::open(&file, header), Err(ChatLoopError::MemoryMap(_))));
}
