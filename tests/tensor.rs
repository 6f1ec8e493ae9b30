use chatloop::tensor::{Tensor, TensorView};

#[test]
fn test_tensor_view() {
    let data = vec![1.0f32, 2.0, 3.0, 4.0];
    let tensor = TensorView::new(&data, vec![2, 2]);

    assert_eq!(tensor.len(), 4);
    assert_eq!(tensor.ndim(), 2);
    assert_eq!(tensor.get(&[0, 0]), 1.0);
    assert_eq!(tensor.get(&[1, 1]), 4.0);
}

#[test]
fn test_tensor_reshape() {
    let data = vec![1.0f32, 2.0, 3.0, 4.0];
    let tensor = Tensor::new(data, vec![2, 2]);

    let reshaped = tensor.reshape(vec![4]);
    assert!(reshaped.is_some());
    assert_eq!(reshaped.unwrap().shape, vec![4]);
}

#[test]
fn view_strides_index_and_transpose() {
    let data: Vec<i32> = (0..24).collect();
    let view = TensorView::new(&data, vec![2, 3, 4]);
    assert_eq!(view.strides, vec![12, 4, 1]);
    assert_eq!(view.index(&[1, 2, 3]), 23);
    assert_eq!(view.get(&[1, 0, 2]), 14);
    let t = view.transpose();
    assert_eq!(t.shape, vec![4, 3, 2]);
    assert_eq!(t.strides, vec![1, 4, 12]);
    assert_eq!(t.get(&[3, 2, 1]), 23);
    assert_eq!(t.get(&[2, 0, 1]), 14);
}

#[test]
fn view_reshape_checks_count() {
    let data = vec![1u8, 2, 3, 4, 5, 6];
    let view = TensorView::new(&data, vec![2, 3]);
    assert!(view.reshape(vec![4]).is_none());
    let r = view.reshape(vec![3, 2]).unwrap();
    assert_eq!(r.strides, vec![2, 1]);
    assert_eq!(r.get(&[2, 1]), 6);
    assert!(!view.is_empty());
}

#[test]
fn owned_tensor_zeros_and_view() {
    let t: Tensor<i32> = Tensor::zeros(vec![2, 3]);
    assert_eq!(t.len(), 6);
    assert!(t.data.iter().all(|&x| x == 0));
    let v = t.view();
    assert_eq!(v.strides, vec![3, 1]);
    let empty: Tensor<i32> = Tensor::zeros(vec![0, 5]);
    assert!(empty.is_empty());
    let t2 = Tensor::new(vec![1, 2, 3], vec![3]);
    assert!(t2.reshape(vec![2]).is_none());
}
