use dl_core::{Backend, CpuBackend, Scalar, Shape, Tensor, TensorError};
use std::sync::Arc;

#[derive(Clone, Copy, Debug, PartialEq)]
struct Real(f32);

impl Scalar for Real {
    fn zero() -> Self {
        Real(0.0)
    }
    fn one() -> Self {
        Real(1.0)
    }
    fn add(self, rhs: Self) -> Self {
        Real(self.0 + rhs.0)
    }
    fn sub(self, rhs: Self) -> Self {
        Real(self.0 - rhs.0)
    }
    fn mul(self, rhs: Self) -> Self {
        Real(self.0 * rhs.0)
    }
    fn div(self, rhs: Self) -> Self {
        Real(self.0 / rhs.0)
    }
    fn neg(self) -> Self {
        Real(-self.0)
    }
    fn exp(self) -> Self {
        Real(self.0.exp())
    }
    fn ln(self) -> Self {
        Real(self.0.ln())
    }
    fn is_positive(self) -> bool {
        self.0 > 0.0
    }
    fn exceeds(self, rhs: Self) -> bool {
        self.0 > rhs.0
    }
    fn sqrt(self) -> Self {
        Real(self.0.sqrt())
    }
    fn powi(self, n: i32) -> Self {
        Real(self.0.powi(n))
    }
    fn from_count(n: usize) -> Self {
        Real(n as f32)
    }
}

type T = Tensor<Real, CpuBackend>;

fn tensor(data: &[f32], dims: &[usize]) -> T {
    let data: Vec<Real> = data.iter().map(|x| Real(*x)).collect();
    Tensor::from_vec(data, Shape::new(dims.to_vec()), Arc::new(CpuBackend::new())).unwrap()
}

fn values(t: &T) -> Vec<f32> {
    t.data().iter().map(|x| x.0).collect()
}

fn close(a: &[f32], b: &[f32]) -> bool {
    a.len() == b.len() && a.iter().zip(b.iter()).all(|(x, y)| (x - y).abs() < 1e-5)
}

#[test]
fn from_vec_checks_element_count() {
    let data = vec![Real(1.0), Real(2.0), Real(3.0)];
    let r: Result<T, TensorError> =
        Tensor::from_vec(data, Shape::new(vec![2, 2]), Arc::new(CpuBackend::new()));
    assert!(matches!(r, Err(TensorError::Shape(_))));
    let t = tensor(&[1.0, 2.0, 3.0, 4.0], &[2, 2]);
    assert_eq!(t.numel(), 4);
    assert_eq!(t.shape().dims(), &[2, 2]);
    assert_eq!(values(&t), vec![1.0, 2.0, 3.0, 4.0]);
}

#[test]
fn from_vec_backend_builds_the_same() {
    let data = vec![Real(1.0), Real(2.0)];
    let t = Tensor::from_vec_backend(data, Shape::new(vec![2]), Arc::new(CpuBackend::new())).unwrap();
    assert_eq!(values(&t), vec![1.0, 2.0]);
    let bad = Tensor::from_vec_backend(
        vec![Real(1.0)],
        Shape::new(vec![2]),
        Arc::new(CpuBackend::new()),
    );
    assert!(bad.is_err());
}

#[test]
fn elementwise_kernels() {
    let a = tensor(&[1.0, 2.0, 3.0, 4.0], &[2, 2]);
    let b = tensor(&[4.0, 3.0, 2.0, 1.0], &[2, 2]);
    assert_eq!(values(&a.add(&b).unwrap()), vec![5.0, 5.0, 5.0, 5.0]);
    assert_eq!(values(&a.sub(&b).unwrap()), vec![-3.0, -1.0, 1.0, 3.0]);
    assert_eq!(values(&a.mul(&b).unwrap()), vec![4.0, 6.0, 6.0, 4.0]);
    assert_eq!(values(&a.div(&b).unwrap()), vec![0.25, 2.0 / 3.0, 1.5, 4.0]);
    assert_eq!(values(&a.scale(Real(-2.0)).unwrap()), vec![-2.0, -4.0, -6.0, -8.0]);
    assert_eq!(a.add(&b).unwrap().shape().dims(), &[2, 2]);
}

#[test]
fn elementwise_kernels_reject_other_shapes() {
    let a = tensor(&[1.0, 2.0, 3.0, 4.0], &[2, 2]);
    let b = tensor(&[1.0, 2.0, 3.0, 4.0], &[4]);
    assert!(matches!(a.add(&b), Err(TensorError::Backend(_))));
    assert!(a.sub(&b).is_err());
    assert!(a.mul(&b).is_err());
    assert!(a.div(&b).is_err());
    assert!(a.relu_backward(&b).is_err());
    assert!(a.sigmoid_backward(&b).is_err());
    assert!(a.softmax_backward(&b).is_err());
}

#[test]
fn matmul_values_and_errors() {
    let a = tensor(&[1.0, 2.0, 3.0, 4.0, 5.0, 6.0], &[2, 3]);
    let b = tensor(&[7.0, 8.0, 9.0, 10.0, 11.0, 12.0], &[3, 2]);
    let c = a.matmul(&b).unwrap();
    assert_eq!(c.shape().dims(), &[2, 2]);
    assert_eq!(values(&c), vec![58.0, 64.0, 139.0, 154.0]);
    assert!(a.matmul(&a).is_err());
    let v = tensor(&[1.0, 2.0, 3.0], &[3]);
    assert!(a.matmul(&v).is_err());
    let e = tensor(&[], &[2, 0]);
    let f = tensor(&[], &[0, 3]);
    let z = e.matmul(&f).unwrap();
    assert_eq!(z.shape().dims(), &[2, 3]);
    assert_eq!(values(&z), vec![0.0; 6]);
}

#[test]
fn transpose_values() {
    let a = tensor(&[1.0, 2.0, 3.0, 4.0, 5.0, 6.0], &[2, 3]);
    let t = a.transpose().unwrap();
    assert_eq!(t.shape().dims(), &[3, 2]);
    assert_eq!(values(&t), vec![1.0, 4.0, 2.0, 5.0, 3.0, 6.0]);
    assert!(tensor(&[1.0, 2.0], &[2]).transpose().is_err());
}

#[test]
fn add_broadcast_values() {
    let a = tensor(&[1.0, 2.0, 3.0, 4.0, 5.0, 6.0], &[2, 3]);
    let b = tensor(&[10.0, 20.0, 30.0], &[3]);
    let c = a.add_broadcast(&b).unwrap();
    assert_eq!(c.shape().dims(), &[2, 3]);
    assert_eq!(values(&c), vec![11.0, 22.0, 33.0, 14.0, 25.0, 36.0]);
    assert!(a.add_broadcast(&tensor(&[1.0, 2.0], &[2])).is_err());
    assert!(b.add_broadcast(&b).is_err());
    assert!(a.add_broadcast(&a).is_err());
}

#[test]
fn sum_and_sum_dim() {
    let a = tensor(&[1.0, 2.0, 3.0, 4.0, 5.0, 6.0], &[2, 3]);
    let s = a.sum().unwrap();
    assert_eq!(s.shape().dims(), &[1]);
    assert_eq!(values(&s), vec![21.0]);
    let d0 = a.sum_dim(0).unwrap();
    assert_eq!(d0.shape().dims(), &[1, 3]);
    assert_eq!(values(&d0), vec![5.0, 7.0, 9.0]);
    let d1 = a.sum_dim(1).unwrap();
    assert_eq!(d1.shape().dims(), &[2, 1]);
    assert_eq!(values(&d1), vec![6.0, 15.0]);
    assert!(a.sum_dim(2).is_err());
    assert_eq!(values(&tensor(&[], &[0]).sum().unwrap()), vec![0.0]);
}

#[test]
fn sum_dim_of_three_axes() {
    let data: Vec<f32> = (0..24).map(|x| x as f32).collect();
    let a = tensor(&data, &[2, 3, 4]);
    let d0 = a.sum_dim(0).unwrap();
    assert_eq!(d0.shape().dims(), &[1, 3, 4]);
    let expected0: Vec<f32> = (0..12).map(|x| (x + x + 12) as f32).collect();
    assert_eq!(values(&d0), expected0);
    let d1 = a.sum_dim(1).unwrap();
    assert_eq!(d1.shape().dims(), &[2, 1, 4]);
    assert_eq!(values(&d1), vec![12.0, 15.0, 18.0, 21.0, 48.0, 51.0, 54.0, 57.0]);
    let d2 = a.sum_dim(2).unwrap();
    assert_eq!(d2.shape().dims(), &[2, 3, 1]);
    assert_eq!(values(&d2), vec![6.0, 22.0, 38.0, 54.0, 70.0, 86.0]);
}

#[test]
fn activations() {
    let a = tensor(&[-1.0, 0.0, 2.0], &[3]);
    assert_eq!(values(&a.relu().unwrap()), vec![0.0, 0.0, 2.0]);
    let s = values(&a.sigmoid().unwrap());
    assert!(close(&s, &[0.26894143, 0.5, 0.880797]));
    let e = values(&a.exp().unwrap());
    assert!(close(&e, &[0.36787945, 1.0, 7.389056]));
    let l = values(&tensor(&[1.0, std::f32::consts::E], &[2]).log().unwrap());
    assert!(close(&l, &[0.0, 1.0]));
}

#[test]
fn backward_helpers() {
    let x = tensor(&[-1.0, 0.0, 2.0], &[3]);
    let g = tensor(&[5.0, 6.0, 7.0], &[3]);
    assert_eq!(values(&x.relu_backward(&g).unwrap()), vec![0.0, 0.0, 7.0]);
    let y = tensor(&[0.5, 0.25, 1.0], &[3]);
    assert_eq!(values(&y.sigmoid_backward(&g).unwrap()), vec![1.25, 1.125, 0.0]);
}

#[test]
fn softmax_rows_sum_to_one() {
    let a = tensor(&[1.0, 2.0, 3.0, 1.0, 1.0, 1.0], &[2, 3]);
    let y = a.softmax_last_dim().unwrap();
    assert_eq!(y.shape().dims(), &[2, 3]);
    let v = values(&y);
    assert!(close(&v[0..3], &[0.09003057, 0.24472848, 0.66524094]));
    assert!(close(&v[3..6], &[1.0 / 3.0, 1.0 / 3.0, 1.0 / 3.0]));
    let g = tensor(&[1.0, 0.0, 0.0, 0.0, 1.0, 0.0], &[2, 3]);
    let b = values(&y.softmax_backward(&g).unwrap());
    let expected0 = [v[0] * (1.0 - v[0]), v[1] * (0.0 - v[0]), v[2] * (0.0 - v[0])];
    assert!(close(&b[0..3], &expected0));
    let third = 1.0f32 / 3.0;
    assert!(close(&b[3..6], &[third * (0.0 - third), third * (1.0 - third), third * (0.0 - third)]));
    let scalar_like: Result<T, _> =
        Tensor::from_vec(vec![Real(1.0)], Shape::new(vec![]), Arc::new(CpuBackend::new()));
    assert!(scalar_like.unwrap().softmax_last_dim().is_err());
}

#[test]
fn zeros_ones_and_zero_fill() {
    let backend = CpuBackend::new();
    let z: T = backend.zeros(&Shape::new(vec![2, 2])).unwrap();
    assert_eq!(values(&z), vec![0.0; 4]);
    let o: T = backend.ones(&Shape::new(vec![3])).unwrap();
    assert_eq!(values(&o), vec![1.0; 3]);
    let too_large: Result<T, _> = backend.zeros(&Shape::new(vec![usize::MAX, 2]));
    assert!(too_large.is_err());
    let mut t = tensor(&[1.0, 2.0, 3.0], &[3]);
    t.zero_fill();
    assert_eq!(values(&t), vec![0.0; 3]);
    assert_eq!(t.shape().dims(), &[3]);
}

#[test]
fn data_mut_and_clone() {
    let mut t = tensor(&[1.0, 2.0], &[2]);
    let copy = t.clone();
    t.data_mut()[0] = Real(9.0);
    assert_eq!(values(&t), vec![9.0, 2.0]);
    assert_eq!(values(&copy), vec![1.0, 2.0]);
    let _handle: Arc<CpuBackend> = t.backend();
}

#[test]
fn error_texts() {
    let a = tensor(&[1.0, 2.0], &[2]);
    let b = tensor(&[1.0], &[1]);
    let e = a.add(&b).err().unwrap();
    assert_eq!(e.to_string(), "backend error: backend error: add: shape mismatch");
    let r: Result<T, TensorError> =
        Tensor::from_vec(vec![Real(1.0)], Shape::new(vec![2]), Arc::new(CpuBackend::new()));
    let text = r.err().unwrap().to_string();
    assert_eq!(text, "shape error: shape error: data len 1 != shape numel 2");
    let m = tensor(&[1.0, 2.0, 3.0, 4.0, 5.0, 6.0], &[2, 3]);
    let e = m.matmul(&m).err().unwrap();
    assert_eq!(e.to_string(), "backend error: backend error: matmul dim mismatch: 3 != 2");
}

#[test]
fn stack_of_vectors_makes_one_row_each() {
    let t = Tensor::stack(&[tensor(&[1.0, 2.0], &[2]), tensor(&[3.0, 4.0], &[2]), tensor(&[5.0, 6.0], &[2])], 0)
        .unwrap();
    assert_eq!(t.shape().dims(), &[3, 2]);
    assert_eq!(values(&t), vec![1.0, 2.0, 3.0, 4.0, 5.0, 6.0]);
    assert!(t.is_valid());
}

#[test]
fn stack_of_matrices_puts_rows_under_rows() {
    let t = Tensor::stack(&[tensor(&[1.0, 2.0], &[1, 2]), tensor(&[3.0, 4.0], &[1, 2])], 0).unwrap();
    assert_eq!(t.shape().dims(), &[2, 2]);
    assert_eq!(values(&t), vec![1.0, 2.0, 3.0, 4.0]);
    let t = Tensor::stack(
        &[tensor(&[1.0, 2.0, 3.0, 4.0, 5.0, 6.0], &[2, 3]), tensor(&[7.0, 8.0, 9.0, 10.0, 11.0, 12.0], &[2, 3])],
        0,
    )
    .unwrap();
    assert_eq!(t.shape().dims(), &[4, 3]);
    assert_eq!(values(&t)[6..], [7.0, 8.0, 9.0, 10.0, 11.0, 12.0]);
}

#[test]
fn stack_of_one_array() {
    let t = Tensor::stack(&[tensor(&[1.0, 2.0], &[2])], 0).unwrap();
    assert_eq!(t.shape().dims(), &[1, 2]);
    assert_eq!(values(&t), vec![1.0, 2.0]);
}

#[test]
fn stack_rejects_nothing_other_axes_and_other_shapes() {
    let none: [T; 0] = [];
    assert!(matches!(Tensor::stack(&none, 0), Err(TensorError::Shape(_))));
    assert!(Tensor::stack(&[tensor(&[1.0, 2.0], &[2])], 1).is_err());
    assert!(Tensor::stack(&[tensor(&[1.0, 2.0], &[2]), tensor(&[1.0, 2.0], &[1, 2])], 0).is_err());
    assert!(Tensor::stack(&[tensor(&[1.0], &[])], 0).is_err());
}

#[test]
fn tensor_error_from_its_causes() {
    let e = TensorError::from(dl_core::BackendError("no".to_string()));
    assert!(matches!(e, TensorError::Backend(_)));
    assert_eq!(e.to_string(), "backend error: backend error: no");
    let e: TensorError = dl_core::ShapeError("bad".to_string()).into();
    assert!(matches!(e, TensorError::Shape(_)));
    assert_eq!(e.to_string(), "shape error: shape error: bad");
}

#[test]
fn tensor_can_be_printed() {
    let text = format!("{:?}", tensor(&[1.0, 2.0], &[2]));
    assert!(text.starts_with("Tensor"));
}
