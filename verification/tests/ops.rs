use dl_core::ops::add::Add;
use dl_core::ops::add_broadcast::AddBroadcast;
use dl_core::ops::log::Log;
use dl_core::ops::matmul::MatMul;
use dl_core::ops::mul::Mul;
use dl_core::ops::relu::ReLU;
use dl_core::ops::sigmoid::Sigmoid;
use dl_core::ops::softmax::Softmax;
use dl_core::ops::sub::Sub;
use dl_core::ops::sum::Sum;
use dl_core::{CpuBackend, Op, OpId, OpRegistry, Operator, Scalar, Shape, Tensor};
use std::sync::Arc;

#[derive(Clone, Copy, Debug, PartialEq)]
struct Real(f32);

impl Scalar for Real {
    fn zero() -> Self {
        Real(0.0)
    }
    fn one() -> Self {
        Real(1.0)
    }
    fn add(self, rhs: Self) -> Self {
        Real(self.0 + rhs.0)
    }
    fn sub(self, rhs: Self) -> Self {
        Real(self.0 - rhs.0)
    }
    fn mul(self, rhs: Self) -> Self {
        Real(self.0 * rhs.0)
    }
    fn div(self, rhs: Self) -> Self {
        Real(self.0 / rhs.0)
    }
    fn neg(self) -> Self {
        Real(-self.0)
    }
    fn exp(self) -> Self {
        Real(self.0.exp())
    }
    fn ln(self) -> Self {
        Real(self.0.ln())
    }
    fn is_positive(self) -> bool {
        self.0 > 0.0
    }
    fn exceeds(self, rhs: Self) -> bool {
        self.0 > rhs.0
    }
    fn sqrt(self) -> Self {
        Real(self.0.sqrt())
    }
    fn powi(self, n: i32) -> Self {
        Real(self.0.powi(n))
    }
    fn from_count(n: usize) -> Self {
        Real(n as f32)
    }
}

type T = Tensor<Real, CpuBackend>;

fn tensor(data: &[f32], dims: &[usize]) -> T {
    let data: Vec<Real> = data.iter().map(|x| Real(*x)).collect();
    Tensor::from_vec(data, Shape::new(dims.to_vec()), Arc::new(CpuBackend::new())).unwrap()
}

fn values(t: &T) -> Vec<f32> {
    t.data().iter().map(|x| x.0).collect()
}

fn close(a: &[f32], b: &[f32]) -> bool {
    a.len() == b.len() && a.iter().zip(b.iter()).all(|(x, y)| (x - y).abs() < 1e-5)
}


fn forward(op: &dyn Op<Real, CpuBackend>, inputs: &[&T]) -> T {
    op.forward(inputs).unwrap()
}

fn backward(op: &dyn Op<Real, CpuBackend>, g: &T, inputs: &[&T], y: &T) -> Vec<T> {
    op.backward(g, inputs, y).unwrap()
}

#[test]
fn add_forward_backward() {
    let a = tensor(&[1.0, 2.0], &[2]);
    let b = tensor(&[3.0, 4.0], &[2]);
    let y = forward(&Add, &[&a, &b]);
    assert_eq!(values(&y), vec![4.0, 6.0]);
    let g = tensor(&[0.5, 2.0], &[2]);
    let grads = backward(&Add, &g, &[&a, &b], &y);
    assert_eq!(grads.len(), 2);
    assert_eq!(values(&grads[0]), vec![0.5, 2.0]);
    assert_eq!(values(&grads[1]), vec![0.5, 2.0]);
    let wrong = tensor(&[1.0], &[1]);
    assert!(Op::<Real, CpuBackend>::backward(&Add, &wrong, &[&a, &b], &y).is_err());
}

#[test]
fn sub_forward_backward() {
    let a = tensor(&[1.0, 2.0], &[2]);
    let b = tensor(&[3.0, 5.0], &[2]);
    let y = forward(&Sub, &[&a, &b]);
    assert_eq!(values(&y), vec![-2.0, -3.0]);
    let g = tensor(&[0.5, 2.0], &[2]);
    let grads = backward(&Sub, &g, &[&a, &b], &y);
    assert_eq!(values(&grads[0]), vec![0.5, 2.0]);
    assert_eq!(values(&grads[1]), vec![-0.5, -2.0]);
}

#[test]
fn mul_forward_backward() {
    let a = tensor(&[1.0, 2.0], &[2]);
    let b = tensor(&[3.0, 5.0], &[2]);
    let y = forward(&Mul, &[&a, &b]);
    assert_eq!(values(&y), vec![3.0, 10.0]);
    let g = tensor(&[2.0, 10.0], &[2]);
    let grads = backward(&Mul, &g, &[&a, &b], &y);
    assert_eq!(values(&grads[0]), vec![6.0, 50.0]);
    assert_eq!(values(&grads[1]), vec![2.0, 20.0]);
}

#[test]
fn matmul_gradient_shapes_mirror_operands() {
    let a = tensor(&[1.0, 2.0, 3.0, 4.0, 5.0, 6.0], &[2, 3]);
    let b = tensor(&[1.0, 0.0, 0.0, 1.0, 2.0, 2.0, 1.0, 1.0, 3.0, 0.0, 1.0, 0.0], &[3, 4]);
    let y = forward(&MatMul, &[&a, &b]);
    assert_eq!(y.shape().dims(), &[2, 4]);
    let g = tensor(&[1.0; 8], &[2, 4]);
    let grads = backward(&MatMul, &g, &[&a, &b], &y);
    assert_eq!(grads[0].shape().dims(), &[2, 3]);
    assert_eq!(grads[1].shape().dims(), &[3, 4]);
    assert_eq!(values(&grads[0]), vec![2.0, 6.0, 4.0, 2.0, 6.0, 4.0]);
    assert_eq!(values(&grads[1]), vec![5.0, 5.0, 5.0, 5.0, 7.0, 7.0, 7.0, 7.0, 9.0, 9.0, 9.0, 9.0]);
}

#[test]
fn add_broadcast_backward_sums_columns() {
    let a = tensor(&[1.0, 2.0, 3.0, 4.0, 5.0, 6.0], &[2, 3]);
    let b = tensor(&[10.0, 20.0, 30.0], &[3]);
    let y = forward(&AddBroadcast, &[&a, &b]);
    assert_eq!(values(&y), vec![11.0, 22.0, 33.0, 14.0, 25.0, 36.0]);
    let g = tensor(&[1.0, 2.0, 3.0, 4.0, 5.0, 6.0], &[2, 3]);
    let grads = backward(&AddBroadcast, &g, &[&a, &b], &y);
    assert_eq!(grads[0].shape().dims(), &[2, 3]);
    assert_eq!(values(&grads[0]), vec![1.0, 2.0, 3.0, 4.0, 5.0, 6.0]);
    assert_eq!(grads[1].shape().dims(), &[3]);
    assert_eq!(values(&grads[1]), vec![5.0, 7.0, 9.0]);
}

#[test]
fn relu_sigmoid_log_backward() {
    let x = tensor(&[-1.0, 2.0], &[2]);
    let g = tensor(&[3.0, 4.0], &[2]);
    let y = forward(&ReLU, &[&x]);
    assert_eq!(values(&y), vec![0.0, 2.0]);
    assert_eq!(values(&backward(&ReLU, &g, &[&x], &y)[0]), vec![0.0, 4.0]);

    let s = forward(&Sigmoid, &[&tensor(&[0.0, 0.0], &[2])]);
    assert_eq!(values(&s), vec![0.5, 0.5]);
    assert_eq!(values(&backward(&Sigmoid, &g, &[&x], &s)[0]), vec![0.75, 1.0]);

    let p = tensor(&[1.0, 4.0], &[2]);
    let l = forward(&Log, &[&p]);
    assert!(close(&values(&l), &[0.0, 4.0f32.ln()]));
    assert_eq!(values(&backward(&Log, &g, &[&p], &l)[0]), vec![3.0, 1.0]);
}

#[test]
fn sum_backward_of_ones_is_ones() {
    let x = tensor(&[1.0; 5], &[5]);
    let y = forward(&Sum, &[&x]);
    assert_eq!(values(&y), vec![5.0]);
    let seed = tensor(&[1.0], &[1]);
    let grads = backward(&Sum, &seed, &[&x], &y);
    assert_eq!(grads[0].shape().dims(), &[5]);
    assert_eq!(values(&grads[0]), vec![1.0; 5]);
    let scaled = backward(&Sum, &tensor(&[2.5], &[1]), &[&x], &y);
    assert_eq!(values(&scaled[0]), vec![2.5; 5]);
    let not_scalar = tensor(&[1.0, 1.0], &[2]);
    assert!(Op::<Real, CpuBackend>::backward(&Sum, &not_scalar, &[&x], &y).is_err());
}

#[test]
fn softmax_forward_backward() {
    let x = tensor(&[0.0, 0.0], &[1, 2]);
    let y = forward(&Softmax, &[&x]);
    assert_eq!(values(&y), vec![0.5, 0.5]);
    let g = tensor(&[1.0, 0.0], &[1, 2]);
    assert_eq!(values(&backward(&Softmax, &g, &[&x], &y)[0]), vec![0.25, -0.25]);
}

#[test]
fn operators_check_the_number_of_inputs() {
    let a = tensor(&[1.0, 2.0], &[2]);
    let g = tensor(&[1.0, 1.0], &[2]);
    let two: [&dyn Op<Real, CpuBackend>; 5] = [&Add, &AddBroadcast, &Sub, &Mul, &MatMul];
    for op in two {
        assert!(op.forward(&[&a]).is_err());
        assert!(op.forward(&[&a, &a, &a]).is_err());
        assert!(op.backward(&g, &[&a], &a).is_err());
    }
    let one: [&dyn Op<Real, CpuBackend>; 5] = [&ReLU, &Sigmoid, &Sum, &Softmax, &Log];
    for op in one {
        assert!(op.forward(&[]).is_err());
        assert!(op.forward(&[&a, &a]).is_err());
        assert!(op.backward(&g, &[&a, &a], &a).is_err());
    }
    let e = Op::<Real, CpuBackend>::forward(&Add, &[&a]).err().unwrap();
    assert_eq!(e.to_string(), "op error: Add requires 2 inputs");
}

#[test]
fn operator_ids_and_names() {
    assert_eq!(Op::<Real, CpuBackend>::id(&Add), OpId::Add);
    assert_eq!(Op::<Real, CpuBackend>::id(&MatMul), OpId::MatMul);
    assert_eq!(Op::<Real, CpuBackend>::name(&Softmax), "Softmax");
    assert_eq!(Op::<Real, CpuBackend>::name(&AddBroadcast), "AddBroadcast");
    assert_eq!(OpId::Add.index(), 0);
    assert_eq!(OpId::Log.index(), 9);
}

#[test]
fn registry_holds_the_catalogue() {
    let mut reg = OpRegistry::new();
    let ids = [
        OpId::Add,
        OpId::AddBroadcast,
        OpId::Sub,
        OpId::Mul,
        OpId::MatMul,
        OpId::ReLU,
        OpId::Sigmoid,
        OpId::Sum,
        OpId::Softmax,
        OpId::Log,
    ];
    for id in ids {
        let op = reg.get(id).unwrap();
        assert_eq!(op.op_kind(), id);
        assert_eq!(Op::<Real, CpuBackend>::id(&op), id);
    }
    reg.register(Operator::Sum(Sum));
    let op = reg.get(OpId::Sum).unwrap();
    let x = tensor(&[1.0, 2.0, 3.0], &[3]);
    assert_eq!(values(&Op::<Real, CpuBackend>::forward(&op, &[&x]).unwrap()), vec![6.0]);
    let _other = OpRegistry::default();
}

#[test]
fn operator_ids_have_names() {
    assert_eq!(OpId::Add.name(), "Add");
    assert_eq!(OpId::AddBroadcast.name(), "AddBroadcast");
    assert_eq!(OpId::MatMul.name(), "MatMul");
    assert_eq!(OpId::ReLU.name(), "ReLU");
    assert_eq!(OpId::Log.name(), format!("{:?}", OpId::Log));
}
