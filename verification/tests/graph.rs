use dl_core::{CpuBackend, Graph, OpId, Scalar, Shape, Tensor};
use std::sync::Arc;

#[derive(Clone, Copy, Debug, PartialEq)]
struct Real(f32);

impl Scalar for Real {
    fn zero() -> Self {
        Real(0.0)
    }
    fn one() -> Self {
        Real(1.0)
    }
    fn add(self, rhs: Self) -> Self {
        Real(self.0 + rhs.0)
    }
    fn sub(self, rhs: Self) -> Self {
        Real(self.0 - rhs.0)
    }
    fn mul(self, rhs: Self) -> Self {
        Real(self.0 * rhs.0)
    }
    fn div(self, rhs: Self) -> Self {
        Real(self.0 / rhs.0)
    }
    fn neg(self) -> Self {
        Real(-self.0)
    }
    fn exp(self) -> Self {
        Real(self.0.exp())
    }
    fn ln(self) -> Self {
        Real(self.0.ln())
    }
    fn is_positive(self) -> bool {
        self.0 > 0.0
    }
    fn exceeds(self, rhs: Self) -> bool {
        self.0 > rhs.0
    }
    fn sqrt(self) -> Self {
        Real(self.0.sqrt())
    }
    fn powi(self, n: i32) -> Self {
        Real(self.0.powi(n))
    }
    fn from_count(n: usize) -> Self {
        Real(n as f32)
    }
}

type T = Tensor<Real, CpuBackend>;

fn tensor(data: &[f32], dims: &[usize]) -> T {
    let data: Vec<Real> = data.iter().map(|x| Real(*x)).collect();
    Tensor::from_vec(data, Shape::new(dims.to_vec()), Arc::new(CpuBackend::new())).unwrap()
}

fn values(t: &T) -> Vec<f32> {
    t.data().iter().map(|x| x.0).collect()
}

#[test]
fn sum_of_add_end_to_end() {
    let mut g: Graph<Real, CpuBackend> = Graph::new();
    let a = g.var(tensor(&[1.0, 2.0], &[2]));
    let b = g.var(tensor(&[3.0, 4.0], &[2]));
    let s = g.add(a, b).unwrap();
    let out = g.sum(s).unwrap();
    assert_eq!(values(g.data(out).unwrap()), vec![10.0]);
    g.backward(out).unwrap();
    assert_eq!(values(g.grad(a).unwrap().unwrap()), vec![1.0, 1.0]);
    assert_eq!(values(g.grad(b).unwrap().unwrap()), vec![1.0, 1.0]);
}

#[test]
fn sum_of_matmul_end_to_end() {
    let mut g: Graph<Real, CpuBackend> = Graph::new();
    let a = g.var(tensor(&[1.0, 2.0, 3.0, 4.0], &[2, 2]));
    let c = g.var(tensor(&[0.5, 0.5, 0.5, 0.5], &[2, 2]));
    let m = g.matmul(a, c).unwrap();
    let out = g.sum(m).unwrap();
    assert_eq!(values(g.data(out).unwrap()), vec![10.0]);
    g.backward(out).unwrap();
    let ga = g.grad(a).unwrap().unwrap();
    assert_eq!(ga.shape().dims(), &[2, 2]);
    assert_eq!(values(ga), vec![1.0, 1.0, 1.0, 1.0]);
    let gc = g.grad(c).unwrap().unwrap();
    assert_eq!(gc.shape().dims(), &[2, 2]);
    assert_eq!(values(gc), vec![4.0, 4.0, 6.0, 6.0]);
}

#[test]
fn fan_out_accumulates() {
    let mut g: Graph<Real, CpuBackend> = Graph::new();
    let a = g.var(tensor(&[1.0, 2.0, 3.0], &[3]));
    let twice = g.add(a, a).unwrap();
    let out = g.sum(twice).unwrap();
    g.backward(out).unwrap();
    assert_eq!(values(g.grad(a).unwrap().unwrap()), vec![2.0, 2.0, 2.0]);

    let mut h: Graph<Real, CpuBackend> = Graph::new();
    let a = h.var(tensor(&[1.0, 2.0, 3.0], &[3]));
    let b = h.var(tensor(&[1.0, 2.0, 3.0], &[3]));
    let s = h.add(a, b).unwrap();
    let out = h.sum(s).unwrap();
    h.backward(out).unwrap();
    assert_eq!(values(h.grad(a).unwrap().unwrap()), vec![1.0, 1.0, 1.0]);
}

#[test]
fn unreachable_nodes_keep_absent_gradient() {
    let mut g: Graph<Real, CpuBackend> = Graph::new();
    let a = g.var(tensor(&[1.0, 2.0], &[2]));
    let b = g.var(tensor(&[3.0, 4.0], &[2]));
    let out_a = g.sum(a).unwrap();
    let out_b = g.sum(b).unwrap();
    g.backward(out_a).unwrap();
    assert!(g.grad(a).unwrap().is_some());
    assert!(g.grad(out_a).unwrap().is_some());
    assert!(g.grad(b).unwrap().is_none());
    assert!(g.grad(out_b).unwrap().is_none());
}

#[test]
fn apply_rejects_and_leaves_graph() {
    let mut g: Graph<Real, CpuBackend> = Graph::new();
    let a = g.var(tensor(&[1.0, 2.0], &[2]));
    let b = g.var(tensor(&[1.0, 2.0, 3.0], &[3]));
    assert!(g.add(a, b).is_err());
    assert!(g.apply(OpId::Add, &[a]).is_err());
    assert!(g.apply(OpId::Add, &[a, 7]).is_err());
    assert!(g.data(2).is_err());
    assert!(g.grad(2).is_err());
    assert!(g.backward(2).is_err());
    let c = g.add(a, a).unwrap();
    assert_eq!(c, 2);
}

#[test]
fn backward_from_an_array_seeds_ones_of_its_shape() {
    let mut g: Graph<Real, CpuBackend> = Graph::new();
    let a = g.var(tensor(&[1.0, 2.0], &[2]));
    let b = g.var(tensor(&[3.0, 4.0], &[2]));
    let p = g.mul(a, b).unwrap();
    g.backward(p).unwrap();
    assert_eq!(values(g.grad(p).unwrap().unwrap()), vec![1.0, 1.0]);
    assert_eq!(values(g.grad(a).unwrap().unwrap()), vec![3.0, 4.0]);
    assert_eq!(values(g.grad(b).unwrap().unwrap()), vec![1.0, 2.0]);
}

#[test]
fn backward_from_a_leaf_gives_it_ones() {
    let mut g: Graph<Real, CpuBackend> = Graph::new();
    let a = g.var(tensor(&[5.0, 6.0, 7.0], &[3]));
    let b = g.var(tensor(&[1.0], &[1]));
    g.backward(a).unwrap();
    assert_eq!(values(g.grad(a).unwrap().unwrap()), vec![1.0, 1.0, 1.0]);
    assert!(g.grad(b).unwrap().is_none());
}

#[test]
fn a_failed_backward_leaves_the_gradients() {
    let mut g: Graph<Real, CpuBackend> = Graph::new();
    let a = g.var(tensor(&[1.0, 2.0], &[2]));
    let out = g.sum(a).unwrap();
    let e = g.backward(out + 1).unwrap_err();
    assert!(e.to_string().starts_with("graph error: "));
    assert!(g.grad(a).unwrap().is_none());
    assert!(g.grad(out).unwrap().is_none());
}

#[test]
fn a_second_backward_adds_to_the_gradients() {
    let mut g: Graph<Real, CpuBackend> = Graph::new();
    let a = g.var(tensor(&[1.0, -2.0], &[2]));
    let r = g.relu(a).unwrap();
    let out = g.sum(r).unwrap();
    g.backward(out).unwrap();
    assert_eq!(values(g.grad(a).unwrap().unwrap()), vec![1.0, 0.0]);
    g.backward(out).unwrap();
    // the output is seeded anew; the node between keeps what it had and gets as much again
    assert_eq!(values(g.grad(out).unwrap().unwrap()), vec![1.0]);
    assert_eq!(values(g.grad(r).unwrap().unwrap()), vec![2.0, 2.0]);
    assert_eq!(values(g.grad(a).unwrap().unwrap()), vec![3.0, 0.0]);
}

#[test]
fn shared_node_in_two_branches_gets_the_sum() {
    let mut g: Graph<Real, CpuBackend> = Graph::new();
    let a = g.var(tensor(&[1.0, 2.0], &[2]));
    let w = g.var(tensor(&[3.0, 5.0], &[2]));
    let left = g.mul(a, w).unwrap();
    let right = g.sigmoid(a).unwrap();
    let both = g.add(left, right).unwrap();
    let out = g.sum(both).unwrap();
    g.backward(out).unwrap();
    let s = |x: f32| 1.0 / (1.0 + (-x).exp());
    let expected = [3.0 + s(1.0) * (1.0 - s(1.0)), 5.0 + s(2.0) * (1.0 - s(2.0))];
    let got = values(g.grad(a).unwrap().unwrap());
    assert!((got[0] - expected[0]).abs() < 1e-5 && (got[1] - expected[1]).abs() < 1e-5);
}

#[test]
fn nodes_are_numbered_in_order_of_creation() {
    let mut g: Graph<Real, CpuBackend> = Graph::default();
    assert_eq!(g.var(tensor(&[1.0], &[1])), 0);
    assert_eq!(g.var(tensor(&[2.0], &[1])), 1);
    assert_eq!(g.add(0, 1).unwrap(), 2);
    assert_eq!(values(g.data(2).unwrap()), vec![3.0]);
    assert!(g.grad(2).unwrap().is_none());
}
