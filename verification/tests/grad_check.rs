use dl_core::autograd::check::{agree, check_gradients, default_eps, loss_value, numerical_grad};
use dl_core::{CpuBackend, Graph, GraphResult, NodeId, Scalar, Shape, Tensor};
use std::sync::Arc;

#[derive(Clone, Copy, Debug, PartialEq)]
struct Real(f32);

impl Scalar for Real {
    fn zero() -> Self {
        Real(0.0)
    }
    fn one() -> Self {
        Real(1.0)
    }
    fn add(self, rhs: Self) -> Self {
        Real(self.0 + rhs.0)
    }
    fn sub(self, rhs: Self) -> Self {
        Real(self.0 - rhs.0)
    }
    fn mul(self, rhs: Self) -> Self {
        Real(self.0 * rhs.0)
    }
    fn div(self, rhs: Self) -> Self {
        Real(self.0 / rhs.0)
    }
    fn neg(self) -> Self {
        Real(-self.0)
    }
    fn exp(self) -> Self {
        Real(self.0.exp())
    }
    fn ln(self) -> Self {
        Real(self.0.ln())
    }
    fn is_positive(self) -> bool {
        self.0 > 0.0
    }
    fn exceeds(self, rhs: Self) -> bool {
        self.0 > rhs.0
    }
    fn sqrt(self) -> Self {
        Real(self.0.sqrt())
    }
    fn powi(self, n: i32) -> Self {
        Real(self.0.powi(n))
    }
    fn from_count(n: usize) -> Self {
        Real(n as f32)
    }
}

type T = Tensor<Real, CpuBackend>;

fn tensor(data: &[f32], dims: &[usize]) -> T {
    let data: Vec<Real> = data.iter().map(|x| Real(*x)).collect();
    Tensor::from_vec(data, Shape::new(dims.to_vec()), Arc::new(CpuBackend::new())).unwrap()
}

fn values(t: &T) -> Vec<f32> {
    t.data().iter().map(|x| x.0).collect()
}

fn close(a: &[f32], b: &[f32]) -> bool {
    a.len() == b.len() && a.iter().zip(b.iter()).all(|(x, y)| (x - y).abs() < 1e-5)
}


type G = Graph<Real, CpuBackend>;

fn step() -> Real {
    default_eps()
}

#[test]
fn test_numerical_grad_add() {
    let x = tensor(&[1.0, 2.0], &[2]);
    let f = |t: &T| Real(values(t).iter().sum::<f32>());
    let g = numerical_grad(&x, f, step());
    assert_eq!(g.len(), 2);
    assert!((g[0].0 - 1.0).abs() < 1e-2, "g[0] = {} expected ~1", g[0].0);
    assert!((g[1].0 - 1.0).abs() < 1e-2, "g[1] = {} expected ~1", g[1].0);
}

#[test]
fn test_check_gradients_add() {
    let x = tensor(&[1.0, 2.0], &[2]);
    let y = tensor(&[3.0, 4.0], &[2]);
    let build = |g: &mut G, ids: &[NodeId]| {
        assert_eq!(ids.len(), 2);
        g.add(ids[0], ids[1]).and_then(|sum_id| g.sum(sum_id))
    };
    check_gradients(&build, &[x, y], step(), Real(1e-2), Real(1e-2)).unwrap();
}

#[test]
fn test_check_gradients_matmul() {
    let a = tensor(&[1.0, 2.0, 3.0, 4.0], &[2, 2]);
    let c = tensor(&[0.5, 0.5, 0.5, 0.5], &[2, 2]);
    let build = |g: &mut G, ids: &[NodeId]| {
        assert_eq!(ids.len(), 2);
        g.matmul(ids[0], ids[1]).and_then(|out_id| g.sum(out_id))
    };
    check_gradients(&build, &[a, c], step(), Real(1e-2), Real(1e-2)).unwrap();
}

#[test]
fn test_check_gradients_relu() {
    let x = tensor(&[-1.0, 0.5, 0.01, 2.0], &[4]);
    let build = |g: &mut G, ids: &[NodeId]| {
        assert_eq!(ids.len(), 1);
        g.relu(ids[0]).and_then(|out_id| g.sum(out_id))
    };
    check_gradients(&build, &[x], step(), Real(1e-2), Real(1e-2)).unwrap();
}

#[test]
fn check_gradients_sigmoid() {
    let x = tensor(&[-1.0, 0.5, 0.0, 2.0], &[4]);
    let build = |g: &mut G, ids: &[NodeId]| g.sigmoid(ids[0]).and_then(|out_id| g.sum(out_id));
    check_gradients(&build, &[x], Real(1e-3), Real(1e-2), Real(1e-2)).unwrap();
}

#[test]
fn check_gradients_softmax() {
    let x = tensor(&[0.1, 0.7, -0.3, 1.2, 0.4, -0.8], &[2, 3]);
    let w = tensor(&[1.0, 2.0, 3.0, -1.0, 0.5, 2.0], &[2, 3]);
    let build = |g: &mut G, ids: &[NodeId]| {
        let y = g.softmax(ids[0])?;
        let p = g.mul(y, ids[1])?;
        g.sum(p)
    };
    check_gradients(&build, &[x, w], Real(1e-3), Real(1e-2), Real(1e-2)).unwrap();
}

#[test]
fn check_gradients_log() {
    let x = tensor(&[0.5, 1.0, 2.0, 4.0], &[4]);
    let build = |g: &mut G, ids: &[NodeId]| g.log(ids[0]).and_then(|out_id| g.sum(out_id));
    check_gradients(&build, &[x], Real(1e-3), Real(1e-2), Real(1e-2)).unwrap();
}

#[test]
fn check_gradients_sum() {
    let x = tensor(&[0.5, -1.0, 2.0], &[3]);
    let build = |g: &mut G, ids: &[NodeId]| g.sum(ids[0]);
    check_gradients(&build, &[x], step(), Real(1e-2), Real(1e-2)).unwrap();
}

#[test]
fn check_gradients_sub_mul_broadcast() {
    let x = tensor(&[0.5, -1.0, 2.0, 1.5], &[2, 2]);
    let y = tensor(&[1.5, 0.25, -2.0, 3.0], &[2, 2]);
    let b = tensor(&[0.3, -0.7], &[2]);
    let build = |g: &mut G, ids: &[NodeId]| {
        let d = g.sub(ids[0], ids[1])?;
        let shifted = g.add_broadcast(d, ids[2])?;
        let p = g.mul(shifted, ids[0])?;
        g.sum(p)
    };
    check_gradients(&build, &[x, y, b], Real(1e-3), Real(1e-2), Real(1e-2)).unwrap();
}

#[test]
fn default_step_is_a_ten_thousandth() {
    assert_eq!(step(), Real(1e-4));
}

#[test]
fn numerical_grad_of_a_square() {
    let x = tensor(&[3.0, -2.0], &[2]);
    let f = |t: &T| Real(values(t).iter().map(|v| v * v).sum::<f32>());
    let g = numerical_grad(&x, f, Real(0.5));
    // ((v + 0.5)^2 - (v - 0.5)^2) / 1 = 2 v, exactly
    assert_eq!(g, vec![Real(6.0), Real(-4.0)]);
}

#[test]
fn agree_within_either_tolerance() {
    let tol = Real(1e-2);
    assert!(agree(Real(1.0), Real(1.005), tol, tol));
    assert!(!agree(Real(1.0), Real(2.0), tol, tol));
    // beyond the absolute tolerance, within the relative one
    assert!(agree(Real(100.0), Real(100.5), tol, tol));
    // beyond the relative tolerance, within the absolute one
    assert!(agree(Real(0.0), Real(0.005), tol, tol));
    // beyond both
    assert!(!agree(Real(0.0), Real(0.02), tol, tol));
    assert!(!agree(Real(0.02), Real(0.0), tol, tol));
}

#[test]
fn agree_adds_the_two_tolerances() {
    // |0 - 0.5| = 0.5 is beyond 0.3 and beyond 0.5 * 0.5, and within 0.3 + 0.5 * 0.5
    assert!(agree(Real(0.0), Real(0.5), Real(0.5), Real(0.3)));
    assert!(!agree(Real(0.0), Real(0.5), Real(0.5), Real(0.2)));
    // the bound itself agrees
    assert!(agree(Real(3.0), Real(2.0), Real(0.25), Real(0.5)));
    // the size of the estimate counts, not that of the gradient
    assert!(!agree(Real(10.0), Real(0.0), Real(0.5), Real(1.0)));
    assert!(agree(Real(0.0), Real(10.0), Real(0.95), Real(1.0)));
}

#[test]
fn check_gradients_at_the_kink_with_wide_tolerances() {
    // gradient 0, central difference a half: 0.5 <= 0.3 + 0.5 * 0.5
    let x = tensor(&[0.0], &[1]);
    let build = |g: &mut G, ids: &[NodeId]| g.relu(ids[0]).and_then(|out_id| g.sum(out_id));
    assert_eq!(check_gradients(&build, &[x.clone()], step(), Real(0.5), Real(0.3)), Ok(()));
    assert!(check_gradients(&build, &[x], step(), Real(0.5), Real(0.2)).is_err());
}

#[test]
fn loss_value_builds_on_fresh_leaves() {
    let x = tensor(&[1.0, 2.0], &[2]);
    let y = tensor(&[3.0, 4.0], &[2]);
    let other = tensor(&[10.0, 20.0], &[2]);
    let build = |g: &mut G, ids: &[NodeId]| g.add(ids[0], ids[1]).and_then(|s| g.sum(s));
    let inputs = [x, y];
    assert_eq!(loss_value(&build, &inputs, 0, &other), Ok(Real(37.0)));
    assert_eq!(loss_value(&build, &inputs, 1, &other), Ok(Real(33.0)));
    assert_eq!(loss_value(&build, &inputs, 2, &other), Ok(Real(10.0)));
}

#[test]
fn loss_value_fails_where_the_loss_cannot_be_built() {
    let x = tensor(&[1.0, 2.0], &[2]);
    let other = tensor(&[1.0, 2.0, 3.0], &[3]);
    let build = |g: &mut G, ids: &[NodeId]| g.add(ids[0], ids[1]);
    let inputs = [x.clone(), x];
    let r = loss_value(&build, &inputs, 0, &other);
    assert!(r.unwrap_err().starts_with("graph error: "));
    let lost = |_g: &mut G, _ids: &[NodeId]| -> GraphResult<NodeId> { Ok(99) };
    assert!(loss_value(&lost, &inputs, 0, &other).is_err());
}

#[test]
fn check_gradients_reports_the_first_disagreement() {
    // at the kink of ReLU the gradient is 0 and the central difference a half
    let x = tensor(&[1.0, 0.0], &[2]);
    let build = |g: &mut G, ids: &[NodeId]| g.relu(ids[0]).and_then(|out_id| g.sum(out_id));
    let r = check_gradients(&build, &[x], step(), Real(1e-2), Real(1e-2));
    assert_eq!(r, Err("input 0 elem 1: gradient and central difference differ".to_string()));
}

#[test]
fn check_gradients_reports_an_input_without_gradient() {
    let x = tensor(&[1.0, 2.0], &[2]);
    let y = tensor(&[3.0, 4.0], &[2]);
    let build = |g: &mut G, ids: &[NodeId]| g.sum(ids[0]);
    let r = check_gradients(&build, &[x, y], step(), Real(1e-2), Real(1e-2));
    assert_eq!(r, Err("missing grad at input 1".to_string()));
}

#[test]
fn check_gradients_reports_a_loss_that_cannot_be_built() {
    let x = tensor(&[1.0, 2.0], &[2]);
    let y = tensor(&[3.0, 4.0, 5.0], &[3]);
    let build = |g: &mut G, ids: &[NodeId]| g.add(ids[0], ids[1]).and_then(|s| g.sum(s));
    let r = check_gradients(&build, &[x, y], step(), Real(1e-2), Real(1e-2));
    assert!(r.unwrap_err().starts_with("graph error: "));
}

#[test]
fn check_gradients_without_inputs() {
    let build = |g: &mut G, _ids: &[NodeId]| Ok(g.var(tensor(&[1.0], &[1])));
    let none: [T; 0] = [];
    assert_eq!(check_gradients(&build, &none, step(), Real(1e-2), Real(1e-2)), Ok(()));
}
