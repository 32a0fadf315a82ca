use dl_core::{CpuBackend, Parameter, ParameterState, Scalar, Shape, Tensor};
use std::sync::Arc;

#[derive(Clone, Copy, Debug, PartialEq)]
struct Real(f32);

impl Scalar for Real {
    fn zero() -> Self {
        Real(0.0)
    }
    fn one() -> Self {
        Real(1.0)
    }
    fn add(self, rhs: Self) -> Self {
        Real(self.0 + rhs.0)
    }
    fn sub(self, rhs: Self) -> Self {
        Real(self.0 - rhs.0)
    }
    fn mul(self, rhs: Self) -> Self {
        Real(self.0 * rhs.0)
    }
    fn div(self, rhs: Self) -> Self {
        Real(self.0 / rhs.0)
    }
    fn neg(self) -> Self {
        Real(-self.0)
    }
    fn exp(self) -> Self {
        Real(self.0.exp())
    }
    fn ln(self) -> Self {
        Real(self.0.ln())
    }
    fn is_positive(self) -> bool {
        self.0 > 0.0
    }
    fn exceeds(self, rhs: Self) -> bool {
        self.0 > rhs.0
    }
    fn sqrt(self) -> Self {
        Real(self.0.sqrt())
    }
    fn powi(self, n: i32) -> Self {
        Real(self.0.powi(n))
    }
    fn from_count(n: usize) -> Self {
        Real(n as f32)
    }
}

type T = Tensor<Real, CpuBackend>;

fn tensor(data: &[f32], dims: &[usize]) -> T {
    let data: Vec<Real> = data.iter().map(|x| Real(*x)).collect();
    Tensor::from_vec(data, Shape::new(dims.to_vec()), Arc::new(CpuBackend::new())).unwrap()
}

fn values(t: &T) -> Vec<f32> {
    t.data().iter().map(|x| x.0).collect()
}

fn close(a: &[f32], b: &[f32]) -> bool {
    a.len() == b.len() && a.iter().zip(b.iter()).all(|(x, y)| (x - y).abs() < 1e-5)
}

type P = Parameter<Real, CpuBackend>;

#[test]
fn new_parameter_has_no_gradient_and_no_name() {
    let p: P = Parameter::new(tensor(&[1.0, 2.0], &[2]));
    assert_eq!(values(p.data()), vec![1.0, 2.0]);
    assert!(p.grad().is_none());
    assert!(p.name().is_none());
    assert!(!p.is_frozen());
    assert!(p.is_valid());
}

#[test]
fn named_parameter_keeps_its_name() {
    let mut p: P = Parameter::named("layer.weight", tensor(&[0.5], &[1]));
    assert_eq!(p.name(), Some("layer.weight"));
    p.set_name(Some("other".to_string()));
    assert_eq!(p.name(), Some("other"));
    p.set_name(None);
    assert_eq!(p.name(), None);
}

#[test]
fn gradient_is_set_and_cleared() {
    let mut p: P = Parameter::new(tensor(&[1.0, 2.0], &[2]));
    p.set_grad(Some(tensor(&[0.1, 0.2], &[2])));
    assert!(close(&values(p.grad().unwrap()), &[0.1, 0.2]));
    assert_eq!(values(p.data()), vec![1.0, 2.0]);
    p.zero_grad();
    assert!(p.grad().is_none());
    assert_eq!(values(p.data()), vec![1.0, 2.0]);
}

#[test]
fn frozen_flag_is_kept() {
    let mut p: P = Parameter::new(tensor(&[1.0], &[1]));
    p.set_frozen(true);
    assert!(p.is_frozen());
    p.set_frozen(false);
    assert!(!p.is_frozen());
}

#[test]
fn data_mut_changes_the_value_in_place() {
    let mut p: P = Parameter::new(tensor(&[1.0, 2.0], &[2]));
    p.data_mut().data_mut()[1] = Real(7.0);
    assert_eq!(values(p.data()), vec![1.0, 7.0]);
    assert_eq!(p.data().shape().dims(), &[2]);
}

#[test]
fn clone_keeps_every_part() {
    let mut p: P = Parameter::named("w", tensor(&[1.0, 2.0], &[2]));
    p.set_grad(Some(tensor(&[3.0, 4.0], &[2])));
    p.set_frozen(true);
    let q = p.clone();
    assert_eq!(q.name(), Some("w"));
    assert!(q.is_frozen());
    assert_eq!(values(q.data()), vec![1.0, 2.0]);
    assert_eq!(values(q.grad().unwrap()), vec![3.0, 4.0]);
}

#[test]
fn state_round_trip_keeps_name_shape_and_data() {
    let p: P = Parameter::named("bias", tensor(&[1.0, 2.0, 3.0, 4.0, 5.0, 6.0], &[2, 3]));
    let state = p.to_state();
    assert_eq!(state.name.as_deref(), Some("bias"));
    assert_eq!(state.shape, vec![2, 3]);
    assert_eq!(state.data.len(), 6);
    let q: P = Parameter::from_state(state, Arc::new(CpuBackend::new())).unwrap();
    assert_eq!(q.name(), Some("bias"));
    assert_eq!(q.data().shape().dims(), &[2, 3]);
    assert_eq!(values(q.data()), vec![1.0, 2.0, 3.0, 4.0, 5.0, 6.0]);
    assert!(q.grad().is_none());
    assert!(!q.is_frozen());
}

#[test]
fn from_state_rejects_data_that_does_not_fit() {
    let state = ParameterState {
        name: None,
        shape: vec![2, 2],
        data: vec![Real(1.0), Real(2.0), Real(3.0)],
    };
    let r: Result<P, _> = Parameter::from_state(state, Arc::new(CpuBackend::new()));
    assert!(r.is_err());
}

#[test]
fn load_state_replaces_value_and_keeps_the_rest() {
    let mut p: P = Parameter::named("w", tensor(&[0.0, 0.0], &[2]));
    p.set_frozen(true);
    let state = ParameterState {
        name: Some("ignored".to_string()),
        shape: vec![1, 2],
        data: vec![Real(5.0), Real(6.0)],
    };
    p.load_state(&state, Arc::new(CpuBackend::new())).unwrap();
    assert_eq!(values(p.data()), vec![5.0, 6.0]);
    assert_eq!(p.data().shape().dims(), &[1, 2]);
    assert!(p.is_frozen());
}

#[test]
fn load_state_rejects_and_leaves_the_value() {
    let mut p: P = Parameter::new(tensor(&[1.0, 2.0], &[2]));
    let state = ParameterState {
        name: None,
        shape: vec![3],
        data: vec![Real(5.0)],
    };
    assert!(p.load_state(&state, Arc::new(CpuBackend::new())).is_err());
    assert_eq!(values(p.data()), vec![1.0, 2.0]);
}
