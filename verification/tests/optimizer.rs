use dl_core::{Adam, CpuBackend, Optimizer, Parameter, Scalar, Shape, Tensor, SGD};
use std::sync::Arc;

#[derive(Clone, Copy, Debug, PartialEq)]
struct Real(f32);

impl Scalar for Real {
    fn zero() -> Self {
        Real(0.0)
    }
    fn one() -> Self {
        Real(1.0)
    }
    fn add(self, rhs: Self) -> Self {
        Real(self.0 + rhs.0)
    }
    fn sub(self, rhs: Self) -> Self {
        Real(self.0 - rhs.0)
    }
    fn mul(self, rhs: Self) -> Self {
        Real(self.0 * rhs.0)
    }
    fn div(self, rhs: Self) -> Self {
        Real(self.0 / rhs.0)
    }
    fn neg(self) -> Self {
        Real(-self.0)
    }
    fn exp(self) -> Self {
        Real(self.0.exp())
    }
    fn ln(self) -> Self {
        Real(self.0.ln())
    }
    fn is_positive(self) -> bool {
        self.0 > 0.0
    }
    fn exceeds(self, rhs: Self) -> bool {
        self.0 > rhs.0
    }
    fn sqrt(self) -> Self {
        Real(self.0.sqrt())
    }
    fn powi(self, n: i32) -> Self {
        Real(self.0.powi(n))
    }
    fn from_count(n: usize) -> Self {
        Real(n as f32)
    }
}

type T = Tensor<Real, CpuBackend>;

fn tensor(data: &[f32], dims: &[usize]) -> T {
    let data: Vec<Real> = data.iter().map(|x| Real(*x)).collect();
    Tensor::from_vec(data, Shape::new(dims.to_vec()), Arc::new(CpuBackend::new())).unwrap()
}

fn values(t: &T) -> Vec<f32> {
    t.data().iter().map(|x| x.0).collect()
}

fn close(a: &[f32], b: &[f32]) -> bool {
    a.len() == b.len() && a.iter().zip(b.iter()).all(|(x, y)| (x - y).abs() < 1e-5)
}

type P = Parameter<Real, CpuBackend>;

fn parameter(data: &[f32], grad: Option<&[f32]>) -> P {
    let mut p: P = Parameter::new(tensor(data, &[data.len()]));
    if let Some(g) = grad {
        p.set_grad(Some(tensor(g, &[g.len()])));
    }
    p
}

#[test]
fn sgd_subtracts_the_scaled_gradient() {
    let mut p = parameter(&[1.0, 2.0], Some(&[0.5, -1.0]));
    let mut opt = SGD::new(Real(0.1));
    opt.step(&mut [&mut p]).unwrap();
    assert!(close(&values(p.data()), &[0.95, 2.1]));
    assert!(close(&values(p.grad().unwrap()), &[0.5, -1.0]));
}

#[test]
fn sgd_update_is_one_parameter_of_a_step() {
    let mut p = parameter(&[1.0, 2.0], Some(&[0.5, -1.0]));
    let mut q = p.clone();
    let mut opt = SGD::new(Real(0.1));
    opt.update(&mut p).unwrap();
    opt.step(&mut [&mut q]).unwrap();
    assert_eq!(values(p.data()), values(q.data()));
}

#[test]
fn sgd_leaves_frozen_and_gradient_free_parameters() {
    let mut frozen = parameter(&[1.0, 2.0], Some(&[0.5, -1.0]));
    frozen.set_frozen(true);
    let mut bare = parameter(&[3.0], None);
    let mut free = parameter(&[4.0], Some(&[1.0]));
    let mut opt = SGD::new(Real(0.5));
    opt.step(&mut [&mut frozen, &mut bare, &mut free]).unwrap();
    assert_eq!(values(frozen.data()), vec![1.0, 2.0]);
    assert_eq!(values(bare.data()), vec![3.0]);
    assert_eq!(values(free.data()), vec![3.5]);
}

#[test]
fn sgd_rejects_a_gradient_of_another_size() {
    let mut p = parameter(&[1.0, 2.0], Some(&[0.5]));
    let mut opt = SGD::new(Real(0.1));
    let r = opt.step(&mut [&mut p]);
    assert!(r.is_err());
    assert_eq!(r.unwrap_err().to_string(), "optimizer error: param and grad shape mismatch");
    assert_eq!(values(p.data()), vec![1.0, 2.0]);
}

#[test]
fn adam_first_step_moves_by_the_learning_rate() {
    let mut p = parameter(&[1.0, -1.0], Some(&[0.5, -2.0]));
    let mut opt: Adam<Real> = Adam::new(Real(0.1));
    opt.step(&mut [&mut p]).unwrap();
    assert!(close(&values(p.data()), &[0.9, -0.9]));
}

#[test]
fn adam_second_step_follows_the_moments() {
    let mut p = parameter(&[1.0], Some(&[1.0]));
    let mut opt: Adam<Real> = Adam::new(Real(0.1));
    opt.step(&mut [&mut p]).unwrap();
    p.set_grad(Some(tensor(&[3.0], &[1])));
    opt.step(&mut [&mut p]).unwrap();
    let m = 0.9f32 * 0.1 + 0.1 * 3.0;
    let v = 0.999f32 * 0.001 + 0.001 * 9.0;
    let m_hat = m / (1.0 - 0.81);
    let v_hat = v / (1.0 - 0.998001);
    let expected = 0.9 - 0.1 * m_hat / (v_hat.sqrt() + 1e-8);
    let got = values(p.data());
    assert!((got[0] - expected).abs() < 1e-3, "{} vs {}", got[0], expected);
}

#[test]
fn adam_with_other_rates() {
    let mut p = parameter(&[1.0], Some(&[2.0]));
    let mut opt: Adam<Real> = Adam::new(Real(0.5)).with_betas(Real(0.5), Real(0.5)).with_eps(Real(1.0));
    assert_eq!(opt.beta1, Real(0.5));
    assert_eq!(opt.beta2, Real(0.5));
    assert_eq!(opt.eps, Real(1.0));
    opt.step(&mut [&mut p]).unwrap();
    // m = 1, v = 2, both corrections are 2: 1 - 0.5 * 2 / (sqrt(4) + 1)
    assert!(close(&values(p.data()), &[1.0 - 1.0 / 3.0]));
}

#[test]
fn adam_defaults() {
    let opt: Adam<Real> = Adam::new(Real(0.001));
    assert_eq!(opt.lr, Real(0.001));
    assert!((opt.beta1.0 - 0.9).abs() < 1e-7);
    assert!((opt.beta2.0 - 0.999).abs() < 1e-7);
    assert!((opt.eps.0 - 1e-8).abs() < 1e-12);
}

#[test]
fn adam_leaves_frozen_and_gradient_free_parameters() {
    let mut frozen = parameter(&[1.0, 2.0], Some(&[0.5, -1.0]));
    frozen.set_frozen(true);
    let mut bare = parameter(&[3.0], None);
    let mut free = parameter(&[4.0], Some(&[1.0]));
    let mut opt: Adam<Real> = Adam::new(Real(0.5));
    opt.step(&mut [&mut frozen, &mut bare, &mut free]).unwrap();
    assert_eq!(values(frozen.data()), vec![1.0, 2.0]);
    assert_eq!(values(bare.data()), vec![3.0]);
    assert!(close(&values(free.data()), &[3.5]));
}

#[test]
fn adam_rejects_a_gradient_of_another_size() {
    let mut p = parameter(&[1.0, 2.0], Some(&[0.5]));
    let mut opt: Adam<Real> = Adam::new(Real(0.1));
    assert!(opt.step(&mut [&mut p]).is_err());
    assert_eq!(values(p.data()), vec![1.0, 2.0]);
}
