use dl_core::train::{mean_loss, step_outcome};
use dl_core::{
    CpuBackend, DataLoader, InMemoryDataset, Linear, Optimizer, OptimizerError, Parameter, Scalar,
    Shape, Tensor, Trainer, SGD,
};
use std::sync::Arc;

#[derive(Clone, Copy, Debug, PartialEq)]
struct Real(f32);

impl Scalar for Real {
    fn zero() -> Self {
        Real(0.0)
    }
    fn one() -> Self {
        Real(1.0)
    }
    fn add(self, rhs: Self) -> Self {
        Real(self.0 + rhs.0)
    }
    fn sub(self, rhs: Self) -> Self {
        Real(self.0 - rhs.0)
    }
    fn mul(self, rhs: Self) -> Self {
        Real(self.0 * rhs.0)
    }
    fn div(self, rhs: Self) -> Self {
        Real(self.0 / rhs.0)
    }
    fn neg(self) -> Self {
        Real(-self.0)
    }
    fn exp(self) -> Self {
        Real(self.0.exp())
    }
    fn ln(self) -> Self {
        Real(self.0.ln())
    }
    fn is_positive(self) -> bool {
        self.0 > 0.0
    }
    fn exceeds(self, rhs: Self) -> bool {
        self.0 > rhs.0
    }
    fn sqrt(self) -> Self {
        Real(self.0.sqrt())
    }
    fn powi(self, n: i32) -> Self {
        Real(self.0.powi(n))
    }
    fn from_count(n: usize) -> Self {
        Real(n as f32)
    }
}

type T = Tensor<Real, CpuBackend>;

fn tensor(data: &[f32], dims: &[usize]) -> T {
    let data: Vec<Real> = data.iter().map(|x| Real(*x)).collect();
    Tensor::from_vec(data, Shape::new(dims.to_vec()), Arc::new(CpuBackend::new())).unwrap()
}

fn values(t: &T) -> Vec<f32> {
    t.data().iter().map(|x| x.0).collect()
}

fn close(a: &[f32], b: &[f32]) -> bool {
    a.len() == b.len() && a.iter().zip(b.iter()).all(|(x, y)| (x - y).abs() < 1e-5)
}

fn backend() -> Arc<CpuBackend> {
    Arc::new(CpuBackend::new())
}

fn trainer(inputs: usize, outputs: usize, lr: f32) -> Trainer<Linear<Real, CpuBackend>, SGD<Real>> {
    Trainer::new(Linear::new(inputs, outputs, backend()).unwrap(), SGD::new(Real(lr)))
}

#[test]
fn step_reports_the_loss_and_updates_the_parameters() {
    let mut t = trainer(2, 1, 0.1);
    let x = tensor(&[1.0, 2.0], &[1, 2]);
    let y = tensor(&[1.0], &[1, 1]);
    let r = t.step(backend(), &x, &y).unwrap();
    assert_eq!(r.loss, Real(1.0));
    assert!(close(&values(t.model.weight.grad().unwrap()), &[-2.0, -4.0]));
    assert!(close(&values(t.model.bias.grad().unwrap()), &[-2.0]));
    assert!(close(&values(t.model.weight.data()), &[0.2, 0.4]));
    assert!(close(&values(t.model.bias.data()), &[0.2]));
    let r = t.step(backend(), &x, &y).unwrap();
    assert!(close(&[r.loss.0], &[0.04]));
}

#[test]
fn step_batch_takes_the_mean_over_the_batch() {
    let mut t = trainer(1, 1, 0.5);
    let x = tensor(&[1.0, 3.0], &[2, 1]);
    let y = tensor(&[2.0, 4.0], &[2, 1]);
    let r = t.step_batch(backend(), &x, &y).unwrap();
    assert!(close(&[r.loss.0], &[10.0]));
    // gradient of the output is (0 - y) * 2 / 2; weight: -(2 * 1 + 4 * 3), bias: -(2 + 4)
    assert!(close(&values(t.model.weight.data()), &[7.0]));
    assert!(close(&values(t.model.bias.data()), &[3.0]));
}

#[test]
fn step_batch_ce_reports_the_cross_entropy() {
    let mut t = trainer(2, 2, 1.0);
    let x = tensor(&[1.0, 2.0], &[1, 2]);
    let y = tensor(&[1.0, 0.0], &[1, 2]);
    let r = t.step_batch_ce(backend(), &x, &y).unwrap();
    assert!(close(&[r.loss.0], &[std::f32::consts::LN_2]));
    assert!(close(&values(t.model.weight.data()), &[0.5, -0.5, 1.0, -1.0]));
    assert!(close(&values(t.model.bias.data()), &[0.5, -0.5]));
    let again = t.step_batch_ce(backend(), &x, &y).unwrap();
    assert!(again.loss.0 < r.loss.0);
}

#[test]
fn step_rejects_an_input_the_model_cannot_take() {
    let mut t = trainer(2, 1, 0.1);
    let r = t.step(backend(), &tensor(&[1.0, 2.0, 3.0], &[1, 3]), &tensor(&[1.0], &[1, 1]));
    assert!(r.is_err());
    assert_eq!(values(t.model.weight.data()), vec![0.0, 0.0]);
}

#[test]
fn step_rejects_a_target_of_another_shape() {
    let mut t = trainer(2, 1, 0.1);
    let r = t.step(backend(), &tensor(&[1.0, 2.0], &[1, 2]), &tensor(&[1.0, 2.0], &[1, 2]));
    let e = r.unwrap_err();
    assert!(e.to_string().starts_with("train error: graph error: "));
    assert_eq!(values(t.model.weight.data()), vec![0.0, 0.0]);
}

#[test]
fn step_leaves_a_frozen_parameter() {
    let mut t = trainer(2, 1, 0.1);
    t.model.bias.set_frozen(true);
    let x = tensor(&[1.0, 2.0], &[1, 2]);
    let y = tensor(&[1.0], &[1, 1]);
    t.step(backend(), &x, &y).unwrap();
    assert_eq!(values(t.model.bias.data()), vec![0.0]);
    assert!(close(&values(t.model.weight.data()), &[0.2, 0.4]));
}

/// An optimizer that refuses every step.
struct Refusing;

impl Optimizer<Real, CpuBackend> for Refusing {
    fn step(&mut self, _parameters: &mut [&mut Parameter<Real, CpuBackend>]) -> Result<(), OptimizerError> {
        Err(OptimizerError("refused".to_string()))
    }
}

#[test]
fn step_fails_where_the_optimizer_fails() {
    let mut t = Trainer::new(Linear::new(2, 1, backend()).unwrap(), Refusing);
    let r = t.step(backend(), &tensor(&[1.0, 2.0], &[1, 2]), &tensor(&[1.0], &[1, 1]));
    assert_eq!(r.unwrap_err().to_string(), "train error: optimizer error: refused");
    assert_eq!(values(t.model.weight.data()), vec![0.0, 0.0]);
    assert!(close(&values(t.model.weight.grad().unwrap()), &[-2.0, -4.0]));
}

#[test]
fn step_outcome_passes_the_loss_or_the_error() {
    let r = step_outcome(Real(2.5), Ok(())).unwrap();
    assert_eq!(r.loss, Real(2.5));
    let e = step_outcome(Real(2.5), Err(OptimizerError("no".to_string()))).unwrap_err();
    assert_eq!(e.0, "optimizer error: no");
    assert_eq!(e.to_string(), "train error: optimizer error: no");
}

#[test]
fn mean_loss_divides_the_sum_by_the_count() {
    assert_eq!(mean_loss(&[Real(1.0), Real(2.0), Real(6.0)]), (Real(3.0), 3));
    assert_eq!(mean_loss::<Real>(&[]), (Real(0.0), 0));
    assert_eq!(mean_loss(&[Real(-4.0)]), (Real(-4.0), 1));
}

fn samples(n: usize) -> Vec<(T, T)> {
    let mut all = Vec::new();
    for i in 0..n {
        let x = i as f32;
        all.push((tensor(&[x, 1.0], &[1, 2]), tensor(&[2.0 * x + 1.0], &[1, 1])));
    }
    all
}

#[test]
fn run_epoch_averages_the_batch_losses() {
    let mut t = trainer(2, 1, 0.05);
    let mut loader = DataLoader::new(InMemoryDataset::new(samples(3)), 2);
    let (mean, batches) = t.run_epoch(backend(), &mut loader).unwrap();
    assert_eq!(batches, 2);
    let mut by_hand = trainer(2, 1, 0.05);
    let first = by_hand
        .step_batch(backend(), &tensor(&[0.0, 1.0, 1.0, 1.0], &[2, 2]), &tensor(&[1.0, 3.0], &[2, 1]))
        .unwrap();
    let second = by_hand
        .step_batch(backend(), &tensor(&[2.0, 1.0], &[1, 2]), &tensor(&[5.0], &[1, 1]))
        .unwrap();
    assert_eq!(first.loss, Real(5.0));
    assert_eq!(mean.0, (0.0 + first.loss.0 + second.loss.0) / 2.0);
    assert_eq!(values(t.model.weight.data()), values(by_hand.model.weight.data()));
    assert!(loader.next_batch().is_none());
}

#[test]
fn run_epoch_without_samples_is_zero() {
    let mut t = trainer(2, 1, 0.05);
    let mut loader = DataLoader::new(InMemoryDataset::new(samples(0)), 2);
    assert_eq!(t.run_epoch(backend(), &mut loader).unwrap(), (Real(0.0), 0));
}

#[test]
fn run_epoch_fails_on_samples_the_model_cannot_take() {
    let mut t = trainer(3, 1, 0.05);
    let mut loader = DataLoader::new(InMemoryDataset::new(samples(3)), 2);
    assert!(t.run_epoch(backend(), &mut loader).is_err());
}

#[test]
fn training_lowers_the_loss() {
    let mut t = trainer(2, 1, 0.05);
    let mut loader = DataLoader::new(InMemoryDataset::new(samples(4)), 2);
    let (first, _) = t.run_epoch(backend(), &mut loader).unwrap();
    let mut last = first;
    for _ in 0..50 {
        loader.reset();
        last = t.run_epoch(backend(), &mut loader).unwrap().0;
    }
    assert!(last.0 < first.0);
}
