use dl_core::{
    CpuBackend, DataLoader, InMemoryDataset, Linear, Scalar, Shape, Tensor, TensorError, Trainer,
    UniformSource, SGD,
};
use rand::rngs::StdRng;
use rand::{Rng, SeedableRng};
use std::sync::Arc;

#[derive(Clone, Copy, Debug, PartialEq)]
struct Real(f32);

impl Scalar for Real {
    fn zero() -> Self {
        Real(0.0)
    }
    fn one() -> Self {
        Real(1.0)
    }
    fn add(self, rhs: Self) -> Self {
        Real(self.0 + rhs.0)
    }
    fn sub(self, rhs: Self) -> Self {
        Real(self.0 - rhs.0)
    }
    fn mul(self, rhs: Self) -> Self {
        Real(self.0 * rhs.0)
    }
    fn div(self, rhs: Self) -> Self {
        Real(self.0 / rhs.0)
    }
    fn neg(self) -> Self {
        Real(-self.0)
    }
    fn exp(self) -> Self {
        Real(self.0.exp())
    }
    fn ln(self) -> Self {
        Real(self.0.ln())
    }
    fn is_positive(self) -> bool {
        self.0 > 0.0
    }
    fn exceeds(self, rhs: Self) -> bool {
        self.0 > rhs.0
    }
    fn sqrt(self) -> Self {
        Real(self.0.sqrt())
    }
    fn powi(self, n: i32) -> Self {
        Real(self.0.powi(n))
    }
    fn from_count(n: usize) -> Self {
        Real(n as f32)
    }
}

type T = Tensor<Real, CpuBackend>;

/// A seeded generator as a source of samples.
struct Seeded(StdRng);

impl UniformSource<Real> for Seeded {
    fn uniform(&mut self, low: Real, high: Real) -> Real {
        Real(self.0.gen_range(low.0..=high.0))
    }
}

const TRUE_W: [f32; 2] = [2.0, 3.0];
const TRUE_B: f32 = 1.0;
const N_SAMPLES: usize = 100;
const EPOCHS: usize = 150;
const LR: f32 = 0.02;

fn make_dataset(
    backend: &Arc<CpuBackend>,
    rng: &mut Seeded,
) -> Result<InMemoryDataset<Real, CpuBackend>, TensorError> {
    *rng = Seeded(StdRng::seed_from_u64(42));
    let mut samples = Vec::with_capacity(N_SAMPLES);
    for _ in 0..N_SAMPLES {
        let x1 = rng.0.gen_range(-1.0f32..=1.0);
        let x2 = rng.0.gen_range(-1.0f32..=1.0);
        let noise = rng.0.gen_range(-0.1f32..=0.1);
        let y = TRUE_W[0] * x1 + TRUE_W[1] * x2 + TRUE_B + noise;

        let input: T = Tensor::from_vec(vec![Real(x1), Real(x2)], Shape::new(vec![1, 2]), backend.clone())?;
        let target: T = Tensor::from_vec(vec![Real(y)], Shape::new(vec![1, 1]), backend.clone())?;
        samples.push((input, target));
    }
    Ok(InMemoryDataset::new(samples))
}

#[test]
fn test_linear_regression_loss_decreases() {
    let mut rng = Seeded(StdRng::seed_from_u64(123));
    let backend = Arc::new(CpuBackend::new());
    let dataset = make_dataset(&backend, &mut rng).unwrap();
    let mut dataloader = DataLoader::new(dataset, 8);

    let mut model = Linear::new(2, 1, backend.clone()).unwrap();
    model.init_xavier(&mut rng).unwrap();
    let opt = SGD::new(Real(LR));
    let mut trainer = Trainer::new(model, opt);

    let mut initial_loss = None::<f32>;
    let mut final_loss = None::<f32>;

    for _ in 0..EPOCHS {
        dataloader.reset();
        let (avg_loss, _) = trainer.run_epoch(backend.clone(), &mut dataloader).unwrap();
        if initial_loss.is_none() {
            initial_loss = Some(avg_loss.0);
        }
        final_loss = Some(avg_loss.0);
    }

    let init = initial_loss.unwrap();
    let fin = final_loss.unwrap();
    assert!(fin < init, "loss should decrease: initial {} final {}", init, fin);
}

#[test]
fn test_linear_regression_learns_weights() {
    let mut rng = Seeded(StdRng::seed_from_u64(456));
    let backend = Arc::new(CpuBackend::new());
    let dataset = make_dataset(&backend, &mut rng).unwrap();
    let mut dataloader = DataLoader::new(dataset, 16);

    let mut model = Linear::new(2, 1, backend.clone()).unwrap();
    model.init_xavier(&mut rng).unwrap();
    let opt = SGD::new(Real(LR));
    let mut trainer = Trainer::new(model, opt);

    for _ in 0..EPOCHS {
        dataloader.reset();
        trainer.run_epoch(backend.clone(), &mut dataloader).unwrap();
    }

    let w = trainer.model.weight.data();
    let b = trainer.model.bias.data();
    let wd = w.data();
    let bd = b.data();
    assert_eq!(wd.len(), 2);
    assert_eq!(bd.len(), 1);
    assert!((wd[0].0 - TRUE_W[0]).abs() < 0.5, "weight[0] {} ~ {}", wd[0].0, TRUE_W[0]);
    assert!((wd[1].0 - TRUE_W[1]).abs() < 0.5, "weight[1] {} ~ {}", wd[1].0, TRUE_W[1]);
    assert!((bd[0].0 - TRUE_B).abs() < 0.5, "bias {} ~ {}", bd[0].0, TRUE_B);
}
