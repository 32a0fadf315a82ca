use dl_core::{
    CpuBackend, DataLoader, InMemoryDataset, Scalar, Shape, Tensor, TensorError, Trainer,
    UniformSource, MLP2, SGD,
};
use rand::rngs::StdRng;
use rand::{Rng, SeedableRng};
use std::sync::Arc;

#[derive(Clone, Copy, Debug, PartialEq)]
struct Real(f32);

impl Scalar for Real {
    fn zero() -> Self {
        Real(0.0)
    }
    fn one() -> Self {
        Real(1.0)
    }
    fn add(self, rhs: Self) -> Self {
        Real(self.0 + rhs.0)
    }
    fn sub(self, rhs: Self) -> Self {
        Real(self.0 - rhs.0)
    }
    fn mul(self, rhs: Self) -> Self {
        Real(self.0 * rhs.0)
    }
    fn div(self, rhs: Self) -> Self {
        Real(self.0 / rhs.0)
    }
    fn neg(self) -> Self {
        Real(-self.0)
    }
    fn exp(self) -> Self {
        Real(self.0.exp())
    }
    fn ln(self) -> Self {
        Real(self.0.ln())
    }
    fn is_positive(self) -> bool {
        self.0 > 0.0
    }
    fn exceeds(self, rhs: Self) -> bool {
        self.0 > rhs.0
    }
    fn sqrt(self) -> Self {
        Real(self.0.sqrt())
    }
    fn powi(self, n: i32) -> Self {
        Real(self.0.powi(n))
    }
    fn from_count(n: usize) -> Self {
        Real(n as f32)
    }
}

type T = Tensor<Real, CpuBackend>;

/// A seeded generator as a source of samples.
struct Seeded(StdRng);

impl UniformSource<Real> for Seeded {
    fn uniform(&mut self, low: Real, high: Real) -> Real {
        Real(self.0.gen_range(low.0..=high.0))
    }
}

const N_SAMPLES: usize = 200;
const EPOCHS: usize = 80;
const LR: f32 = 0.05;
const BATCH_SIZE: usize = 16;

/// Points in the plane with a class each: class 0 near (-1, -1), class 1 near (1, 1).
fn make_dataset(
    backend: &Arc<CpuBackend>,
    rng: &mut Seeded,
) -> Result<InMemoryDataset<Real, CpuBackend>, TensorError> {
    *rng = Seeded(StdRng::seed_from_u64(42));
    let mut samples = Vec::with_capacity(N_SAMPLES);
    for _ in 0..N_SAMPLES {
        let c = rng.0.gen_range(0..2);
        let x1 = if c == 0 {
            rng.0.gen_range(-1.5f32..-0.3)
        } else {
            rng.0.gen_range(0.3f32..1.5)
        };
        let x2 = if c == 0 {
            rng.0.gen_range(-1.5f32..-0.3)
        } else {
            rng.0.gen_range(0.3f32..1.5)
        };
        // One axis of two elements, so that a stacked batch is a matrix with two columns.
        let input: T = Tensor::from_vec(vec![Real(x1), Real(x2)], Shape::new(vec![2]), backend.clone())?;
        let target: T = Tensor::from_vec(
            if c == 0 { vec![Real(1.0), Real(0.0)] } else { vec![Real(0.0), Real(1.0)] },
            Shape::new(vec![2]),
            backend.clone(),
        )?;
        samples.push((input, target));
    }
    Ok(InMemoryDataset::new(samples))
}

#[test]
fn test_mlp_classification_ce() {
    let mut rng = Seeded(StdRng::seed_from_u64(123));
    let backend = Arc::new(CpuBackend::new());
    let dataset = make_dataset(&backend, &mut rng).unwrap();
    let mut dataloader = DataLoader::new(dataset, BATCH_SIZE);

    let mut model = MLP2::new(2, 8, 2, backend.clone()).unwrap();
    model.init_xavier(&mut rng).unwrap();
    let opt = SGD::new(Real(LR));
    let mut trainer = Trainer::new(model, opt);

    let mut initial_loss = None::<f32>;
    let mut final_loss = None::<f32>;

    for _epoch in 0..EPOCHS {
        dataloader.reset();
        while let Some((inputs, targets)) = dataloader.next_batch() {
            let input_batch = Tensor::stack(&inputs, 0).unwrap();
            let target_batch = Tensor::stack(&targets, 0).unwrap();
            let r = trainer
                .step_batch_ce(backend.clone(), &input_batch, &target_batch)
                .unwrap();
            if initial_loss.is_none() {
                initial_loss = Some(r.loss.0);
            }
            final_loss = Some(r.loss.0);
        }
    }

    let init = initial_loss.unwrap();
    let fin = final_loss.unwrap();
    println!(
        "  classification CE loss: initial={:.4} -> final={:.4} (epochs={})",
        init, fin, EPOCHS
    );
    assert!(fin < init, "CE loss should decrease: {} -> {}", init, fin);
}
