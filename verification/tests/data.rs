use dl_core::{CpuBackend, DataLoader, Dataset, InMemoryDataset, Scalar, Shape, Tensor};
use std::sync::Arc;

#[derive(Clone, Copy, Debug, PartialEq)]
struct Real(f32);

impl Scalar for Real {
    fn zero() -> Self {
        Real(0.0)
    }
    fn one() -> Self {
        Real(1.0)
    }
    fn add(self, rhs: Self) -> Self {
        Real(self.0 + rhs.0)
    }
    fn sub(self, rhs: Self) -> Self {
        Real(self.0 - rhs.0)
    }
    fn mul(self, rhs: Self) -> Self {
        Real(self.0 * rhs.0)
    }
    fn div(self, rhs: Self) -> Self {
        Real(self.0 / rhs.0)
    }
    fn neg(self) -> Self {
        Real(-self.0)
    }
    fn exp(self) -> Self {
        Real(self.0.exp())
    }
    fn ln(self) -> Self {
        Real(self.0.ln())
    }
    fn is_positive(self) -> bool {
        self.0 > 0.0
    }
    fn exceeds(self, rhs: Self) -> bool {
        self.0 > rhs.0
    }
    fn sqrt(self) -> Self {
        Real(self.0.sqrt())
    }
    fn powi(self, n: i32) -> Self {
        Real(self.0.powi(n))
    }
    fn from_count(n: usize) -> Self {
        Real(n as f32)
    }
}

type T = Tensor<Real, CpuBackend>;

fn tensor(data: &[f32], dims: &[usize]) -> T {
    let data: Vec<Real> = data.iter().map(|x| Real(*x)).collect();
    Tensor::from_vec(data, Shape::new(dims.to_vec()), Arc::new(CpuBackend::new())).unwrap()
}

fn values(t: &T) -> Vec<f32> {
    t.data().iter().map(|x| x.0).collect()
}

fn close(a: &[f32], b: &[f32]) -> bool {
    a.len() == b.len() && a.iter().zip(b.iter()).all(|(x, y)| (x - y).abs() < 1e-5)
}

fn dataset(n: usize) -> InMemoryDataset<Real, CpuBackend> {
    let mut samples = Vec::new();
    for i in 0..n {
        samples.push((tensor(&[i as f32, 0.5], &[2]), tensor(&[10.0 * i as f32], &[1])));
    }
    InMemoryDataset::new(samples)
}

#[test]
fn dataset_answers_by_index() {
    let d = dataset(3);
    assert_eq!(d.len(), 3);
    assert!(!d.is_empty());
    let (x, y) = d.get(2).unwrap();
    assert_eq!(values(&x), vec![2.0, 0.5]);
    assert_eq!(values(&y), vec![20.0]);
    assert!(d.get(3).is_none());
    assert!(dataset(0).is_empty());
}

#[test]
fn loader_hands_out_full_batches_and_then_the_rest() {
    let mut loader = DataLoader::new(dataset(5), 2);
    let (xs, ys) = loader.next_batch().unwrap();
    assert_eq!(xs.len(), 2);
    assert_eq!(values(&xs[0]), vec![0.0, 0.5]);
    assert_eq!(values(&xs[1]), vec![1.0, 0.5]);
    assert_eq!(values(&ys[1]), vec![10.0]);
    let (xs, _) = loader.next_batch().unwrap();
    assert_eq!(values(&xs[0]), vec![2.0, 0.5]);
    let (xs, ys) = loader.next_batch().unwrap();
    assert_eq!(xs.len(), 1);
    assert_eq!(ys.len(), 1);
    assert_eq!(values(&ys[0]), vec![40.0]);
    assert!(loader.next_batch().is_none());
    assert!(loader.next_batch().is_none());
}

#[test]
fn loader_starts_again_after_reset() {
    let mut loader = DataLoader::new(dataset(3), 4);
    let (xs, _) = loader.next_batch().unwrap();
    assert_eq!(xs.len(), 3);
    assert!(loader.next_batch().is_none());
    loader.reset();
    let (xs, _) = loader.next_batch().unwrap();
    assert_eq!(xs.len(), 3);
    assert_eq!(values(&xs[0]), vec![0.0, 0.5]);
}

#[test]
fn loader_of_nothing_hands_out_nothing() {
    let mut loader = DataLoader::new(dataset(0), 2);
    assert!(loader.next_batch().is_none());
    let mut loader = DataLoader::new(dataset(3), 0);
    assert!(loader.next_batch().is_none());
}
