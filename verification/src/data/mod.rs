//! Data: datasets and a loader that hands out batches.

use vstd::prelude::*;
use crate::tensor::Tensor;

verus! {

/// An indexed collection of samples, each an input with its target.
pub trait Dataset {
    /// What an input and a target are.
    type Sample;

    /// Number of samples.
    fn len(&self) -> usize;

    /// The sample at `index`, if there is one.
    fn get(&self, index: usize) -> Option<(Self::Sample, Self::Sample)>;

    /// Whether the dataset answers 0 when asked for its length.
    fn is_empty(&self) -> (empty: bool)
        ensures
            exists|n: usize| #[trigger] call_ensures(Self::len, (self,), n) && empty == (n == 0),
    {
        let n = self.len();
        proof {
            assert(call_ensures(Self::len, (self,), n));
        }
        n == 0
    }
}

/// A loader: it walks a dataset from the start and hands out batches of
/// consecutive samples.
pub struct DataLoader<D> {
    dataset: D,
    batch_size: usize,
    index: usize,
}

/// The dataset answered `len` when asked for its length.
pub open spec fn is_len<D: Dataset>(dataset: D, len: usize) -> bool {
    call_ensures(D::len, (&dataset,), len)
}

/// The dataset answered `sample` when asked for the sample at `index`.
pub open spec fn is_sample<D: Dataset>(
    dataset: D,
    index: usize,
    sample: Option<(D::Sample, D::Sample)>,
) -> bool {
    call_ensures(D::get, (&dataset, index), sample)
}

/// Where a batch that starts at `start` ends: `batch_size` samples on, or at
/// the end of the dataset.
pub open spec fn batch_end(start: usize, batch_size: usize, len: usize) -> int {
    if start + batch_size <= len {
        start + batch_size
    } else {
        len as int
    }
}

/// `inputs` and `targets` hold, in order, the samples that the dataset
/// answered for the indices from `start` up to `end`; `picks` lists the
/// indices for which it answered with a sample.
pub open spec fn is_batch<D: Dataset>(
    dataset: D,
    start: int,
    end: int,
    picks: Seq<usize>,
    inputs: Seq<D::Sample>,
    targets: Seq<D::Sample>,
) -> bool {
    &&& inputs.len() == picks.len()
    &&& targets.len() == picks.len()
    &&& forall|k: int|
        0 <= k < picks.len() ==> start <= (#[trigger] picks[k]) < end && is_sample(
            dataset,
            picks[k],
            Some((inputs[k], targets[k])),
        )
    &&& forall|j: int, k: int| 0 <= j < k < picks.len() ==> picks[j] < picks[k]
    &&& forall|i: usize|
        start <= i < end && !picks.contains(i) ==> #[trigger] is_sample(dataset, i, None)
}

/// The inputs of a batch; none where there is no batch.
pub open spec fn inputs_of<S>(r: Option<(Vec<S>, Vec<S>)>) -> Seq<S> {
    match r {
        Some(pair) => pair.0@,
        None => Seq::empty(),
    }
}

/// The targets of a batch; none where there is no batch.
pub open spec fn targets_of<S>(r: Option<(Vec<S>, Vec<S>)>) -> Seq<S> {
    match r {
        Some(pair) => pair.1@,
        None => Seq::empty(),
    }
}

/// What a loader at `start` hands out for a dataset of `len` samples, and
/// where it stands afterwards. At the end of the dataset it hands out nothing
/// and stays. Otherwise it moves to the end of the batch and hands out the
/// samples that the dataset answered with, or nothing if there was none.
pub open spec fn loaded<D: Dataset>(
    dataset: D,
    start: usize,
    batch_size: usize,
    len: usize,
    r: Option<(Vec<D::Sample>, Vec<D::Sample>)>,
    index_after: usize,
) -> bool {
    let end = batch_end(start, batch_size, len);
    if start >= len {
        r is None && index_after == start
    } else {
        &&& index_after == end
        &&& exists|picks: Seq<usize>| #[trigger]
            is_batch(dataset, start as int, end, picks, inputs_of(r), targets_of(r)) && (r is Some
                <==> picks.len() > 0)
    }
}

impl<D: Dataset> DataLoader<D> {
    /// The dataset the loader walks.
    pub closed spec fn dataset(&self) -> D {
        self.dataset
    }

    /// The number of samples in a full batch.
    pub closed spec fn batch_size(&self) -> usize {
        self.batch_size
    }

    /// The index of the next sample.
    pub closed spec fn index(&self) -> usize {
        self.index
    }

    /// A loader at the start of `dataset`.
    pub fn new(dataset: D, batch_size: usize) -> (loader: Self)
        ensures
            loader.dataset() == dataset,
            loader.batch_size() == batch_size,
            loader.index() == 0,
    {
        DataLoader { dataset, batch_size, index: 0 }
    }

    /// The next batch: the inputs and the targets of the next `batch_size`
    /// samples, or of those that are left.
    ///
    /// Returns `None`, and stays where it is, at the end of the dataset. Moves
    /// past the batch otherwise, and returns `None` if the dataset answered
    /// with no sample at all.
    pub fn next_batch(&mut self) -> (r: Option<(Vec<D::Sample>, Vec<D::Sample>)>)
        ensures
            final(self).dataset() == old(self).dataset(),
            final(self).batch_size() == old(self).batch_size(),
            exists|len: usize| #[trigger]
                is_len(old(self).dataset(), len) && loaded(
                    old(self).dataset(),
                    old(self).index(),
                    old(self).batch_size(),
                    len,
                    r,
                    final(self).index(),
                ),
    {
        let start = self.index;
        let len = self.dataset.len();
        proof {
            assert(is_len(self.dataset, len));
        }
        if start >= len {
            let r: Option<(Vec<D::Sample>, Vec<D::Sample>)> = None;
            proof {
                assert(is_len(old(self).dataset(), len) && loaded(
                    old(self).dataset(),
                    old(self).index(),
                    old(self).batch_size(),
                    len,
                    r,
                    self.index(),
                ));
            }
            return r;
        }
        let end = match start.checked_add(self.batch_size) {
            Some(e) => if e <= len {
                e
            } else {
                len
            },
            None => len,
        };
        let mut inputs: Vec<D::Sample> = Vec::new();
        let mut targets: Vec<D::Sample> = Vec::new();
        let ghost mut picks: Seq<usize> = Seq::empty();
        let mut i: usize = start;
        while i < end
            invariant
                start <= i <= end,
                self.dataset == old(self).dataset,
                self.batch_size == old(self).batch_size,
                self.index == old(self).index,
                inputs@.len() == picks.len(),
                targets@.len() == picks.len(),
                forall|k: int|
                    0 <= k < picks.len() ==> start <= (#[trigger] picks[k]) < i && is_sample(
                        self.dataset,
                        picks[k],
                        Some((inputs@[k], targets@[k])),
                    ),
                forall|j: int, k: int| 0 <= j < k < picks.len() ==> picks[j] < picks[k],
                forall|w: usize|
                    start <= w < i && !picks.contains(w) ==> #[trigger] is_sample(
                        self.dataset,
                        w,
                        None,
                    ),
            decreases end - i,
        {
            let ghost before = picks;
            match self.dataset.get(i) {
                Some((x, y)) => {
                    inputs.push(x);
                    targets.push(y);
                    proof {
                        picks = picks.push(i);
                        assert forall|w: usize|
                            start <= w < i + 1 && !picks.contains(w) implies #[trigger] is_sample(
                            self.dataset,
                            w,
                            None,
                        ) by {
                            assert(picks[before.len() as int] == i);
                            if before.contains(w) {
                                let k = choose|k: int| 0 <= k < before.len() && before[k] == w;
                                assert(picks[k] == w);
                            }
                        }
                    }
                },
                None => {},
            }
            i = i + 1;
        }
        self.index = end;
        let r = if inputs.len() == 0 {
            None
        } else {
            Some((inputs, targets))
        };
        proof {
            assert(is_len(old(self).dataset(), len));
            assert(is_batch(
                old(self).dataset(),
                start as int,
                end as int,
                picks,
                inputs_of(r),
                targets_of(r),
            ));
            assert(end == batch_end(start, self.batch_size, len));
            assert(loaded(old(self).dataset(), start, self.batch_size, len, r, end));
        }
        r
    }

    /// Goes back to the start of the dataset.
    pub fn reset(&mut self)
        ensures
            final(self).dataset() == old(self).dataset(),
            final(self).batch_size() == old(self).batch_size(),
            final(self).index() == 0,
    {
        self.index = 0;
    }
}

/// A dataset held in memory.
pub struct InMemoryDataset<E, B> {
    samples: Vec<(Tensor<E, B>, Tensor<E, B>)>,
}

impl<E: Copy, B> InMemoryDataset<E, B> {
    /// The samples, as pairs of input and target.
    pub closed spec fn samples(&self) -> Seq<(Tensor<E, B>, Tensor<E, B>)> {
        self.samples@
    }

    /// A dataset of the given samples.
    pub fn new(samples: Vec<(Tensor<E, B>, Tensor<E, B>)>) -> (dataset: Self)
        ensures
            dataset.samples() == samples@,
    {
        InMemoryDataset { samples }
    }
}

impl<E: Copy, B> Dataset for InMemoryDataset<E, B> {
    type Sample = Tensor<E, B>;

    fn len(&self) -> (n: usize)
        ensures
            n == self.samples().len(),
    {
        self.samples.len()
    }

    fn get(&self, index: usize) -> (r: Option<(Tensor<E, B>, Tensor<E, B>)>)
        ensures
            r is Some <==> index < self.samples().len(),
            r matches Some(pair) ==> pair.0@ == self.samples()[index as int].0@ && pair.1@
                == self.samples()[index as int].1@,
    {
        if index < self.samples.len() {
            Some((self.samples[index].0.clone(), self.samples[index].1.clone()))
        } else {
            None
        }
    }
}

} // verus!
