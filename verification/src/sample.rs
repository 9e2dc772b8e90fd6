use vstd::prelude::*;

verus! {

/// One labeled feature vector: an integer label together with the ordered
/// sequence of integer features (for instance, rasterized pixel intensities).
#[derive(Debug)]
pub struct LabelPixel {
    pub label: i64,
    pub pixels: Vec<i64>,
}

/// Classification was asked of an empty training set; there is no nearest
/// sample whose label could be returned.
#[derive(Clone, Copy, Debug, PartialEq, Eq, Structural)]
pub struct EmptyDatasetError;

/// Every sample of the dataset has exactly `dim` features.
pub open spec fn uniform_dim(data: Seq<LabelPixel>, dim: int) -> bool {
    forall|i: int| 0 <= i < data.len() ==> (#[trigger] data[i]).pixels@.len() == dim
}

/// Checks that every sample of `data` has exactly `dim` features, the
/// data-integrity invariant a dataset must establish before classification.
pub fn check_dimensions(data: &[LabelPixel], dim: usize) -> (r: bool)
    ensures
        r <==> uniform_dim(data@, dim as int),
{
    let n = data.len();
    let mut i: usize = 0;
    while i < n
        invariant
            0 <= i <= n,
            n == data@.len(),
            forall|j: int| 0 <= j < i ==> (#[trigger] data@[j]).pixels@.len() == dim,
        decreases n - i,
    {
        if data[i].pixels.len() != dim {
            return false;
        }
        i = i + 1;
    }
    true
}

} // verus!
