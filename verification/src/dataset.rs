//! The integer side of the files of pairs of points and of their distances:
//! how a file of answers is laid out, and how many pairs go to each cluster.

use vstd::prelude::*;

verus! {

/// The size of one number in a file of answers.
pub const ELEMENT_SIZE: usize = 8;

/// Why a file of answers cannot be read.
#[derive(Clone, Copy, Debug, PartialEq, Eq, Structural)]
pub enum AnswersError {
    /// The file is empty.
    Empty,
    /// The size of the file is no multiple of the size of a number.
    NotWholeNumbers,
}

/// Where the numbers of a file of answers stand: the distances, one after
/// the other from the start, and behind them their mean.
#[derive(Clone, Copy, Debug, PartialEq, Eq, Structural)]
pub struct AnswersLayout {
    /// The number of distances.
    pub count: usize,
    /// The offset of the mean.
    pub mean_offset: usize,
}

/// The layout of a file of answers of `file_size` bytes.
pub fn answers_layout(file_size: usize) -> (r: Result<AnswersLayout, AnswersError>)
    ensures
        file_size == 0 ==> r == Err::<AnswersLayout, AnswersError>(AnswersError::Empty),
        file_size > 0 && file_size % ELEMENT_SIZE != 0 ==> r == Err::<AnswersLayout, AnswersError>(
            AnswersError::NotWholeNumbers,
        ),
        file_size > 0 && file_size % ELEMENT_SIZE == 0 ==> r == Ok::<AnswersLayout, AnswersError>(
            AnswersLayout {
                count: (file_size / ELEMENT_SIZE - 1) as usize,
                mean_offset: (file_size - ELEMENT_SIZE) as usize,
            },
        ),
{
    if file_size == 0 {
        Err(AnswersError::Empty)
    } else if file_size % ELEMENT_SIZE != 0 {
        Err(AnswersError::NotWholeNumbers)
    } else {
        Ok(
            AnswersLayout {
                count: file_size / ELEMENT_SIZE - 1,
                mean_offset: file_size - ELEMENT_SIZE,
            },
        )
    }
}

/// The number of clusters of equal size that generated pairs are spread over.
pub const CLUSTER_COUNT: u64 = 5;

/// The sizes of the clusters for `num_pairs` pairs: `CLUSTER_COUNT` clusters
/// of the first size, and one more of the second for what is left.
pub fn cluster_sizes(num_pairs: u64) -> (sizes: (u64, u64))
    ensures
        sizes.0 == num_pairs / CLUSTER_COUNT,
        sizes.1 == num_pairs % CLUSTER_COUNT,
        CLUSTER_COUNT * sizes.0 + sizes.1 == num_pairs,
{
    (num_pairs / CLUSTER_COUNT, num_pairs % CLUSTER_COUNT)
}

} // verus!
