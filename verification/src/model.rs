use vstd::prelude::*;

verus! {

/// One registered connection: the channel on which messages for it are
/// queued. The channel's type is the embedding program's choice.
pub struct Client<S> {
    pub sender: S,
}

/// The full board at one instant: the indices that are set and the indices
/// that are clear, each in ascending order.
#[derive(Debug)]
pub struct CheckboxState {
    pub true_indices: Vec<usize>,
    pub false_indices: Vec<usize>,
    pub is_initial: bool,
}

impl CheckboxState {
    /// The two lists part the indices below `n` between them: each index
    /// stands in one list and not in the other, no list holds an index
    /// twice, and neither holds anything else.
    pub open spec fn partitions(&self, n: nat) -> bool {
        &&& forall|i: usize|
            i < n ==> (#[trigger] self.true_indices@.contains(i) != self.false_indices@.contains(i))
        &&& forall|i: usize| #[trigger] self.true_indices@.contains(i) ==> i < n
        &&& forall|i: usize| #[trigger] self.false_indices@.contains(i) ==> i < n
        &&& self.true_indices@.no_duplicates()
        &&& self.false_indices@.no_duplicates()
    }
}

/// Why the bit-vector store did not carry out an operation.
#[derive(Debug, Clone, Copy, PartialEq, Eq, Structural)]
pub enum StoreError {
    /// The index is not below the number of checkboxes.
    OutOfRange,
    /// The backing store could not be reached or reported a failure.
    StoreUnavailable,
}

} // verus!
