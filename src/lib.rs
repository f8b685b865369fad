//! Decides whether the values of a sequence are pairwise distinct under a
//! caller-supplied equality oracle, using a caller-supplied hash oracle as a
//! filter. Three strategies share one contract: a pairwise scan, a sort by hash
//! code followed by a scan of equal-hash runs, and a scan with hash-keyed
//! buckets.
pub mod outcome;
pub mod naive;
pub mod sorted;
pub mod bucketed;
pub mod laws;
