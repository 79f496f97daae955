//! The ways in which a caller can misuse a shard.
//!
//! These are permanent: trying again with the same arguments fails again. A
//! mismatch of the upper is no misuse; writers learn of it as data.

use crate::frontier::Frontier;
use crate::ids::ShardId;
use crate::model::CodecsView;
use crate::state::Codecs;
use vstd::prelude::*;

verus! {

/// A misuse of a shard by its caller.
#[derive(Debug, PartialEq, Eq)]
pub enum InvalidUsage {
    /// The shard was created with other codecs than the ones asked for.
    CodecMismatch { requested: Codecs, actual: Codecs },
    /// The upper of an append or of a batch is before its lower.
    InvalidBounds { lower: Frontier, upper: Frontier },
    /// An append covers no time, yet brings updates.
    InvalidEmptyTimeInterval { lower: Frontier, upper: Frontier, keys: Vec<String> },
    /// An update is at a time that the lower of its batch does not reach.
    UpdateNotBeyondLower { ts: u64, lower: Frontier },
    /// An update is at a time at or beyond the upper of its batch.
    UpdateBeyondUpper { max_ts: u64, expected_upper: Frontier },
    /// A batch was appended with other bounds than it was built with.
    InvalidBatchBounds {
        batch_lower: Frontier,
        batch_upper: Frontier,
        append_lower: Frontier,
        append_upper: Frontier,
    },
    /// A batch of one shard was handed to a handle of another shard.
    BatchNotFromThisShard { batch_shard: ShardId, handle_shard: ShardId },
}

/// The mathematical value of an [`InvalidUsage`].
pub enum InvalidUsageView {
    CodecMismatch { requested: CodecsView, actual: CodecsView },
    InvalidBounds { lower: Seq<u64>, upper: Seq<u64> },
    InvalidEmptyTimeInterval { lower: Seq<u64>, upper: Seq<u64>, keys: Seq<Seq<char>> },
    UpdateNotBeyondLower { ts: u64, lower: Seq<u64> },
    UpdateBeyondUpper { max_ts: u64, expected_upper: Seq<u64> },
    InvalidBatchBounds {
        batch_lower: Seq<u64>,
        batch_upper: Seq<u64>,
        append_lower: Seq<u64>,
        append_upper: Seq<u64>,
    },
    BatchNotFromThisShard { batch_shard: Seq<u8>, handle_shard: Seq<u8> },
}

impl View for InvalidUsage {
    type V = InvalidUsageView;

    open spec fn view(&self) -> InvalidUsageView {
        match self {
            InvalidUsage::CodecMismatch { requested, actual } => InvalidUsageView::CodecMismatch {
                requested: requested@,
                actual: actual@,
            },
            InvalidUsage::InvalidBounds { lower, upper } => InvalidUsageView::InvalidBounds {
                lower: lower@,
                upper: upper@,
            },
            InvalidUsage::InvalidEmptyTimeInterval {
                lower,
                upper,
                keys,
            } => InvalidUsageView::InvalidEmptyTimeInterval {
                lower: lower@,
                upper: upper@,
                keys: keys@.map_values(|k: String| k@),
            },
            InvalidUsage::UpdateNotBeyondLower { ts, lower } => InvalidUsageView::UpdateNotBeyondLower {
                ts: *ts,
                lower: lower@,
            },
            InvalidUsage::UpdateBeyondUpper {
                max_ts,
                expected_upper,
            } => InvalidUsageView::UpdateBeyondUpper {
                max_ts: *max_ts,
                expected_upper: expected_upper@,
            },
            InvalidUsage::InvalidBatchBounds {
                batch_lower,
                batch_upper,
                append_lower,
                append_upper,
            } => InvalidUsageView::InvalidBatchBounds {
                batch_lower: batch_lower@,
                batch_upper: batch_upper@,
                append_lower: append_lower@,
                append_upper: append_upper@,
            },
            InvalidUsage::BatchNotFromThisShard {
                batch_shard,
                handle_shard,
            } => InvalidUsageView::BatchNotFromThisShard {
                batch_shard: batch_shard@,
                handle_shard: handle_shard@,
            },
        }
    }
}

} // verus!
