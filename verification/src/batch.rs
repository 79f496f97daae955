//! Building a batch of updates before it is appended.
//!
//! A builder takes the updates of a batch one by one. It checks each against
//! the lower of the batch, decides when the updates that it has buffered make a
//! part that is to be written to blob storage, and holds the writer back once
//! too many parts are being written at a time. Writing the parts is up to the
//! caller; the builder sees of each update its time and its encoded size only.

use crate::error::{InvalidUsage, InvalidUsageView};
use crate::frontier::{frontier_le, reaches, Frontier};
use crate::ids::ShardId;
use crate::state::HollowBatch;
use crate::write::Batch;
use vstd::prelude::*;

verus! {

/// What the builder did with an update.
#[derive(Debug, PartialEq, Eq, Clone, Copy)]
pub enum Added {
    /// The update is buffered.
    Buffered,
    /// The buffered updates, this one included, make a part that has to be
    /// written now. With `wait_first` the writer has to wait for a part that
    /// is being written to finish before it starts on this one.
    Spill { wait_first: bool },
}

/// The later of an optional time and a time.
pub open spec fn latest(max_ts: Option<u64>, ts: u64) -> Option<u64> {
    match max_ts {
        Some(m) => if m <= ts {
            Some(ts)
        } else {
            Some(m)
        },
        None => Some(ts),
    }
}

/// The mathematical value of a [`BatchBuilder`].
pub struct BuilderView {
    pub shard_id: Seq<u8>,
    pub lower: Seq<u64>,
    pub blob_target_size: nat,
    pub max_outstanding_parts: nat,
    /// The latest time of an update so far.
    pub max_ts: Option<u64>,
    /// The number of updates so far.
    pub len: nat,
    /// The encoded size of the updates that are buffered.
    pub buffered_bytes: nat,
    /// The number of parts that were to be written so far.
    pub spilled: nat,
    /// The number of parts that are being written.
    pub outstanding: nat,
}

impl BuilderView {
    /// Whether an update of `size` bytes fills the part that is buffered.
    pub open spec fn fills(self, size: nat) -> bool {
        self.buffered_bytes + size >= self.blob_target_size
    }

    /// Whether a part that is to be written now has to wait for another one.
    pub open spec fn must_wait(self) -> bool {
        self.outstanding >= self.max_outstanding_parts
    }

    /// The builder after it took an update at `ts` of `size` bytes.
    pub open spec fn add(self, ts: u64, size: nat) -> BuilderView {
        if self.fills(size) {
            BuilderView {
                max_ts: latest(self.max_ts, ts),
                len: self.len + 1,
                buffered_bytes: 0,
                spilled: self.spilled + 1,
                outstanding: if self.must_wait() {
                    self.outstanding
                } else {
                    self.outstanding + 1
                },
                ..self
            }
        } else {
            BuilderView {
                max_ts: latest(self.max_ts, ts),
                len: self.len + 1,
                buffered_bytes: self.buffered_bytes + size,
                ..self
            }
        }
    }

    /// The misuse that sealing the batch at `upper` is, if it is one: an upper
    /// before the lower, or an update at or beyond the upper.
    pub open spec fn finish_refusal(self, upper: Seq<u64>) -> Option<InvalidUsageView> {
        if frontier_le(upper, self.lower) && upper != self.lower {
            Some(InvalidUsageView::InvalidBounds { lower: self.lower, upper })
        } else if self.max_ts is Some && reaches(upper, self.max_ts->Some_0) {
            Some(
                InvalidUsageView::UpdateBeyondUpper {
                    max_ts: self.max_ts->Some_0,
                    expected_upper: upper,
                },
            )
        } else {
            None
        }
    }
}

/// Builds one batch for a shard.
#[derive(Debug, PartialEq, Eq)]
pub struct BatchBuilder {
    shard_id: ShardId,
    lower: Frontier,
    blob_target_size: usize,
    max_outstanding_parts: usize,
    max_ts: Option<u64>,
    len: usize,
    buffered_bytes: usize,
    spilled: usize,
    outstanding: usize,
}

impl View for BatchBuilder {
    type V = BuilderView;

    closed spec fn view(&self) -> BuilderView {
        BuilderView {
            shard_id: self.shard_id@,
            lower: self.lower@,
            blob_target_size: self.blob_target_size as nat,
            max_outstanding_parts: self.max_outstanding_parts as nat,
            max_ts: self.max_ts,
            len: self.len as nat,
            buffered_bytes: self.buffered_bytes as nat,
            spilled: self.spilled as nat,
            outstanding: self.outstanding as nat,
        }
    }
}

impl BatchBuilder {
    /// A builder for a batch of the shard that starts at `lower`. Parts are cut
    /// at `blob_target_size` bytes, and at most `max_outstanding_parts` of them
    /// are written at a time.
    pub fn new(
        shard_id: ShardId,
        lower: Frontier,
        blob_target_size: usize,
        max_outstanding_parts: usize,
    ) -> (builder: BatchBuilder)
        ensures
            builder@ == (BuilderView {
                shard_id: shard_id@,
                lower: lower@,
                blob_target_size: blob_target_size as nat,
                max_outstanding_parts: max_outstanding_parts as nat,
                max_ts: None,
                len: 0,
                buffered_bytes: 0,
                spilled: 0,
                outstanding: 0,
            }),
    {
        BatchBuilder {
            shard_id,
            lower,
            blob_target_size,
            max_outstanding_parts,
            max_ts: None,
            len: 0,
            buffered_bytes: 0,
            spilled: 0,
            outstanding: 0,
        }
    }

    /// The number of updates so far.
    pub fn len(&self) -> (len: usize)
        ensures
            len == self@.len,
    {
        self.len
    }

    /// The encoded size of the updates that are buffered and not yet part of a
    /// part. They make the last part of the batch.
    pub fn buffered_bytes(&self) -> (bytes: usize)
        ensures
            bytes == self@.buffered_bytes,
    {
        self.buffered_bytes
    }

    /// The number of parts that were to be written so far. A writer gives a sign
    /// of life after building a batch only if this is not zero.
    pub fn spilled(&self) -> (parts: usize)
        ensures
            parts == self@.spilled,
    {
        self.spilled
    }

    /// The number of parts that are being written.
    pub fn outstanding(&self) -> (parts: usize)
        ensures
            parts == self@.outstanding,
    {
        self.outstanding
    }

    /// Takes an update at `ts` whose encoding has `size` bytes.
    ///
    /// An update at a time that the lower of the batch does not reach is
    /// refused, and the builder stays as it is.
    pub fn add(&mut self, ts: u64, size: usize) -> (r: Result<Added, InvalidUsage>)
        requires
            old(self)@.len < usize::MAX,
            old(self)@.spilled < usize::MAX,
            old(self)@.outstanding < usize::MAX,
        ensures
            match r {
                Ok(added) => reaches(old(self)@.lower, ts) && final(self)@ == old(self)@.add(
                    ts,
                    size as nat,
                ) && added == (if old(self)@.fills(size as nat) {
                    Added::Spill { wait_first: old(self)@.must_wait() }
                } else {
                    Added::Buffered
                }),
                Err(e) => !reaches(old(self)@.lower, ts) && final(self)@ == old(self)@ && e@ == (
                InvalidUsageView::UpdateNotBeyondLower { ts, lower: old(self)@.lower }),
            },
    {
        if !self.lower.less_equal_time(ts) {
            return Err(InvalidUsage::UpdateNotBeyondLower { ts, lower: self.lower.clone() });
        }
        self.max_ts = match self.max_ts {
            Some(m) => if m <= ts {
                Some(ts)
            } else {
                Some(m)
            },
            None => Some(ts),
        };
        self.len = self.len + 1;
        if self.buffered_bytes >= self.blob_target_size || size >= self.blob_target_size
            - self.buffered_bytes {
            let wait_first = self.outstanding >= self.max_outstanding_parts;
            self.buffered_bytes = 0;
            self.spilled = self.spilled + 1;
            if !wait_first {
                self.outstanding = self.outstanding + 1;
            }
            Ok(Added::Spill { wait_first })
        } else {
            self.buffered_bytes = self.buffered_bytes + size;
            Ok(Added::Buffered)
        }
    }

    /// Takes note that a part that was being written is written.
    pub fn part_finished(&mut self)
        ensures
            final(self)@ == (BuilderView {
                outstanding: if old(self)@.outstanding > 0 {
                    (old(self)@.outstanding - 1) as nat
                } else {
                    0
                },
                ..old(self)@
            }),
    {
        if self.outstanding > 0 {
            self.outstanding = self.outstanding - 1;
        }
    }

    /// Seals the batch at `upper`. The parts of the batch are those that were
    /// written under `keys`.
    ///
    /// An upper before the lower of the batch is refused, and so is an upper
    /// that reaches the time of one of the updates.
    pub fn finish(self, upper: Frontier, keys: Vec<String>) -> (r: Result<Batch, InvalidUsage>)
        ensures
            match r {
                Ok(batch) => self@.finish_refusal(upper@) is None && batch.shard_id@
                    == self@.shard_id && batch.desc.lower@ == self@.lower && batch.desc.upper@
                    == upper@ && batch.desc.since@ == seq![0u64] && batch.desc.parts == keys
                    && batch.desc.len == self@.len,
                Err(e) => self@.finish_refusal(upper@) == Some(e@),
            },
    {
        if upper.less_than(&self.lower) {
            return Err(InvalidUsage::InvalidBounds { lower: self.lower, upper });
        }
        match self.max_ts {
            Some(max_ts) => {
                if upper.less_equal_time(max_ts) {
                    return Err(InvalidUsage::UpdateBeyondUpper { max_ts, expected_upper: upper });
                }
            },
            None => {},
        }
        Ok(
            Batch {
                shard_id: self.shard_id,
                desc: HollowBatch {
                    lower: self.lower,
                    upper,
                    since: Frontier::minimum(),
                    parts: keys,
                    len: self.len,
                },
            },
        )
    }
}

/// The first of the times that `lower` does not reach, if there is one.
pub open spec fn first_not_beyond(times: Seq<u64>, lower: Seq<u64>) -> Option<u64>
    decreases times.len(),
{
    if times.len() == 0 {
        None
    } else if !reaches(lower, times[0]) {
        Some(times[0])
    } else {
        first_not_beyond(times.drop_first(), lower)
    }
}

/// The latest of the times, if there is one.
pub open spec fn max_time(times: Seq<u64>) -> Option<u64>
    decreases times.len(),
{
    if times.len() == 0 {
        None
    } else {
        latest(max_time(times.drop_last()), times.last())
    }
}

/// The misuse that updates at `times` in a batch that covers `[lower, upper)`
/// are, if they are one: the first update that `lower` does not reach; else an
/// `upper` before `lower`; else an update at or beyond `upper`.
pub open spec fn updates_refusal(times: Seq<u64>, lower: Seq<u64>, upper: Seq<u64>) -> Option<
    InvalidUsageView,
> {
    if first_not_beyond(times, lower) is Some {
        Some(
            InvalidUsageView::UpdateNotBeyondLower {
                ts: first_not_beyond(times, lower)->Some_0,
                lower,
            },
        )
    } else if frontier_le(upper, lower) && upper != lower {
        Some(InvalidUsageView::InvalidBounds { lower, upper })
    } else if max_time(times) is Some && reaches(upper, max_time(times)->Some_0) {
        Some(
            InvalidUsageView::UpdateBeyondUpper {
                max_ts: max_time(times)->Some_0,
                expected_upper: upper,
            },
        )
    } else {
        None
    }
}

/// Checks the times of the updates of a batch that is to cover `[lower, upper)`.
pub fn validate_updates(times: &Vec<u64>, lower: &Frontier, upper: &Frontier) -> (r: Result<
    (),
    InvalidUsage,
>)
    ensures
        match r {
            Ok(()) => updates_refusal(times@, lower@, upper@) is None,
            Err(e) => updates_refusal(times@, lower@, upper@) == Some(e@),
        },
{
    let mut max_ts: Option<u64> = None;
    let mut i: usize = 0;
    proof {
        assert(times@.skip(0) =~= times@);
    }
    while i < times.len()
        invariant
            i <= times.len(),
            max_ts == max_time(times@.take(i as int)),
            first_not_beyond(times@, lower@) == first_not_beyond(times@.skip(i as int), lower@),
            forall|j: int| 0 <= j < i ==> reaches(lower@, #[trigger] times@[j]),
        decreases times.len() - i,
    {
        let ts = times[i];
        proof {
            assert(times@.skip(i as int)[0] == ts);
            assert(times@.skip(i as int).drop_first() =~= times@.skip(i + 1));
            assert(times@.take(i + 1).drop_last() =~= times@.take(i as int));
        }
        if !lower.less_equal_time(ts) {
            return Err(InvalidUsage::UpdateNotBeyondLower { ts, lower: lower.clone() });
        }
        max_ts = match max_ts {
            Some(m) => if m <= ts {
                Some(ts)
            } else {
                Some(m)
            },
            None => Some(ts),
        };
        i += 1;
    }
    proof {
        assert(times@.take(i as int) =~= times@);
        assert(times@.skip(i as int) =~= Seq::<u64>::empty());
    }
    if upper.less_than(lower) {
        return Err(InvalidUsage::InvalidBounds { lower: lower.clone(), upper: upper.clone() });
    }
    match max_ts {
        Some(max_ts) => {
            if upper.less_equal_time(max_ts) {
                return Err(
                    InvalidUsage::UpdateBeyondUpper { max_ts, expected_upper: upper.clone() },
                );
            }
        },
        None => {},
    }
    Ok(())
}

} // verus!
