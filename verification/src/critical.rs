//! The handle through which a critical reader holds a capability that never
//! expires by itself.
//!
//! A leased reader that is lost is removed when its lease has run out. A
//! critical reader that is lost pins the since of its shard for good: its
//! capability is only given up by [`SinceHandle::expire`].

use crate::frontier::Frontier;
use crate::ids::{CriticalReaderId, ShardId};
use crate::machine::Machine;
use crate::model::{downgraded, TransitionView};
use crate::state::SinceDowngrade;
use vstd::prelude::*;

verus! {

/// A handle for the capability of a critical reader. It caches the capability
/// and the token that the reader holds.
#[derive(Debug, PartialEq, Eq)]
pub struct SinceHandle {
    /// The shard that the capability is on.
    pub shard_id: ShardId,
    /// The reader as the shard knows it.
    pub reader_id: CriticalReaderId,
    /// The capability of the reader.
    pub since: Frontier,
    /// The token of the reader.
    pub opaque: [u8; 8],
}

impl SinceHandle {
    /// A handle for a critical reader as the shard records it.
    pub fn new(shard_id: ShardId, reader_id: CriticalReaderId, since: Frontier, opaque: [u8; 8]) -> (handle:
        SinceHandle)
        ensures
            handle.shard_id == shard_id,
            handle.reader_id == reader_id,
            handle.since@ == since@,
            handle.opaque == opaque,
    {
        SinceHandle { shard_id, reader_id, since, opaque }
    }

    /// The capability of the reader.
    pub fn since(&self) -> (since: &Frontier)
        ensures
            since@ == self.since@,
    {
        &self.since
    }

    /// The token of the reader.
    pub fn opaque(&self) -> (opaque: &[u8; 8])
        ensures
            *opaque == self.opaque,
    {
        &self.opaque
    }

    /// Swaps the token of the reader for `new_opaque` and moves its capability to
    /// `new_since`, if the reader holds the token `expected_opaque`.
    ///
    /// Where it does, the handle takes the new token and the capability as
    /// it is now. Where the reader holds another token, the handle takes that
    /// one, so that its holder can decide anew. Where the shard does not know
    /// the reader, the handle stays as it is.
    pub fn compare_and_downgrade_since(
        &mut self,
        machine: &mut Machine,
        expected_opaque: &[u8; 8],
        new_opaque: &[u8; 8],
        new_since: &Frontier,
    ) -> (r: SinceDowngrade)
        requires
            old(machine).wf(),
            old(machine)@.seqno + 1 < u64::MAX,
        ensures
            final(machine).wf(),
            final(machine)@ == (TransitionView::CompareAndDowngradeSince {
                reader_id: old(self).reader_id@,
                expected_opaque: expected_opaque@,
                new_opaque: new_opaque@,
                new_since: new_since@,
            }).step(old(machine)@),
            final(self).shard_id == old(self).shard_id,
            final(self).reader_id == old(self).reader_id,
            match r {
                SinceDowngrade::Downgraded(since) => old(machine)@.holds_opaque(
                    old(self).reader_id@,
                    expected_opaque@,
                ) && since@ == downgraded(
                    old(machine)@.critical_readers[old(self).reader_id@].since,
                    new_since@,
                ) && final(self).since@ == since@ && final(self).opaque == *new_opaque,
                SinceDowngrade::OpaqueMismatch(actual) => old(machine)@.critical_readers.contains_key(old(self).reader_id@) && actual@ == old(machine)@.critical_readers[old(self).reader_id@].opaque && actual@ != expected_opaque@
                    && final(self).since == old(self).since && final(self).opaque == actual,
                SinceDowngrade::NotRegistered => !old(machine)@.critical_readers.contains_key(
                    old(self).reader_id@,
                ) && *final(self) == *old(self),
            },
    {
        let r = machine.compare_and_downgrade_since(
            &self.reader_id,
            expected_opaque,
            new_opaque,
            new_since,
        );
        match &r {
            SinceDowngrade::Downgraded(since) => {
                self.since = since.clone();
                self.opaque = *new_opaque;
            },
            SinceDowngrade::OpaqueMismatch(actual) => {
                self.opaque = *actual;
            },
            SinceDowngrade::NotRegistered => {},
        }
        r
    }

    /// Gives up the capability of the reader, and says whether the shard knew the
    /// reader still. Nothing else ever removes a critical reader.
    pub fn expire(self, machine: &mut Machine) -> (existed: bool)
        requires
            old(machine).wf(),
            old(machine)@.seqno + 1 < u64::MAX,
        ensures
            final(machine).wf(),
            final(machine)@ == (TransitionView::ExpireCriticalReader {
                reader_id: self.reader_id@,
            }).step(old(machine)@),
            existed == old(machine)@.critical_readers.contains_key(self.reader_id@),
    {
        machine.expire_critical_reader(&self.reader_id)
    }
}

} // verus!
