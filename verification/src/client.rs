//! The entry point of a participant: opening handles on a shard.
//!
//! Opening a handle is one step of the protocol like any other. The caller
//! fetches the state of the shard, if there is one, and gets back the handle
//! together with the machine that holds the next version of the state, which it
//! then offers to the consensus store. If another participant was faster, it
//! fetches again and opens anew.

use crate::cfg::PersistConfig;
use crate::critical::SinceHandle;
use crate::error::{InvalidUsage, InvalidUsageView};
use crate::ids::{CriticalReaderId, LeasedReaderId, ShardId, WriterId};
use crate::machine::{starting_state, Machine};
use crate::model::TransitionView;
use crate::read::ReadHandle;
use crate::state::{Codecs, State};
use crate::write::WriteHandle;
use vstd::prelude::*;

verus! {

/// A client of the shards at one location.
#[derive(Debug, Clone)]
pub struct PersistClient {
    cfg: PersistConfig,
}

/// The error with which a shard that has other codecs than `codecs` is refused.
pub open spec fn codec_mismatch(codecs: Codecs, current: Option<State>) -> Option<InvalidUsageView> {
    match current {
        Some(state) => if state@.codecs != codecs@ {
            Some(InvalidUsageView::CodecMismatch { requested: codecs@, actual: state@.codecs })
        } else {
            None
        },
        None => None,
    }
}

impl PersistClient {
    /// The identifier under which the controllers of a deployment hold their
    /// critical capability, so that they need not record it.
    pub fn controller_critical_since() -> (id: CriticalReaderId)
        ensures
            id@ == seq![0u8, 0, 0, 0, 17, 17, 34, 34, 51, 51, 68, 68, 68, 68, 68, 68],
    {
        let id = CriticalReaderId([0, 0, 0, 0, 17, 17, 34, 34, 51, 51, 68, 68, 68, 68, 68, 68]);
        assert(id@ =~= seq![0u8, 0, 0, 0, 17, 17, 34, 34, 51, 51, 68, 68, 68, 68, 68, 68]);
        id
    }

    /// The configuration of the client.
    pub closed spec fn config(&self) -> PersistConfig {
        self.cfg
    }

    /// A client with the given configuration.
    pub fn new(cfg: PersistConfig) -> (client: PersistClient)
        ensures
            client.config() == cfg,
    {
        PersistClient { cfg }
    }

    /// The configuration of the client.
    pub fn cfg(&self) -> (cfg: &PersistConfig)
        ensures
            *cfg == self.config(),
    {
        &self.cfg
    }

    /// Opens a writer with a new identifier on a shard, as of its state `current`.
    ///
    /// A shard that has other codecs than the ones asked for is refused. Else
    /// the writer is registered with the lease of the configuration, and its
    /// handle starts at the upper of the shard.
    pub fn open_writer(&self, shard_id: ShardId, codecs: Codecs, current: Option<State>, now: u64) -> (r:
        Result<(Machine, WriteHandle), InvalidUsage>)
        requires
            current matches Some(state) ==> state.wf() && state@.seqno + 1 < u64::MAX,
        ensures
            match r {
                Ok((machine, handle)) => codec_mismatch(codecs, current) is None && machine.wf()
                    && machine@ == (TransitionView::RegisterWriter {
                    writer_id: handle.writer_id@,
                    lease_duration: self.config().writer_lease_duration,
                    now,
                }).step(starting_state(shard_id@, codecs, current)) && handle.shard_id == shard_id
                    && handle.upper@ == starting_state(shard_id@, codecs, current).upper
                    && handle.last_heartbeat == now && handle.lease_duration
                    == self.config().writer_lease_duration,
                Err(e) => codec_mismatch(codecs, current) == Some(e@),
            },
    {
        let mut machine = match Machine::new(shard_id, codecs, current) {
            Ok(machine) => machine,
            Err(e) => {
                return Err(e);
            },
        };
        let writer_id = WriterId::new();
        let (shard_upper, _) = machine.register_writer(
            &writer_id,
            self.cfg.writer_lease_duration,
            now,
        );
        let handle = WriteHandle::new(
            shard_id,
            writer_id,
            shard_upper,
            self.cfg.writer_lease_duration,
            now,
        );
        Ok((machine, handle))
    }

    /// Opens a leased reader with a new identifier on a shard, as of its state
    /// `current`.
    ///
    /// A shard that has other codecs than the ones asked for is refused. Else
    /// the reader is registered with the lease of the configuration, and its
    /// handle holds the since of the shard as its capability.
    pub fn open_leased_reader(
        &self,
        shard_id: ShardId,
        codecs: Codecs,
        current: Option<State>,
        now: u64,
    ) -> (r: Result<(Machine, ReadHandle), InvalidUsage>)
        requires
            current matches Some(state) ==> state.wf() && state@.seqno + 1 < u64::MAX,
        ensures
            match r {
                Ok((machine, handle)) => codec_mismatch(codecs, current) is None && machine.wf()
                    && machine@ == (TransitionView::RegisterLeasedReader {
                    reader_id: handle.reader_id@,
                    lease_duration: self.config().reader_lease_duration,
                    now,
                }).step(starting_state(shard_id@, codecs, current)) && handle.shard_id == shard_id
                    && handle.since@ == machine@.leased_readers[handle.reader_id@].since
                    && handle.last_heartbeat == now && handle.lease_duration
                    == self.config().reader_lease_duration,
                Err(e) => codec_mismatch(codecs, current) == Some(e@),
            },
    {
        let mut machine = match Machine::new(shard_id, codecs, current) {
            Ok(machine) => machine,
            Err(e) => {
                return Err(e);
            },
        };
        let reader_id = LeasedReaderId::new();
        let (_, read_cap) = machine.register_leased_reader(
            &reader_id,
            self.cfg.reader_lease_duration,
            now,
        );
        let handle = ReadHandle::new(
            shard_id,
            reader_id,
            read_cap.since,
            self.cfg.reader_lease_duration,
            now,
        );
        Ok((machine, handle))
    }

    /// Opens the critical reader `reader_id` on a shard, as of its state `current`.
    ///
    /// A shard that has other codecs than the ones asked for is refused. Else
    /// the reader is registered, unless it is already, and its handle holds the
    /// capability and the token that the shard records of it.
    pub fn open_critical_since(
        &self,
        shard_id: ShardId,
        reader_id: CriticalReaderId,
        codecs: Codecs,
        current: Option<State>,
    ) -> (r: Result<(Machine, SinceHandle), InvalidUsage>)
        requires
            current matches Some(state) ==> state.wf() && state@.seqno + 1 < u64::MAX,
        ensures
            match r {
                Ok((machine, handle)) => codec_mismatch(codecs, current) is None && machine.wf()
                    && machine@ == (TransitionView::RegisterCriticalReader {
                    reader_id: reader_id@,
                }).step(starting_state(shard_id@, codecs, current)) && handle.shard_id == shard_id
                    && handle.reader_id == reader_id && handle.since@
                    == machine@.critical_readers[reader_id@].since && handle.opaque@
                    == machine@.critical_readers[reader_id@].opaque,
                Err(e) => codec_mismatch(codecs, current) == Some(e@),
            },
    {
        let mut machine = match Machine::new(shard_id, codecs, current) {
            Ok(machine) => machine,
            Err(e) => {
                return Err(e);
            },
        };
        let state = machine.register_critical_reader(&reader_id);
        let handle = SinceHandle::new(shard_id, reader_id, state.since, state.opaque);
        Ok((machine, handle))
    }

    /// Opens a writer and a leased reader on a shard, as of its state `current`:
    /// the writer first, then the reader.
    pub fn open(&self, shard_id: ShardId, codecs: Codecs, current: Option<State>, now: u64) -> (r:
        Result<(Machine, WriteHandle, ReadHandle), InvalidUsage>)
        requires
            current matches Some(state) ==> state.wf() && state@.seqno + 2 < u64::MAX,
        ensures
            match r {
                Ok((machine, write, read)) => codec_mismatch(codecs, current) is None
                    && machine.wf() && machine@ == (TransitionView::RegisterLeasedReader {
                    reader_id: read.reader_id@,
                    lease_duration: self.config().reader_lease_duration,
                    now,
                }).step(
                    (TransitionView::RegisterWriter {
                        writer_id: write.writer_id@,
                        lease_duration: self.config().writer_lease_duration,
                        now,
                    }).step(starting_state(shard_id@, codecs, current)),
                ) && write.shard_id == shard_id && read.shard_id == shard_id && write.upper@
                    == starting_state(shard_id@, codecs, current).upper && read.since@
                    == machine@.leased_readers[read.reader_id@].since && write.last_heartbeat == now
                    && read.last_heartbeat == now && write.lease_duration
                    == self.config().writer_lease_duration && read.lease_duration
                    == self.config().reader_lease_duration,
                Err(e) => codec_mismatch(codecs, current) == Some(e@),
            },
    {
        let mut machine = match Machine::new(shard_id, codecs, current) {
            Ok(machine) => machine,
            Err(e) => {
                return Err(e);
            },
        };
        let writer_id = WriterId::new();
        let (shard_upper, _) = machine.register_writer(
            &writer_id,
            self.cfg.writer_lease_duration,
            now,
        );
        let write = WriteHandle::new(
            shard_id,
            writer_id,
            shard_upper,
            self.cfg.writer_lease_duration,
            now,
        );
        let reader_id = LeasedReaderId::new();
        let (_, read_cap) = machine.register_leased_reader(
            &reader_id,
            self.cfg.reader_lease_duration,
            now,
        );
        let read = ReadHandle::new(
            shard_id,
            reader_id,
            read_cap.since,
            self.cfg.reader_lease_duration,
            now,
        );
        Ok((machine, write, read))
    }
}

} // verus!
