use persist_client::cfg::{PersistConfig, PersistLocation, MB};
use persist_client::client::PersistClient;
use persist_client::critical::SinceHandle;
use persist_client::error::InvalidUsage;
use persist_client::frontier::Frontier;
use persist_client::ids::{CriticalReaderId, LeasedReaderId, ShardId, WriterId};
use persist_client::machine::{need_rollup, Machine, NEED_ROLLUP_THRESHOLD};
use persist_client::model::WriterState;
use persist_client::read::{LeasedBatchPart, ReadHandle, Since, Snapshot};
use persist_client::state::{Codecs, CompareAndAppendRes, HollowBatch, SinceDowngrade, State};
use persist_client::write::{is_heartbeat_due, Batch, Heartbeat, Upper, WriteHandle};

fn codecs(k: &str, v: &str, t: &str, d: &str) -> Codecs {
    Codecs { key: k.to_owned(), val: v.to_owned(), ts: t.to_owned(), diff: d.to_owned() }
}

fn string_codecs() -> Codecs {
    codecs("String", "String", "u64", "i64")
}

fn client() -> PersistClient {
    PersistClient::new(PersistConfig::new(false))
}

fn batch(shard: ShardId, lower: u64, upper: u64, len: usize) -> Batch {
    Batch {
        shard_id: shard,
        desc: HollowBatch {
            lower: Frontier::from_elem(lower),
            upper: Frontier::from_elem(upper),
            since: Frontier::minimum(),
            parts: vec![format!("{lower}-{upper}")],
            len,
        },
    }
}

fn f(t: u64) -> Frontier {
    Frontier::from_elem(t)
}

const SHARD: ShardId = ShardId([9u8; 16]);

#[test]
fn default_config() {
    let cfg = PersistConfig::new(false);
    assert_eq!(MB, 1024 * 1024);
    assert_eq!(cfg.blob_target_size, 128 * 1024 * 1024);
    assert_eq!(cfg.batch_builder_max_outstanding_parts, 2);
    assert!(cfg.compaction_enabled);
    assert_eq!(cfg.compaction_memory_bound_bytes, 1024 * 1024 * 1024);
    assert_eq!(cfg.compaction_heuristic_min_inputs, 8);
    assert_eq!(cfg.compaction_heuristic_min_parts, 8);
    assert_eq!(cfg.compaction_heuristic_min_updates, 1024);
    assert_eq!(cfg.compaction_concurrency_limit, 5);
    assert_eq!(cfg.compaction_queue_size, 20);
    assert_eq!(cfg.compaction_minimum_timeout, 90_000);
    assert_eq!(cfg.consensus_connection_pool_max_size, 50);
    assert_eq!(cfg.writer_lease_duration, 60 * 60 * 1000);
    assert_eq!(cfg.reader_lease_duration, 15 * 60 * 1000);
    assert_eq!(PersistConfig::DEFAULT_READ_LEASE_DURATION, 15 * 60 * 1000);
    assert_eq!(cfg.critical_downgrade_interval, 30_000);
    assert!(cfg.is_valid());
    assert!(!PersistConfig::new(true).compaction_enabled);
    let mut small = PersistConfig::new(false);
    small.compaction_memory_bound_bytes = 4 * small.blob_target_size - 1;
    assert!(!small.is_valid());
    small.compaction_memory_bound_bytes = 4 * small.blob_target_size;
    assert!(small.is_valid());
    assert_eq!(client().cfg(), &cfg);
}

#[test]
fn locations_compare_by_their_uris() {
    let a = PersistLocation { blob_uri: "mem://".to_owned(), consensus_uri: "mem://".to_owned() };
    let b = a.clone();
    assert_eq!(a, b);
    let c = PersistLocation { blob_uri: "mem://x".to_owned(), consensus_uri: "mem://".to_owned() };
    assert!(a < c);
}

#[test]
fn rollups_are_due_every_128_versions() {
    assert_eq!(NEED_ROLLUP_THRESHOLD, 128);
    assert!(need_rollup(0));
    assert!(!need_rollup(1));
    assert!(!need_rollup(127));
    assert!(need_rollup(128));
    assert!(need_rollup(256));
    assert!(!need_rollup(u64::MAX));
}

#[test]
fn controller_critical_since() {
    assert_eq!(
        PersistClient::controller_critical_since().to_string(),
        "c00000000-1111-2222-3333-444444444444"
    );
}

#[test]
fn opening_initializes_the_shard() {
    let (machine, write, read) = client().open(SHARD, string_codecs(), None, 10).expect("codec mismatch");
    // The writer made the first version, the reader the second.
    assert_eq!(machine.seqno(), 2);
    assert_eq!(write.upper(), &Frontier::minimum());
    assert_eq!(read.since(), &Frontier::minimum());
    assert_eq!(write.shard_id, SHARD);
    assert_eq!(read.shard_id, SHARD);
    assert_eq!(write.last_heartbeat, 10);
    assert_eq!(read.last_heartbeat, 10);
    let state = machine.state();
    assert_eq!(state.codecs(), &string_codecs());
    assert_eq!(
        state.writer(&write.writer_id),
        Some(WriterState { lease_deadline: 10 + 3_600_000, last_heartbeat: 10 })
    );
    let reader = state.leased_reader(&read.reader_id).expect("registered");
    assert_eq!(reader.lease_deadline, 10 + 900_000);
    assert_eq!(reader.since, Frontier::minimum());
}

#[test]
fn first_writer_writes_version_one() {
    let (machine, _) = client().open_writer(SHARD, string_codecs(), None, 0).expect("codec mismatch");
    assert_eq!(machine.seqno(), 1);
    let (machine, _) = client()
        .open_writer(SHARD, string_codecs(), Some(machine.into_state()), 0)
        .expect("codec mismatch");
    assert_eq!(machine.seqno(), 2);
}

fn existing_state() -> State {
    let (machine, _) = client().open_writer(SHARD, string_codecs(), None, 0).expect("codec mismatch");
    machine.into_state()
}

#[test]
fn codec_mismatch_is_refused() {
    let c = client();
    let cases = [
        codecs("Vec<u8>", "String", "u64", "i64"),
        codecs("String", "Vec<u8>", "u64", "i64"),
        codecs("String", "String", "i64", "i64"),
        codecs("String", "String", "u64", "u64"),
    ];
    for requested in cases {
        let expected = InvalidUsage::CodecMismatch {
            requested: requested.clone(),
            actual: string_codecs(),
        };
        assert_eq!(
            c.open(SHARD, requested.clone(), Some(existing_state()), 1).unwrap_err(),
            expected
        );
        assert_eq!(
            c.open_leased_reader(SHARD, requested.clone(), Some(existing_state()), 1).unwrap_err(),
            expected
        );
        assert_eq!(
            c.open_writer(SHARD, requested.clone(), Some(existing_state()), 1).unwrap_err(),
            expected
        );
        assert_eq!(
            c.open_critical_since(
                SHARD,
                PersistClient::controller_critical_since(),
                requested.clone(),
                Some(existing_state())
            )
            .unwrap_err(),
            expected
        );
        assert_eq!(
            Machine::new(SHARD, requested, Some(existing_state())).map(|m| m.seqno()),
            Err(expected)
        );
    }
    // The codecs of the shard are accepted.
    assert!(c.open(SHARD, string_codecs(), Some(existing_state()), 1).is_ok());
}

/// The batches of a snapshot that is ready.
fn batches_of(snapshot: Result<Snapshot, Since>) -> Vec<HollowBatch> {
    match snapshot {
        Ok(Snapshot::Ready(parts)) => parts.into_iter().map(|p| p.batch).collect(),
        other => panic!("unexpected {other:?}"),
    }
}

/// A batch on lease to a reader, as of a time.
fn part(read: &ReadHandle, as_of: u64) -> LeasedBatchPart {
    LeasedBatchPart {
        shard_id: read.shard_id,
        reader_id: read.reader_id,
        batch: batch(read.shard_id, 0, 3, 2).desc,
        as_of: f(as_of),
    }
}

#[test]
fn sanity_check_write_and_snapshot() {
    let (mut machine, mut write, mut read) =
        client().open(SHARD, string_codecs(), None, 0).expect("codec mismatch");
    assert_eq!(write.upper(), &f(0));
    assert_eq!(read.since(), &f(0));

    // Write a [0,3) batch of two updates.
    let upper = write.upper().clone();
    assert_eq!(
        write.append_batch(&mut machine, batch(SHARD, 0, 3, 2), &upper, &f(3), 1),
        Ok(Ok(()))
    );
    assert_eq!(write.upper(), &f(3));
    assert_eq!(machine.state().upper(), &f(3));

    // A snapshot as of 1 reads the one batch.
    assert_eq!(batches_of(read.snapshot(machine.state(), &f(1))), vec![batch(SHARD, 0, 3, 2).desc]);
    // A snapshot as of 3 has to wait until the upper is beyond 3.
    assert_eq!(read.snapshot(machine.state(), &f(3)), Ok(Snapshot::NotYet));

    // Write a [3,4) batch.
    let upper = write.upper().clone();
    assert_eq!(
        write.append_batch(&mut machine, batch(SHARD, 3, 4, 1), &upper, &f(4), 2),
        Ok(Ok(()))
    );
    assert_eq!(write.upper(), &f(4));
    assert_eq!(
        batches_of(read.snapshot(machine.state(), &f(3))),
        vec![batch(SHARD, 0, 3, 2).desc, batch(SHARD, 3, 4, 1).desc]
    );
    assert_eq!(batches_of(read.snapshot(machine.state(), &f(2))), vec![batch(SHARD, 0, 3, 2).desc]);
    // Hand everything back that was handed out.
    for as_of in [1, 3, 3, 2] {
        read.process_returned_leased_part(part(&read, as_of));
    }
    assert_eq!(read.leased, vec![]);

    // Downgrading the since is tracked by the handle and by the shard.
    read.downgrade_since(&mut machine, &f(2), 3);
    assert_eq!(read.since(), &f(2));
    assert_eq!(machine.state().since(), &f(2));
    assert_eq!(read.last_heartbeat, 3);
    assert_eq!(read.snapshot(machine.state(), &f(1)), Err(Since(f(2))));
    // Going back is not possible.
    read.downgrade_since(&mut machine, &f(1), 4);
    assert_eq!(read.since(), &f(2));
    assert_eq!(machine.state().since(), &f(2));
}

#[test]
fn compare_and_append_of_two_writers() {
    let c = client();
    let (machine, mut write1) = c.open_writer(SHARD, string_codecs(), None, 0).expect("codec mismatch");
    let (mut machine, mut write2) = c
        .open_writer(SHARD, string_codecs(), Some(machine.into_state()), 0)
        .expect("codec mismatch");
    assert_eq!(write1.upper(), &f(0));
    assert_eq!(write2.upper(), &f(0));

    assert_eq!(
        write1.compare_and_append_batch(&mut machine, batch(SHARD, 0, 3, 2), &f(0), &f(3), 1),
        Ok(Ok(()))
    );
    assert_eq!(write1.upper(), &f(3));
    let seqno = machine.seqno();

    // The second writer still believes in the old upper.
    assert_eq!(
        write2.compare_and_append_batch(&mut machine, batch(SHARD, 0, 3, 2), &f(0), &f(3), 2),
        Ok(Err(Upper(f(3))))
    );
    // A failed write updates the cache of the upper, and the trace stays.
    assert_eq!(write2.upper(), &f(3));
    assert_eq!(machine.state().trace_len(), 1);
    assert_eq!(machine.state().upper(), &f(3));
    // The heartbeat of the losing writer is the one new version.
    assert_eq!(machine.seqno(), seqno + 1);
    assert_eq!(write2.last_heartbeat, 2);

    assert_eq!(
        write2.compare_and_append_batch(&mut machine, batch(SHARD, 3, 4, 1), &f(3), &f(4), 3),
        Ok(Ok(()))
    );
    assert_eq!(write2.upper(), &f(4));
    assert_eq!(write1.fetch_recent_upper(&machine), &f(4));
    assert_eq!(write1.upper(), &f(4));
}

#[test]
fn overlapping_appends_extend_the_tile() {
    let c = client();
    let (machine, mut write1) = c.open_writer(SHARD, string_codecs(), None, 0).expect("codec mismatch");
    let (mut machine, mut write2) = c
        .open_writer(SHARD, string_codecs(), Some(machine.into_state()), 0)
        .expect("codec mismatch");

    // Write a [0,3) batch.
    let upper = write1.upper().clone();
    assert_eq!(write1.append_batch(&mut machine, batch(SHARD, 0, 3, 2), &upper, &f(3), 1), Ok(Ok(())));
    assert_eq!(write1.upper(), &f(3));

    // Write a [0,5) batch with the second writer.
    let upper = write2.upper().clone();
    assert_eq!(upper, f(0));
    assert_eq!(write2.append_batch(&mut machine, batch(SHARD, 0, 5, 4), &upper, &f(5), 1), Ok(Ok(())));
    assert_eq!(write2.upper(), &f(5));
    assert_eq!(machine.state().upper(), &f(5));

    // Write a [3,6) batch with the first writer.
    let upper = write1.upper().clone();
    assert_eq!(upper, f(3));
    assert_eq!(write1.append_batch(&mut machine, batch(SHARD, 3, 6, 3), &upper, &f(6), 1), Ok(Ok(())));
    assert_eq!(write1.upper(), &f(6));
    assert_eq!(machine.state().upper(), &f(6));

    // The trace tiles [0, 6).
    let state = machine.state();
    assert_eq!(state.trace_len(), 3);
    assert_eq!(state.batch(0).lower, f(0));
    assert_eq!(state.batch(0).upper, f(3));
    assert_eq!(state.batch(1).lower, f(3));
    assert_eq!(state.batch(1).upper, f(5));
    assert_eq!(state.batch(2).lower, f(5));
    assert_eq!(state.batch(2).upper, f(6));

    // An append that the shard is beyond already leaves nothing to do.
    let seqno = machine.seqno();
    assert_eq!(write2.append_batch(&mut machine, batch(SHARD, 0, 5, 4), &f(0), &f(5), 1), Ok(Ok(())));
    assert_eq!(machine.seqno(), seqno);
    assert_eq!(write2.upper(), &f(6));
}

#[test]
fn noncontiguous_append_fails() {
    let (mut machine, mut write) =
        client().open_writer(SHARD, string_codecs(), None, 0).expect("codec mismatch");
    assert_eq!(write.append_batch(&mut machine, batch(SHARD, 0, 3, 2), &f(0), &f(3), 1), Ok(Ok(())));
    assert_eq!(
        write.append_batch(&mut machine, batch(SHARD, 5, 6, 1), &f(5), &f(6), 2),
        Ok(Err(Upper(f(3))))
    );
    assert_eq!(write.upper(), &f(3));
    assert_eq!(
        write.compare_and_append_batch(&mut machine, batch(SHARD, 5, 6, 1), &f(5), &f(6), 2),
        Ok(Err(Upper(f(3))))
    );
    // Fixing the lower makes the append succeed.
    assert_eq!(write.append_batch(&mut machine, batch(SHARD, 3, 6, 3), &f(3), &f(6), 3), Ok(Ok(())));
    assert_eq!(write.upper(), &f(6));
}

#[test]
fn invalid_usage_of_write_handles() {
    let (mut machine, mut write) =
        client().open_writer(SHARD, string_codecs(), None, 0).expect("codec mismatch");
    assert_eq!(
        write.compare_and_append_batch(&mut machine, batch(SHARD, 0, 4, 3), &f(0), &f(4), 1),
        Ok(Ok(()))
    );
    let seqno = machine.seqno();
    let other = ShardId([1u8; 16]);
    assert_eq!(
        write.append_batch(&mut machine, batch(other, 4, 5, 1), &f(4), &f(5), 2),
        Err(InvalidUsage::BatchNotFromThisShard { batch_shard: other, handle_shard: SHARD })
    );
    assert_eq!(
        write.compare_and_append_batch(&mut machine, batch(other, 4, 5, 1), &f(4), &f(5), 2),
        Err(InvalidUsage::BatchNotFromThisShard { batch_shard: other, handle_shard: SHARD })
    );
    assert_eq!(
        write.append_batch(&mut machine, batch(SHARD, 3, 2, 0), &f(3), &f(2), 2),
        Err(InvalidUsage::InvalidBounds { lower: f(3), upper: f(2) })
    );
    assert_eq!(
        write.append_batch(&mut machine, batch(SHARD, 3, 4, 1), &f(4), &f(5), 2),
        Err(InvalidUsage::InvalidBatchBounds {
            batch_lower: f(3),
            batch_upper: f(4),
            append_lower: f(4),
            append_upper: f(5),
        })
    );
    assert_eq!(
        write.append_batch(&mut machine, batch(SHARD, 3, 4, 1), &f(2), &f(3), 2),
        Err(InvalidUsage::InvalidBatchBounds {
            batch_lower: f(3),
            batch_upper: f(4),
            append_lower: f(2),
            append_upper: f(3),
        })
    );
    assert!(matches!(
        write.append_batch(&mut machine, batch(SHARD, 3, 4, 1), &f(3), &f(3), 2),
        Err(InvalidUsage::InvalidEmptyTimeInterval { .. })
    ));
    // None of these changed the shard or the handle.
    assert_eq!(machine.seqno(), seqno);
    assert_eq!(write.upper(), &f(4));
    assert_eq!(write.last_heartbeat, 1);
}

#[test]
fn writer_heartbeat_and_expiry() {
    let (mut machine, mut write) =
        client().open_writer(SHARD, string_codecs(), None, 0).expect("codec mismatch");
    let lease = write.lease_duration;
    assert_eq!(lease, 3_600_000);
    assert!(!is_heartbeat_due(0, lease, lease / 2 - 1));
    assert!(is_heartbeat_due(0, lease, lease / 2));
    assert!(!is_heartbeat_due(10, lease, 5));

    // No heartbeat if not enough time has passed.
    let heartbeat = write.last_heartbeat;
    let mut now = 1;
    assert_eq!(write.maybe_heartbeat_writer(&mut machine, now), Heartbeat::NotDue);
    assert_eq!(write.last_heartbeat, heartbeat);
    assert_eq!(write.maybe_heartbeat_writer(&mut machine, lease / 2 - 1), Heartbeat::NotDue);
    assert_eq!(write.last_heartbeat, heartbeat);

    // But a heartbeat once half the lease has passed.
    now += lease / 2;
    assert_eq!(write.maybe_heartbeat_writer(&mut machine, now), Heartbeat::Extended);
    assert_eq!(write.last_heartbeat, now);
    assert_eq!(
        machine.state().writer(&write.writer_id),
        Some(WriterState { lease_deadline: now + lease, last_heartbeat: now })
    );

    // An append heartbeats the writer too.
    now += lease / 2;
    assert_eq!(
        write.compare_and_append_batch(&mut machine, batch(SHARD, 0, 2, 1), &f(0), &f(2), now),
        Ok(Ok(()))
    );
    assert_eq!(write.last_heartbeat, now);

    // And so does a failed append.
    now += lease / 2;
    assert_eq!(
        write.append_batch(&mut machine, batch(SHARD, 99, 100, 0), &f(99), &f(100), now),
        Ok(Err(Upper(f(2))))
    );
    assert_eq!(write.last_heartbeat, now);

    // Other participants can expire the writer once its lease has run out.
    now += lease * 2;
    let deadline = machine.state().writer(&write.writer_id).expect("registered").lease_deadline;
    assert!(deadline < now);
    assert!(machine.expire_writer(&write.writer_id));
    assert_eq!(write.maybe_heartbeat_writer(&mut machine, now), Heartbeat::Expired);
    assert_eq!(write.last_heartbeat, now - lease * 2);
}

#[test]
fn reader_heartbeat_and_expiry() {
    let (mut machine, mut read) =
        client().open_leased_reader(SHARD, string_codecs(), None, 0).expect("codec mismatch");
    let lease = read.lease_duration;
    assert_eq!(lease, 900_000);
    assert_eq!(read.maybe_heartbeat_reader(&mut machine, lease / 2 - 1), Heartbeat::NotDue);
    assert_eq!(read.maybe_heartbeat_reader(&mut machine, lease / 2), Heartbeat::Extended);
    assert_eq!(read.last_heartbeat, lease / 2);
    let id = read.reader_id;
    assert!(machine.expire_leased_reader(&id));
    assert_eq!(read.maybe_heartbeat_reader(&mut machine, 10 * lease), Heartbeat::Expired);
    read.downgrade_since(&mut machine, &f(5), 10 * lease);
    assert_eq!(read.since(), &f(0));
    assert!(!read.expire(&mut machine));
}

#[test]
fn critical_since_handle() {
    let c = client();
    let id = PersistClient::controller_critical_since();
    let (machine, mut since) =
        c.open_critical_since(SHARD, id, string_codecs(), None).expect("codec mismatch");
    assert_eq!(machine.seqno(), 1);
    assert_eq!(since.since(), &f(0));
    assert_eq!(since.opaque(), &[0u8; 8]);
    let (mut machine, read) = c
        .open_leased_reader(SHARD, string_codecs(), Some(machine.into_state()), 0)
        .expect("codec mismatch");

    assert_eq!(
        since.compare_and_downgrade_since(&mut machine, &[0u8; 8], &[0u8; 8], &f(5)),
        SinceDowngrade::Downgraded(f(5))
    );
    assert_eq!(since.since(), &f(5));
    assert_eq!(machine.state().since(), &f(0));

    // Drop all leased readers: the since is pinned at 5.
    assert!(read.expire(&mut machine));
    assert_eq!(machine.state().since(), &f(5));

    // Another reader starts at the since of the shard, and cannot read before it.
    let (machine, mut read) = c
        .open_leased_reader(SHARD, string_codecs(), Some(machine.into_state()), 0)
        .expect("codec mismatch");
    assert_eq!(read.since(), &f(5));
    assert_eq!(read.snapshot(machine.state(), &f(3)), Err(Since(f(5))));

    // Opening the critical handle again finds what is registered.
    let (mut machine, mut again) = c
        .open_critical_since(SHARD, id, string_codecs(), Some(machine.into_state()))
        .expect("codec mismatch");
    assert_eq!(again.since(), &f(5));
    assert_eq!(
        again.compare_and_downgrade_since(&mut machine, &[7u8; 8], &[1u8; 8], &f(9)),
        SinceDowngrade::OpaqueMismatch([0u8; 8])
    );
    assert_eq!(
        again.compare_and_downgrade_since(&mut machine, &[0u8; 8], &[1u8; 8], &f(9)),
        SinceDowngrade::Downgraded(f(9))
    );
    assert_eq!(again.opaque(), &[1u8; 8]);
    // The first handle holds a stale token now, and learns the new one.
    assert_eq!(
        since.compare_and_downgrade_since(&mut machine, &[0u8; 8], &[2u8; 8], &f(10)),
        SinceDowngrade::OpaqueMismatch([1u8; 8])
    );
    assert_eq!(since.opaque(), &[1u8; 8]);
    assert!(again.expire(&mut machine));
    assert_eq!(
        since.compare_and_downgrade_since(&mut machine, &[1u8; 8], &[2u8; 8], &f(10)),
        SinceDowngrade::NotRegistered
    );
    assert!(!since.expire(&mut machine));
}

#[test]
fn machine_makes_versions_only_for_changes() {
    let mut machine = Machine::new(SHARD, string_codecs(), None).expect("new shard");
    assert_eq!(machine.seqno(), 0);
    let w = WriterId([1u8; 16]);
    let r = LeasedReaderId([2u8; 16]);
    let c = CriticalReaderId([3u8; 16]);
    machine.register_writer(&w, 10, 0);
    assert_eq!(machine.seqno(), 1);
    machine.register_leased_reader(&r, 10, 0);
    assert_eq!(machine.seqno(), 2);
    machine.register_critical_reader(&c);
    assert_eq!(machine.seqno(), 3);
    machine.register_critical_reader(&c);
    assert_eq!(machine.seqno(), 3);
    assert_eq!(
        machine.compare_and_append(&w, batch(SHARD, 0, 3, 1).desc, &f(0), &f(3), 1),
        CompareAndAppendRes::Applied
    );
    assert_eq!(machine.seqno(), 4);
    assert_eq!(
        machine.compare_and_append(&w, batch(SHARD, 0, 3, 1).desc, &f(0), &f(3), 1),
        CompareAndAppendRes::UpperMismatch(f(3))
    );
    assert_eq!(machine.seqno(), 4);
    assert_eq!(machine.downgrade_since(&r, &f(2)), Some(f(2)));
    assert_eq!(machine.seqno(), 5);
    assert_eq!(machine.downgrade_since(&r, &f(1)), Some(f(2)));
    assert_eq!(machine.seqno(), 5);
    assert_eq!(machine.downgrade_since(&LeasedReaderId([8u8; 16]), &f(1)), None);
    assert_eq!(machine.seqno(), 5);
    assert!(!machine.heartbeat_writer(&WriterId([8u8; 16]), 5));
    assert!(!machine.heartbeat_leased_reader(&LeasedReaderId([8u8; 16]), 5));
    assert_eq!(machine.seqno(), 5);
    assert!(machine.heartbeat_writer(&w, 5));
    assert!(machine.heartbeat_leased_reader(&r, 5));
    assert_eq!(machine.seqno(), 7);
    assert!(!machine.apply_merge_res(&vec![batch(SHARD, 0, 2, 1).desc], batch(SHARD, 0, 2, 1).desc));
    assert_eq!(machine.seqno(), 7);
    assert!(machine.apply_merge_res(&vec![batch(SHARD, 0, 3, 1).desc], batch(SHARD, 0, 3, 1).desc));
    assert_eq!(machine.seqno(), 8);
    assert!(!machine.expire_writer(&WriterId([8u8; 16])));
    assert!(!machine.expire_critical_reader(&CriticalReaderId([8u8; 16])));
    assert_eq!(machine.seqno(), 8);
    assert!(machine.expire_writer(&w));
    assert!(machine.expire_leased_reader(&r));
    assert!(machine.expire_critical_reader(&c));
    assert_eq!(machine.seqno(), 11);
    assert_eq!(
        machine.compare_and_downgrade_since(&c, &[0u8; 8], &[0u8; 8], &f(1)),
        SinceDowngrade::NotRegistered
    );
    assert_eq!(machine.seqno(), 11);
}

#[test]
fn handles_can_be_made_by_hand() {
    let write = WriteHandle::new(SHARD, WriterId([1u8; 16]), f(3), 100, 7);
    assert_eq!((write.upper(), write.last_heartbeat, write.lease_duration), (&f(3), 7, 100));
    let read = ReadHandle::new(SHARD, LeasedReaderId([1u8; 16]), f(2), 50, 7);
    assert_eq!((read.since(), read.last_heartbeat, read.lease_duration), (&f(2), 7, 50));
    let since = SinceHandle::new(SHARD, CriticalReaderId([1u8; 16]), f(2), [4u8; 8]);
    assert_eq!((since.since(), since.opaque()), (&f(2), &[4u8; 8]));
}

#[test]
fn leased_parts_hold_the_capability_back() {
    let c = client();
    let (machine, mut write) = c.open_writer(SHARD, string_codecs(), None, 0).expect("codec mismatch");
    let (mut machine, mut read) = c
        .open_leased_reader(SHARD, string_codecs(), Some(machine.into_state()), 0)
        .expect("codec mismatch");
    assert_eq!(write.append_batch(&mut machine, batch(SHARD, 0, 3, 2), &f(0), &f(3), 1), Ok(Ok(())));
    assert_eq!(write.append_batch(&mut machine, batch(SHARD, 3, 9, 2), &f(3), &f(9), 1), Ok(Ok(())));

    let parts = match read.snapshot(machine.state(), &f(4)) {
        Ok(Snapshot::Ready(parts)) => parts,
        other => panic!("unexpected {other:?}"),
    };
    assert_eq!(parts.len(), 2);
    for p in &parts {
        assert_eq!((p.shard_id, p.reader_id, &p.as_of), (SHARD, read.reader_id, &f(4)));
    }
    assert_eq!(read.leased, vec![f(4), f(4)]);
    assert_eq!(read.held_back_since(&f(7)), f(4));
    assert_eq!(read.held_back_since(&f(2)), f(2));

    // While the parts are out the capability stays at or before 4.
    read.downgrade_since(&mut machine, &f(7), 2);
    assert_eq!(read.since(), &f(4));
    assert_eq!(machine.state().since(), &f(4));

    // A part of another reader is none of ours.
    let mut theirs = part(&read, 4);
    theirs.reader_id = LeasedReaderId([0u8; 16]);
    read.process_returned_leased_part(theirs);
    assert_eq!(read.leased.len(), 2);
    // A part as of another time is not on lease.
    read.process_returned_leased_part(part(&read, 5));
    assert_eq!(read.leased.len(), 2);

    let mut parts = parts;
    read.process_returned_leased_part(parts.pop().expect("two parts"));
    assert_eq!(read.leased, vec![f(4)]);
    read.downgrade_since(&mut machine, &f(7), 3);
    assert_eq!(read.since(), &f(4));
    read.process_returned_leased_part(parts.pop().expect("one part"));
    assert_eq!(read.leased, vec![]);
    assert_eq!(read.held_back_since(&f(7)), f(7));
    read.downgrade_since(&mut machine, &f(7), 4);
    assert_eq!(read.since(), &f(7));
    assert_eq!(machine.state().since(), &f(7));
}

#[test]
fn the_first_lease_for_a_time_is_the_one_handed_back() {
    let mut read = ReadHandle::new(SHARD, LeasedReaderId([1u8; 16]), f(0), 10, 0);
    read.leased = vec![f(3), f(5), f(3), f(7)];
    read.process_returned_leased_part(part(&read, 3));
    assert_eq!(read.leased, vec![f(5), f(3), f(7)]);
    read.process_returned_leased_part(part(&read, 7));
    assert_eq!(read.leased, vec![f(5), f(3)]);
    assert_eq!(read.held_back_since(&f(9)), f(3));
    assert_eq!(read.held_back_since(&Frontier::new()), f(3));
}

#[test]
fn fetchers_refuse_the_batches_of_other_shards() {
    let other = ShardId([1u8; 16]);
    let read0 = ReadHandle::new(SHARD, LeasedReaderId([1u8; 16]), f(0), 10, 0);
    let read1 = ReadHandle::new(other, LeasedReaderId([2u8; 16]), f(0), 10, 0);
    let fetcher1 = read1.batch_fetcher();
    assert_eq!(
        fetcher1.fetch_leased_part(&part(&read0, 3)),
        Err(InvalidUsage::BatchNotFromThisShard { batch_shard: SHARD, handle_shard: other })
    );
    assert_eq!(fetcher1.fetch_leased_part(&part(&read1, 3)), Ok(()));
    assert_eq!(read0.batch_fetcher().fetch_leased_part(&part(&read0, 3)), Ok(()));
}
