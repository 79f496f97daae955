use persist_client::batch::{validate_updates, Added, BatchBuilder};
use persist_client::cfg::PersistConfig;
use persist_client::compact::{should_compact, Admission, CompactionQueue};
use persist_client::error::InvalidUsage;
use persist_client::frontier::Frontier;
use persist_client::gc::{state_names_part, truncatable, unreferenced_parts};
use persist_client::ids::{LeasedReaderId, ShardId, WriterId};
use persist_client::machine::{Machine, Maintenance};
use persist_client::paths::{blob_key, BlobKind};
use persist_client::state::{Codecs, CompareAndAppendRes, HollowBatch, State};

const SHARD: ShardId = ShardId([5u8; 16]);

fn f(t: u64) -> Frontier {
    Frontier::from_elem(t)
}

fn codecs() -> Codecs {
    Codecs {
        key: "String".to_string(),
        val: "String".to_string(),
        ts: "u64".to_string(),
        diff: "i64".to_string(),
    }
}

fn desc(lower: u64, upper: u64, parts: &[&str], len: usize) -> HollowBatch {
    HollowBatch {
        lower: f(lower),
        upper: f(upper),
        since: Frontier::minimum(),
        parts: parts.iter().map(|p| p.to_string()).collect(),
        len,
    }
}

#[test]
fn builder_checks_updates_against_the_lower() {
    let mut builder = BatchBuilder::new(SHARD, f(4), 100, 2);
    assert_eq!(
        builder.add(3, 10),
        Err(InvalidUsage::UpdateNotBeyondLower { ts: 3, lower: f(4) })
    );
    assert_eq!(builder.len(), 0);
    assert_eq!(builder.add(4, 10), Ok(Added::Buffered));
    assert_eq!(builder.add(9, 10), Ok(Added::Buffered));
    assert_eq!(builder.len(), 2);
    assert_eq!(builder.buffered_bytes(), 20);
}

#[test]
fn builder_checks_the_upper_when_it_seals() {
    let builder = BatchBuilder::new(SHARD, f(3), 100, 2);
    assert_eq!(
        builder.finish(f(2), Vec::new()),
        Err(InvalidUsage::InvalidBounds { lower: f(3), upper: f(2) })
    );
    let mut builder = BatchBuilder::new(SHARD, f(2), 100, 2);
    assert_eq!(builder.add(3, 1), Ok(Added::Buffered));
    assert_eq!(
        builder.finish(f(3), Vec::new()),
        Err(InvalidUsage::UpdateBeyondUpper { max_ts: 3, expected_upper: f(3) })
    );
    let mut builder = BatchBuilder::new(SHARD, f(3), 100, 2);
    assert_eq!(builder.add(3, 1), Ok(Added::Buffered));
    let batch = builder.finish(f(4), vec!["k".to_string()]).expect("invalid usage");
    assert_eq!(batch.shard_id, SHARD);
    assert_eq!(batch.desc, desc(3, 4, &["k"], 1));
    // An empty batch over an empty interval is fine.
    let builder = BatchBuilder::new(SHARD, f(3), 100, 2);
    assert_eq!(builder.finish(f(3), Vec::new()).map(|b| b.desc), Ok(desc(3, 3, &[], 0)));
    // An upper beyond every time seals any batch.
    let mut builder = BatchBuilder::new(SHARD, f(0), 100, 2);
    assert_eq!(builder.add(u64::MAX, 1), Ok(Added::Buffered));
    assert!(builder.finish(Frontier::new(), Vec::new()).is_ok());
}

#[test]
fn builder_spills_parts_at_the_target_size() {
    let mut builder = BatchBuilder::new(SHARD, f(0), 10, 1);
    assert_eq!(builder.add(1, 4), Ok(Added::Buffered));
    assert_eq!(builder.add(1, 5), Ok(Added::Buffered));
    assert_eq!(builder.spilled(), 0);
    // The tenth byte fills the part. Nothing is being written: no need to wait.
    assert_eq!(builder.add(2, 1), Ok(Added::Spill { wait_first: false }));
    assert_eq!(builder.buffered_bytes(), 0);
    assert_eq!(builder.spilled(), 1);
    assert_eq!(builder.outstanding(), 1);
    // One part is being written, and no more than one may be.
    assert_eq!(builder.add(3, 25), Ok(Added::Spill { wait_first: true }));
    assert_eq!(builder.spilled(), 2);
    assert_eq!(builder.outstanding(), 1);
    builder.part_finished();
    assert_eq!(builder.outstanding(), 0);
    builder.part_finished();
    assert_eq!(builder.outstanding(), 0);
    assert_eq!(builder.add(3, 10), Ok(Added::Spill { wait_first: false }));
    assert_eq!(builder.len(), 5);
    // Without pipelining every part is waited for.
    let mut builder = BatchBuilder::new(SHARD, f(0), 10, 0);
    assert_eq!(builder.add(1, 10), Ok(Added::Spill { wait_first: true }));
    assert_eq!(builder.outstanding(), 0);
    // With a target of nothing every update is a part.
    let mut builder = BatchBuilder::new(SHARD, f(0), 0, 2);
    assert_eq!(builder.add(1, 0), Ok(Added::Spill { wait_first: false }));
    // Sizes that do not fit together are a part too.
    let mut builder = BatchBuilder::new(SHARD, f(0), usize::MAX, 2);
    assert_eq!(builder.add(1, usize::MAX - 1), Ok(Added::Buffered));
    assert_eq!(builder.add(1, usize::MAX), Ok(Added::Spill { wait_first: false }));
}

#[test]
fn updates_are_validated_in_order() {
    assert_eq!(validate_updates(&vec![], &f(3), &f(3)), Ok(()));
    assert_eq!(validate_updates(&vec![3, 5, 4], &f(3), &f(6)), Ok(()));
    assert_eq!(
        validate_updates(&vec![3], &f(4), &f(5)),
        Err(InvalidUsage::UpdateNotBeyondLower { ts: 3, lower: f(4) })
    );
    assert_eq!(
        validate_updates(&vec![3], &f(2), &f(3)),
        Err(InvalidUsage::UpdateBeyondUpper { max_ts: 3, expected_upper: f(3) })
    );
    assert_eq!(
        validate_updates(&vec![], &f(3), &f(2)),
        Err(InvalidUsage::InvalidBounds { lower: f(3), upper: f(2) })
    );
    // The first update before the lower is the one reported.
    assert_eq!(
        validate_updates(&vec![7, 2, 1, 9], &f(3), &f(2)),
        Err(InvalidUsage::UpdateNotBeyondLower { ts: 2, lower: f(3) })
    );
    // The latest update is the one reported against the upper.
    assert_eq!(
        validate_updates(&vec![4, 9, 6], &f(3), &f(5)),
        Err(InvalidUsage::UpdateBeyondUpper { max_ts: 9, expected_upper: f(5) })
    );
}

#[test]
fn compaction_heuristics() {
    let cfg = PersistConfig::new(false);
    assert!(!should_compact(&cfg, &vec![]));
    assert!(!should_compact(&cfg, &vec![desc(0, 1, &["a"], 1)]));
    // Enough inputs.
    let inputs: Vec<HollowBatch> = (0..8).map(|i| desc(i, i + 1, &[], 0)).collect();
    assert!(should_compact(&cfg, &inputs));
    assert!(!should_compact(&cfg, &inputs[..7].iter().map(|b| b.clone()).collect()));
    // Enough parts.
    let parts = ["a", "b", "c", "d"];
    assert!(should_compact(&cfg, &vec![desc(0, 1, &parts, 0), desc(1, 2, &parts, 0)]));
    assert!(!should_compact(&cfg, &vec![desc(0, 1, &parts, 0), desc(1, 2, &parts[..3], 0)]));
    // Enough updates.
    assert!(should_compact(&cfg, &vec![desc(0, 1, &[], 1000), desc(1, 2, &[], 24)]));
    assert!(!should_compact(&cfg, &vec![desc(0, 1, &[], 1000), desc(1, 2, &[], 23)]));
    // More updates than can be counted.
    assert!(should_compact(&cfg, &vec![desc(0, 1, &[], usize::MAX), desc(1, 2, &[], 1)]));
}

#[test]
fn compaction_queue_admits_up_to_its_limits() {
    let mut cfg = PersistConfig::new(false);
    cfg.compaction_concurrency_limit = 2;
    cfg.compaction_queue_size = 1;
    let mut queue = CompactionQueue::new(&cfg);
    assert_eq!(queue.request(), Admission::Start);
    assert_eq!(queue.request(), Admission::Start);
    assert_eq!(queue.request(), Admission::Queued);
    assert_eq!(queue.request(), Admission::Dropped);
    assert_eq!((queue.active, queue.queued), (2, 1));
    assert!(queue.finished());
    assert_eq!((queue.active, queue.queued), (2, 0));
    assert!(!queue.finished());
    assert_eq!((queue.active, queue.queued), (1, 0));
    assert_eq!(queue.request(), Admission::Start);
    let defaults = CompactionQueue::new(&PersistConfig::new(false));
    assert_eq!((defaults.concurrency_limit, defaults.queue_size), (5, 20));
}

fn state_with(batches: &[HollowBatch]) -> State {
    let mut state = State::new(SHARD, codecs());
    let w = WriterId([1u8; 16]);
    state.register_writer(&w, 10, 0);
    for b in batches {
        let (lower, upper) = (b.lower.clone(), b.upper.clone());
        assert_eq!(
            state.compare_and_append(&w, b.clone(), &lower, &upper, 0),
            CompareAndAppendRes::Applied
        );
    }
    state
}

#[test]
fn garbage_is_what_only_the_earlier_state_names() {
    let earlier = state_with(&[
        desc(0, 2, &["a", "b"], 2),
        desc(2, 4, &["c"], 1),
        desc(4, 6, &["d"], 1),
    ]);
    let mut later = state_with(&[
        desc(0, 2, &["a", "b"], 2),
        desc(2, 4, &["c"], 1),
        desc(4, 6, &["d"], 1),
    ]);
    assert_eq!(unreferenced_parts(&earlier, &later), Vec::<String>::new());
    assert!(later.apply_merge_res(
        &vec![desc(0, 2, &["a", "b"], 2), desc(2, 4, &["c"], 1)],
        desc(0, 4, &["m", "b"], 3)
    ));
    assert_eq!(unreferenced_parts(&earlier, &later), vec!["a".to_string(), "c".to_string()]);
    assert_eq!(unreferenced_parts(&later, &earlier), vec!["m".to_string()]);
    assert!(state_names_part(&later, &"m".to_string()));
    assert!(state_names_part(&later, &"d".to_string()));
    assert!(!state_names_part(&later, &"a".to_string()));
    assert!(!state_names_part(&State::new(SHARD, codecs()), &"a".to_string()));
}

#[test]
fn versions_before_the_rollup_may_go() {
    assert!(!truncatable(3, None));
    assert!(truncatable(3, Some(4)));
    assert!(!truncatable(4, Some(4)));
    assert!(!truncatable(5, Some(4)));
}

#[test]
fn maintenance_lists_the_expired_leases() {
    let mut machine = Machine::new(SHARD, codecs(), None).expect("new shard");
    let (w1, w2) = (WriterId([1u8; 16]), WriterId([2u8; 16]));
    let (r1, r2) = (LeasedReaderId([1u8; 16]), LeasedReaderId([2u8; 16]));
    machine.register_writer(&w1, 10, 0);
    machine.register_writer(&w2, 20, 0);
    machine.register_leased_reader(&r1, 30, 0);
    machine.register_leased_reader(&r2, 5, 0);
    assert_eq!(
        machine.maintenance(10),
        Maintenance {
            expired_writers: vec![],
            expired_leased_readers: vec![r2],
            write_rollup: None
        }
    );
    assert_eq!(
        machine.maintenance(11),
        Maintenance {
            expired_writers: vec![w1],
            expired_leased_readers: vec![r2],
            write_rollup: None
        }
    );
    assert_eq!(
        machine.maintenance(100),
        Maintenance {
            expired_writers: vec![w1, w2],
            expired_leased_readers: vec![r1, r2],
            write_rollup: None
        }
    );
    assert_eq!(machine.state().expired_writers(21), vec![w1, w2]);
    assert_eq!(machine.state().expired_leased_readers(6), vec![r2]);
    // A new shard is at version 0, where a full copy is due.
    let fresh = Machine::new(SHARD, codecs(), None).expect("new shard");
    assert_eq!(fresh.maintenance(0).write_rollup, Some(0));
    // And so it is at version 128.
    for i in 0..124 {
        assert!(machine.heartbeat_writer(&w1, i + 1));
    }
    assert_eq!(machine.seqno(), 128);
    assert_eq!(machine.maintenance(0).write_rollup, Some(128));
}

#[test]
fn blob_keys() {
    assert_eq!(
        blob_key(&ShardId([0u8; 16]), BlobKind::BatchPart, "abc"),
        "s00000000-0000-0000-0000-000000000000/batch_part/abc"
    );
    assert_eq!(
        blob_key(&ShardId([0xab; 16]), BlobKind::Rollup, "0123"),
        "sabababab-abab-abab-abab-abababababab/rollup/0123"
    );
    assert_eq!(BlobKind::BatchPart.name(), "batch_part");
    assert_eq!(BlobKind::Rollup.name(), "rollup");
}
