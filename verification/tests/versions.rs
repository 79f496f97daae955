use persist_client::fetch::{
    checked_snapshot_updates, listen_updates, magnitude_fits, snapshot_updates, Update,
};
use persist_client::frontier::Frontier;
use persist_client::ids::{CriticalReaderId, LeasedReaderId, ShardId, WriterId};
use persist_client::machine::Machine;
use persist_client::model::WriterState;
use persist_client::read::{Listen, ListenEvent, ReadHandle, Since};
use persist_client::state::{
    Codecs, CriticalReaderState, HollowBatch, LeasedReaderState, State, StateParts,
};
use persist_client::state_versions::{ReplayError, StateDiff, Transition};

const SHARD: ShardId = ShardId([7u8; 16]);

fn f(t: u64) -> Frontier {
    Frontier::from_elem(t)
}

fn codecs() -> Codecs {
    Codecs {
        key: "String".to_string(),
        val: "String".to_string(),
        ts: "u64".to_string(),
        diff: "i64".to_string(),
    }
}

fn desc(lower: u64, upper: u64) -> HollowBatch {
    HollowBatch {
        lower: f(lower),
        upper: f(upper),
        since: Frontier::minimum(),
        parts: vec![format!("p{lower}")],
        len: 1,
    }
}

fn update(key: &str, val: &str, ts: u64, diff: i64) -> Update {
    Update { key: key.as_bytes().to_vec(), val: val.as_bytes().to_vec(), ts, diff }
}

fn parts() -> StateParts {
    StateParts {
        shard_id: SHARD,
        seqno: 12,
        codecs: codecs(),
        since: f(2),
        upper: f(6),
        trace: vec![desc(0, 3), desc(3, 6)],
        leased_readers: vec![
            (
                LeasedReaderId([1u8; 16]),
                LeasedReaderState { since: f(2), lease_deadline: 50, last_heartbeat: 10 },
            ),
            (
                LeasedReaderId([2u8; 16]),
                LeasedReaderState { since: f(4), lease_deadline: 60, last_heartbeat: 20 },
            ),
        ],
        critical_readers: vec![(
            CriticalReaderId([3u8; 16]),
            CriticalReaderState { since: f(3), opaque: [8u8; 8] },
        )],
        writers: vec![(
            WriterId([4u8; 16]),
            WriterState { lease_deadline: 100, last_heartbeat: 5 },
        )],
    }
}

#[test]
fn state_round_trips_through_its_parts() {
    let state = State::from_parts(parts()).expect("valid parts");
    assert_eq!(state.seqno(), 12);
    assert_eq!(state.since(), &f(2));
    assert_eq!(state.upper(), &f(6));
    assert_eq!(state.trace_len(), 2);
    assert_eq!(
        state.writer(&WriterId([4u8; 16])),
        Some(WriterState { lease_deadline: 100, last_heartbeat: 5 })
    );
    assert_eq!(
        state.leased_reader(&LeasedReaderId([2u8; 16])).map(|r| r.since.elements()),
        Some(vec![4])
    );
    assert_eq!(
        state.critical_reader(&CriticalReaderId([3u8; 16])).map(|r| r.opaque),
        Some([8u8; 8])
    );
    assert_eq!(state.to_parts(), parts());
    // A new state comes apart and together again too.
    let fresh = State::new(SHARD, codecs());
    let again = State::from_parts(fresh.to_parts()).expect("valid parts");
    assert_eq!(again.to_parts(), fresh.to_parts());
}

#[test]
fn corrupt_parts_make_no_state() {
    // A gap in the trace.
    let mut p = parts();
    p.trace = vec![desc(0, 3), desc(4, 6)];
    assert!(State::from_parts(p).is_none());
    // A trace that does not start at the minimum.
    let mut p = parts();
    p.trace = vec![desc(1, 3), desc(3, 6)];
    assert!(State::from_parts(p).is_none());
    // A trace that does not end at the upper.
    let mut p = parts();
    p.upper = f(7);
    assert!(State::from_parts(p).is_none());
    // A batch that covers no time.
    let mut p = parts();
    p.trace = vec![desc(0, 3), desc(3, 3), desc(3, 6)];
    assert!(State::from_parts(p).is_none());
    // No trace, but an upper beyond the minimum.
    let mut p = parts();
    p.trace = vec![];
    assert!(State::from_parts(p).is_none());
    // A since that is not the meet of the capabilities.
    let mut p = parts();
    p.since = f(1);
    assert!(State::from_parts(p).is_none());
    let mut p = parts();
    p.since = f(3);
    assert!(State::from_parts(p).is_none());
    // A participant that is registered twice.
    let mut p = parts();
    p.writers.push((WriterId([4u8; 16]), WriterState { lease_deadline: 1, last_heartbeat: 1 }));
    assert!(State::from_parts(p).is_none());
    let mut p = parts();
    p.leased_readers.push((
        LeasedReaderId([1u8; 16]),
        LeasedReaderState { since: f(2), lease_deadline: 50, last_heartbeat: 10 },
    ));
    assert!(State::from_parts(p).is_none());
    let mut p = parts();
    p.critical_readers.push((
        CriticalReaderId([3u8; 16]),
        CriticalReaderState { since: f(3), opaque: [8u8; 8] },
    ));
    assert!(State::from_parts(p).is_none());
    // Without readers any since will do.
    let mut p = parts();
    p.leased_readers.clear();
    p.critical_readers.clear();
    p.since = f(100);
    assert!(State::from_parts(p).is_some());
}

fn diff(seqno_from: u64, transition: Transition) -> StateDiff {
    StateDiff { seqno_from, seqno_to: seqno_from + 1, transition }
}

#[test]
fn replay_materializes_the_current_state() {
    let w = WriterId([1u8; 16]);
    let r = LeasedReaderId([2u8; 16]);
    let diffs = vec![
        diff(0, Transition::RegisterWriter { writer_id: w, lease_duration: 10, now: 0 }),
        diff(1, Transition::RegisterLeasedReader { reader_id: r, lease_duration: 10, now: 0 }),
        diff(
            2,
            Transition::CompareAndAppend {
                writer_id: w,
                batch: desc(0, 3),
                expected_lower: f(0),
                new_upper: f(3),
                now: 1,
            },
        ),
        diff(3, Transition::DowngradeSince { reader_id: r, new_since: f(2) }),
        diff(
            4,
            Transition::CompareAndAppend {
                writer_id: w,
                batch: desc(3, 6),
                expected_lower: f(3),
                new_upper: f(6),
                now: 2,
            },
        ),
        diff(
            5,
            Transition::ApplyMergeRes {
                inputs: vec![desc(0, 3), desc(3, 6)],
                output: HollowBatch { len: 2, ..desc(0, 6) },
            },
        ),
    ];
    let mut machine = Machine::new(SHARD, codecs(), None).expect("new shard");
    assert_eq!(machine.replay(&diffs), Ok(()));
    assert_eq!(machine.seqno(), 6);
    assert_eq!(machine.state().upper(), &f(6));
    assert_eq!(machine.state().since(), &f(2));
    assert_eq!(machine.state().trace_len(), 1);

    // The same state comes of applying the operations one by one.
    let mut by_hand = Machine::new(SHARD, codecs(), None).expect("new shard");
    for d in &diffs {
        assert!(by_hand.apply(&d.transition));
    }
    assert_eq!(by_hand.state().to_parts(), machine.state().to_parts());

    // Replaying from a full copy of version 3 gives the same state too.
    let mut rollup = Machine::new(SHARD, codecs(), None).expect("new shard");
    assert_eq!(rollup.replay(&diffs[..3].iter().map(clone_diff).collect()), Ok(()));
    let copy = State::from_parts(rollup.state().to_parts()).expect("valid parts");
    let mut from_rollup = Machine::new(SHARD, codecs(), Some(copy)).expect("codec mismatch");
    assert_eq!(from_rollup.replay(&diffs[3..].iter().map(clone_diff).collect()), Ok(()));
    assert_eq!(from_rollup.state().to_parts(), machine.state().to_parts());
}

fn clone_diff(d: &StateDiff) -> StateDiff {
    let w = WriterId([1u8; 16]);
    let r = LeasedReaderId([2u8; 16]);
    let transition = match &d.transition {
        Transition::RegisterWriter { lease_duration, now, .. } => {
            Transition::RegisterWriter { writer_id: w, lease_duration: *lease_duration, now: *now }
        }
        Transition::RegisterLeasedReader { lease_duration, now, .. } => {
            Transition::RegisterLeasedReader {
                reader_id: r,
                lease_duration: *lease_duration,
                now: *now,
            }
        }
        Transition::CompareAndAppend { batch, expected_lower, new_upper, now, .. } => {
            Transition::CompareAndAppend {
                writer_id: w,
                batch: batch.clone(),
                expected_lower: expected_lower.clone(),
                new_upper: new_upper.clone(),
                now: *now,
            }
        }
        Transition::DowngradeSince { new_since, .. } => {
            Transition::DowngradeSince { reader_id: r, new_since: new_since.clone() }
        }
        Transition::ApplyMergeRes { inputs, output } => Transition::ApplyMergeRes {
            inputs: inputs.iter().map(|b| b.clone()).collect(),
            output: output.clone(),
        },
        other => panic!("not used here: {other:?}"),
    };
    StateDiff { seqno_from: d.seqno_from, seqno_to: d.seqno_to, transition }
}

#[test]
fn replay_stops_at_gaps_and_at_differences_that_change_nothing() {
    let w = WriterId([1u8; 16]);
    let mut machine = Machine::new(SHARD, codecs(), None).expect("new shard");
    let diffs = vec![
        diff(0, Transition::RegisterWriter { writer_id: w, lease_duration: 10, now: 0 }),
        diff(2, Transition::HeartbeatWriter { writer_id: w, now: 1 }),
    ];
    assert_eq!(machine.replay(&diffs), Err(ReplayError::Gap(1)));
    assert_eq!(machine.seqno(), 1);
    let diffs = vec![
        diff(1, Transition::HeartbeatWriter { writer_id: w, now: 1 }),
        diff(2, Transition::ExpireWriter { writer_id: WriterId([9u8; 16]) }),
        diff(3, Transition::HeartbeatWriter { writer_id: w, now: 2 }),
    ];
    assert_eq!(machine.replay(&diffs), Err(ReplayError::Corrupt(1)));
    assert_eq!(machine.seqno(), 2);
    let wrong_to = vec![StateDiff {
        seqno_from: 2,
        seqno_to: 4,
        transition: Transition::HeartbeatWriter { writer_id: w, now: 3 },
    }];
    assert_eq!(machine.replay(&wrong_to), Err(ReplayError::Gap(0)));
    assert_eq!(machine.replay(&vec![]), Ok(()));
    assert_eq!(machine.seqno(), 2);
}

#[test]
fn apply_says_whether_a_version_was_made() {
    let mut machine = Machine::new(SHARD, codecs(), None).expect("new shard");
    let c = CriticalReaderId([3u8; 16]);
    assert!(machine.apply(&Transition::RegisterCriticalReader { reader_id: c }));
    assert!(!machine.apply(&Transition::RegisterCriticalReader { reader_id: c }));
    assert!(!machine.apply(&Transition::CompareAndDowngradeSince {
        reader_id: c,
        expected_opaque: [1u8; 8],
        new_opaque: [2u8; 8],
        new_since: f(3),
    }));
    assert!(machine.apply(&Transition::CompareAndDowngradeSince {
        reader_id: c,
        expected_opaque: [0u8; 8],
        new_opaque: [2u8; 8],
        new_since: f(3),
    }));
    assert_eq!(machine.state().since(), &f(3));
    assert!(!machine.apply(&Transition::HeartbeatLeasedReader {
        reader_id: LeasedReaderId([1u8; 16]),
        now: 4
    }));
    assert!(!machine.apply(&Transition::ExpireLeasedReader { reader_id: LeasedReaderId([1u8; 16]) }));
    assert!(machine.apply(&Transition::ExpireCriticalReader { reader_id: c }));
    assert_eq!(machine.seqno(), 3);
}

#[test]
fn listen_yields_updates_and_progress() {
    let w = WriterId([1u8; 16]);
    let mut machine = Machine::new(SHARD, codecs(), None).expect("new shard");
    machine.register_writer(&w, 10, 0);
    let read = ReadHandle::new(SHARD, LeasedReaderId([2u8; 16]), f(0), 10, 0);
    let mut listen = read.listen(f(1)).expect("as of the since or later");
    assert_eq!(listen, Listen { as_of: f(1), frontier: f(1) });
    // Nothing is written yet.
    assert_eq!(listen.next(machine.state()), vec![]);
    machine.compare_and_append(&w, desc(0, 3), &f(0), &f(3), 1);
    assert_eq!(
        listen.next(machine.state()),
        vec![ListenEvent::Updates(desc(0, 3)), ListenEvent::Progress(f(3))]
    );
    assert_eq!(listen.frontier, f(3));
    assert_eq!(listen.next(machine.state()), vec![]);
    machine.compare_and_append(&w, desc(3, 4), &f(3), &f(4), 1);
    machine.compare_and_append(&w, desc(4, 9), &f(4), &f(9), 1);
    assert_eq!(
        listen.next(machine.state()),
        vec![
            ListenEvent::Updates(desc(3, 4)),
            ListenEvent::Progress(f(4)),
            ListenEvent::Updates(desc(4, 9)),
            ListenEvent::Progress(f(9)),
        ]
    );
    assert_eq!(listen.frontier, f(9));
    assert_eq!(listen.as_of, f(1));
    // A listener cannot start before the capability of its reader.
    let late = ReadHandle::new(SHARD, LeasedReaderId([2u8; 16]), f(5), 10, 0);
    assert_eq!(late.listen(f(4)), Err(Since(f(5))));
    // A listener that starts late skips what ended at or before its start.
    let mut listen = late.listen(f(4)).or_else(|_| late.listen(f(5))).expect("as of 5");
    assert_eq!(
        listen.next(machine.state()),
        vec![ListenEvent::Updates(desc(4, 9)), ListenEvent::Progress(f(9))]
    );
}

#[test]
fn snapshot_shows_the_updates_up_to_a_time_consolidated() {
    let written = vec![
        update("1", "one", 1, 1),
        update("2", "two", 2, 1),
        update("3", "three", 3, 1),
    ];
    assert_eq!(snapshot_updates(&written, 1), vec![update("1", "one", 1, 1)]);
    assert_eq!(
        snapshot_updates(&written, 2),
        vec![update("1", "one", 2, 1), update("2", "two", 2, 1)]
    );
    assert_eq!(
        snapshot_updates(&written, 9),
        vec![update("1", "one", 9, 1), update("2", "two", 9, 1), update("3", "three", 9, 1)]
    );
    assert_eq!(snapshot_updates(&written, 0), vec![]);
}

#[test]
fn snapshot_adds_up_and_drops_what_cancels() {
    let written = vec![
        update("b", "x", 1, 2),
        update("a", "x", 5, 1),
        update("b", "x", 3, 3),
        update("c", "y", 2, 4),
        update("c", "y", 4, -4),
        update("a", "x", 6, -1),
        update("b", "x", 9, 100),
    ];
    assert_eq!(
        snapshot_updates(&written, 3),
        vec![update("b", "x", 3, 5), update("c", "y", 3, 4)]
    );
    assert_eq!(
        snapshot_updates(&written, 5),
        vec![update("a", "x", 5, 1), update("b", "x", 5, 5)]
    );
    assert_eq!(snapshot_updates(&written, 8), vec![update("b", "x", 8, 5)]);
    assert_eq!(checked_snapshot_updates(&written, 8), Some(vec![update("b", "x", 8, 5)]));
    // A single update that is nothing is dropped too.
    assert_eq!(snapshot_updates(&vec![update("a", "x", 1, 0)], 1), vec![]);
}

#[test]
fn diffs_that_do_not_fit_are_not_added_up() {
    assert!(magnitude_fits(&vec![]));
    assert!(magnitude_fits(&vec![update("a", "x", 1, i64::MAX)]));
    assert!(magnitude_fits(&vec![update("a", "x", 1, -i64::MAX)]));
    assert!(!magnitude_fits(&vec![update("a", "x", 1, i64::MIN)]));
    assert!(!magnitude_fits(&vec![update("a", "x", 1, i64::MAX), update("b", "x", 1, 1)]));
    assert!(!magnitude_fits(&vec![update("a", "x", 1, i64::MAX), update("a", "x", 1, -1)]));
    assert!(magnitude_fits(&vec![update("a", "x", 1, i64::MAX - 1), update("a", "x", 1, -1)]));
    assert_eq!(
        checked_snapshot_updates(
            &vec![update("a", "x", 1, i64::MAX), update("a", "x", 1, 1)],
            1
        ),
        None
    );
}

#[test]
fn listen_shows_the_updates_after_its_start() {
    let written = vec![
        update("1", "one", 1, 1),
        update("2", "two", 2, 1),
        update("3", "three", 3, 1),
        update("2", "two", 2, -1),
    ];
    assert_eq!(
        listen_updates(&written, 1),
        vec![update("2", "two", 2, 1), update("3", "three", 3, 1), update("2", "two", 2, -1)]
    );
    assert_eq!(listen_updates(&written, 3), vec![]);
    assert_eq!(listen_updates(&written, 0), written);
    // Together with the snapshot as of the same time nothing is lost or shown twice.
    assert_eq!(snapshot_updates(&written, 1), vec![update("1", "one", 1, 1)]);
}
