use persist_client::error::InvalidUsage;
use persist_client::frontier::Frontier;
use persist_client::ids::{CriticalReaderId, LeasedReaderId, ShardId, WriterId};
use persist_client::model::WriterState;
use persist_client::state::{
    downgrade, heartbeat_lease, lease_deadline, Codecs, CompareAndAppendRes, HollowBatch,
    SinceDowngrade, State,
};

fn codecs() -> Codecs {
    Codecs {
        key: "String".to_string(),
        val: "String".to_string(),
        ts: "u64".to_string(),
        diff: "i64".to_string(),
    }
}

fn new_state() -> State {
    State::new(ShardId([1u8; 16]), codecs())
}

fn batch(lower: u64, upper: u64, len: usize) -> HollowBatch {
    HollowBatch {
        lower: Frontier::from_elem(lower),
        upper: Frontier::from_elem(upper),
        since: Frontier::minimum(),
        parts: vec![format!("b{lower}-{upper}")],
        len,
    }
}

fn append(state: &mut State, w: &WriterId, lower: u64, upper: u64, now: u64) -> CompareAndAppendRes {
    state.compare_and_append(
        w,
        batch(lower, upper, 1),
        &Frontier::from_elem(lower),
        &Frontier::from_elem(upper),
        now,
    )
}

#[test]
fn new_state_starts_at_the_minimum() {
    let state = new_state();
    assert_eq!(state.seqno(), 0);
    assert_eq!(state.shard_id(), ShardId([1u8; 16]));
    assert_eq!(state.since().elements(), vec![0]);
    assert_eq!(state.upper().elements(), vec![0]);
    assert_eq!(state.trace_len(), 0);
    assert_eq!(state.codecs(), &codecs());
    assert_eq!(state.writer(&WriterId([2u8; 16])), None);
    assert!(state.leased_reader(&LeasedReaderId([2u8; 16])).is_none());
    assert!(state.critical_reader(&CriticalReaderId([2u8; 16])).is_none());
}

#[test]
fn lease_arithmetic() {
    assert_eq!(lease_deadline(0, 100), 100);
    assert_eq!(lease_deadline(40, 60), 100);
    assert_eq!(lease_deadline(u64::MAX - 1, 5), u64::MAX);
    let w = WriterState { lease_deadline: 100, last_heartbeat: 40 };
    assert_eq!(heartbeat_lease(w, 40), w);
    assert_eq!(heartbeat_lease(w, 10), w);
    assert_eq!(
        heartbeat_lease(w, 70),
        WriterState { lease_deadline: 130, last_heartbeat: 70 }
    );
    assert_eq!(
        heartbeat_lease(w, u64::MAX),
        WriterState { lease_deadline: u64::MAX, last_heartbeat: u64::MAX }
    );
}

#[test]
fn register_writer_refreshes_the_lease_only() {
    let mut state = new_state();
    let w = WriterId([7u8; 16]);
    let (upper, writer) = state.register_writer(&w, 100, 5);
    assert_eq!(upper.elements(), vec![0]);
    assert_eq!(writer, WriterState { lease_deadline: 105, last_heartbeat: 5 });
    assert_eq!(state.writer(&w), Some(writer));
    let (upper, writer) = state.register_writer(&w, 100, 50);
    assert_eq!(upper.elements(), vec![0]);
    assert_eq!(writer, WriterState { lease_deadline: 150, last_heartbeat: 50 });
    assert_eq!(state.writer(&w), Some(writer));
    assert_eq!(state.upper().elements(), vec![0]);
    assert_eq!(state.since().elements(), vec![0]);
    assert_eq!(state.trace_len(), 0);
}

#[test]
fn register_leased_reader_again_keeps_its_capability() {
    let mut state = new_state();
    let r = LeasedReaderId([3u8; 16]);
    let w = WriterId([7u8; 16]);
    state.register_writer(&w, 100, 0);
    assert_eq!(append(&mut state, &w, 0, 10, 1), CompareAndAppendRes::Applied);
    let (upper, cap) = state.register_leased_reader(&r, 30, 2);
    assert_eq!(upper.elements(), vec![10]);
    assert_eq!(cap.since.elements(), vec![0]);
    assert_eq!(cap.lease_deadline, 32);
    assert_eq!(cap.last_heartbeat, 2);
    assert_eq!(
        state.downgrade_since(&r, &Frontier::from_elem(4)).map(|f| f.elements()),
        Some(vec![4])
    );
    assert_eq!(state.since().elements(), vec![4]);
    let (_, cap) = state.register_leased_reader(&r, 30, 9);
    assert_eq!(cap.since.elements(), vec![4]);
    assert_eq!(cap.lease_deadline, 39);
    assert_eq!(cap.last_heartbeat, 9);
    assert_eq!(state.since().elements(), vec![4]);
    // A second reader starts at the since of the shard.
    let (_, cap2) = state.register_leased_reader(&LeasedReaderId([4u8; 16]), 30, 9);
    assert_eq!(cap2.since.elements(), vec![4]);
}

#[test]
fn downgrade_since_is_monotone() {
    let mut state = new_state();
    let r = LeasedReaderId([3u8; 16]);
    state.register_leased_reader(&r, 30, 0);
    assert_eq!(downgrade(&Frontier::from_elem(3), &Frontier::from_elem(5)).elements(), vec![5]);
    assert_eq!(downgrade(&Frontier::from_elem(5), &Frontier::from_elem(3)).elements(), vec![5]);
    assert_eq!(
        state.downgrade_since(&r, &Frontier::from_elem(5)).map(|f| f.elements()),
        Some(vec![5])
    );
    assert_eq!(
        state.downgrade_since(&r, &Frontier::from_elem(2)).map(|f| f.elements()),
        Some(vec![5])
    );
    assert_eq!(state.leased_reader(&r).map(|r| r.since.elements()), Some(vec![5]));
    assert_eq!(state.since().elements(), vec![5]);
    assert_eq!(state.downgrade_since(&LeasedReaderId([9u8; 16]), &Frontier::from_elem(9)), None);
    assert_eq!(state.since().elements(), vec![5]);
}

#[test]
fn since_is_the_meet_of_the_capabilities() {
    let mut state = new_state();
    let r1 = LeasedReaderId([1u8; 16]);
    let r2 = LeasedReaderId([2u8; 16]);
    let c = CriticalReaderId([3u8; 16]);
    state.register_leased_reader(&r1, 30, 0);
    state.register_leased_reader(&r2, 30, 0);
    state.register_critical_reader(&c);
    state.downgrade_since(&r1, &Frontier::from_elem(8));
    assert_eq!(state.since().elements(), vec![0]);
    state.downgrade_since(&r2, &Frontier::from_elem(6));
    assert_eq!(state.since().elements(), vec![0]);
    assert_eq!(
        state.compare_and_downgrade_since(&c, &[0u8; 8], &[1u8; 8], &Frontier::from_elem(7)),
        SinceDowngrade::Downgraded(Frontier::from_elem(7))
    );
    assert_eq!(state.since().elements(), vec![6]);
    assert!(state.expire_leased_reader(&r2));
    assert_eq!(state.since().elements(), vec![7]);
    assert!(state.expire_critical_reader(&c));
    assert_eq!(state.since().elements(), vec![8]);
    assert!(state.expire_leased_reader(&r1));
    // Nobody holds a capability: the since stays.
    assert_eq!(state.since().elements(), vec![8]);
    assert!(!state.expire_leased_reader(&r1));
}

#[test]
fn critical_since_pins_the_shard() {
    let mut state = new_state();
    let c = CriticalReaderId([0, 0, 0, 0, 17, 17, 34, 34, 51, 51, 68, 68, 68, 68, 68, 68]);
    let r = LeasedReaderId([2u8; 16]);
    let registered = state.register_critical_reader(&c);
    assert_eq!(registered.opaque, [0u8; 8]);
    assert_eq!(registered.since.elements(), vec![0]);
    state.register_leased_reader(&r, 30, 0);
    assert_eq!(
        state.compare_and_downgrade_since(&c, &[0u8; 8], &[0u8; 8], &Frontier::from_elem(5)),
        SinceDowngrade::Downgraded(Frontier::from_elem(5))
    );
    assert_eq!(state.since().elements(), vec![0]);
    assert!(state.expire_leased_reader(&r));
    assert_eq!(state.since().elements(), vec![5]);
    // A snapshot as of 3 cannot be served: the since is beyond it.
    assert!(!state.since().less_equal(&Frontier::from_elem(3)));
    // Registering again changes nothing.
    let again = state.register_critical_reader(&c);
    assert_eq!(again.since.elements(), vec![5]);
    assert_eq!(state.since().elements(), vec![5]);
    assert!(state.expire_critical_reader(&c));
    assert_eq!(state.since().elements(), vec![5]);
}

#[test]
fn compare_and_downgrade_since_checks_the_token() {
    let mut state = new_state();
    let c = CriticalReaderId([3u8; 16]);
    assert_eq!(
        state.compare_and_downgrade_since(&c, &[0u8; 8], &[1u8; 8], &Frontier::from_elem(7)),
        SinceDowngrade::NotRegistered
    );
    state.register_critical_reader(&c);
    assert_eq!(
        state.compare_and_downgrade_since(&c, &[9u8; 8], &[1u8; 8], &Frontier::from_elem(7)),
        SinceDowngrade::OpaqueMismatch([0u8; 8])
    );
    assert_eq!(state.since().elements(), vec![0]);
    assert_eq!(
        state.compare_and_downgrade_since(&c, &[0u8; 8], &[1u8; 8], &Frontier::from_elem(7)),
        SinceDowngrade::Downgraded(Frontier::from_elem(7))
    );
    assert_eq!(state.critical_reader(&c).map(|r| r.opaque), Some([1u8; 8]));
    assert_eq!(
        state.compare_and_downgrade_since(&c, &[0u8; 8], &[2u8; 8], &Frontier::from_elem(9)),
        SinceDowngrade::OpaqueMismatch([1u8; 8])
    );
    assert_eq!(
        state.compare_and_downgrade_since(&c, &[1u8; 8], &[2u8; 8], &Frontier::from_elem(3)),
        SinceDowngrade::Downgraded(Frontier::from_elem(7))
    );
    assert_eq!(state.since().elements(), vec![7]);
}

#[test]
fn compare_and_append_race() {
    let mut state = new_state();
    let a = WriterId([1u8; 16]);
    let b = WriterId([2u8; 16]);
    state.register_writer(&a, 100, 0);
    state.register_writer(&b, 100, 0);
    assert_eq!(append(&mut state, &a, 0, 3, 1), CompareAndAppendRes::Applied);
    assert_eq!(state.upper().elements(), vec![3]);
    assert_eq!(state.trace_len(), 1);
    assert_eq!(
        append(&mut state, &b, 0, 3, 2),
        CompareAndAppendRes::UpperMismatch(Frontier::from_elem(3))
    );
    assert_eq!(state.upper().elements(), vec![3]);
    assert_eq!(state.trace_len(), 1);
    // The refused writer was not heartbeated by the transition.
    assert_eq!(
        state.writer(&b),
        Some(WriterState { lease_deadline: 100, last_heartbeat: 0 })
    );
    assert_eq!(
        state.writer(&a),
        Some(WriterState { lease_deadline: 101, last_heartbeat: 1 })
    );
}

#[test]
fn noncontiguous_append_is_an_upper_mismatch() {
    let mut state = new_state();
    let w = WriterId([1u8; 16]);
    state.register_writer(&w, 100, 0);
    assert_eq!(append(&mut state, &w, 0, 3, 1), CompareAndAppendRes::Applied);
    assert_eq!(
        append(&mut state, &w, 5, 6, 2),
        CompareAndAppendRes::UpperMismatch(Frontier::from_elem(3))
    );
    assert_eq!(append(&mut state, &w, 3, 6, 3), CompareAndAppendRes::Applied);
    assert_eq!(state.upper().elements(), vec![6]);
    assert_eq!(state.trace_len(), 2);
    assert_eq!(state.batch(0).upper.elements(), vec![3]);
    assert_eq!(state.batch(1).lower.elements(), vec![3]);
    assert_eq!(state.batch(1).upper.elements(), vec![6]);
}

#[test]
fn appends_of_two_writers_tile_the_shard() {
    let mut state = new_state();
    let w1 = WriterId([1u8; 16]);
    let w2 = WriterId([2u8; 16]);
    state.register_writer(&w1, 100, 0);
    state.register_writer(&w2, 100, 0);
    assert_eq!(append(&mut state, &w1, 0, 3, 1), CompareAndAppendRes::Applied);
    assert_eq!(append(&mut state, &w2, 3, 5, 1), CompareAndAppendRes::Applied);
    assert_eq!(append(&mut state, &w1, 5, 6, 1), CompareAndAppendRes::Applied);
    assert_eq!(state.upper().elements(), vec![6]);
    assert_eq!(state.trace_len(), 3);
    for i in 0..2 {
        assert_eq!(state.batch(i).upper, state.batch(i + 1).lower);
    }
    assert_eq!(state.batch(0).lower, Frontier::minimum());
    assert_eq!(&state.batch(2).upper, state.upper());
}

#[test]
fn invalid_appends() {
    let mut state = new_state();
    let w = WriterId([1u8; 16]);
    state.register_writer(&w, 100, 0);
    assert_eq!(append(&mut state, &w, 0, 4, 1), CompareAndAppendRes::Applied);
    assert_eq!(
        state.compare_and_append(
            &w,
            batch(3, 2, 0),
            &Frontier::from_elem(3),
            &Frontier::from_elem(2),
            2
        ),
        CompareAndAppendRes::InvalidUsage(InvalidUsage::InvalidBounds {
            lower: Frontier::from_elem(3),
            upper: Frontier::from_elem(2),
        })
    );
    assert_eq!(
        state.compare_and_append(
            &w,
            batch(3, 4, 1),
            &Frontier::from_elem(4),
            &Frontier::from_elem(5),
            2
        ),
        CompareAndAppendRes::InvalidUsage(InvalidUsage::InvalidBatchBounds {
            batch_lower: Frontier::from_elem(3),
            batch_upper: Frontier::from_elem(4),
            append_lower: Frontier::from_elem(4),
            append_upper: Frontier::from_elem(5),
        })
    );
    assert_eq!(
        state.compare_and_append(
            &w,
            batch(3, 4, 1),
            &Frontier::from_elem(2),
            &Frontier::from_elem(3),
            2
        ),
        CompareAndAppendRes::InvalidUsage(InvalidUsage::InvalidBatchBounds {
            batch_lower: Frontier::from_elem(3),
            batch_upper: Frontier::from_elem(4),
            append_lower: Frontier::from_elem(2),
            append_upper: Frontier::from_elem(3),
        })
    );
    assert!(matches!(
        state.compare_and_append(
            &w,
            batch(3, 4, 1),
            &Frontier::from_elem(3),
            &Frontier::from_elem(3),
            2
        ),
        CompareAndAppendRes::InvalidUsage(InvalidUsage::InvalidEmptyTimeInterval { .. })
    ));
    assert_eq!(state.upper().elements(), vec![4]);
    assert_eq!(state.trace_len(), 1);
}

#[test]
fn empty_append_moves_nothing_into_the_trace() {
    let mut state = new_state();
    let w = WriterId([1u8; 16]);
    state.register_writer(&w, 100, 0);
    assert_eq!(
        state.compare_and_append(
            &w,
            batch(0, 0, 0),
            &Frontier::minimum(),
            &Frontier::minimum(),
            7
        ),
        CompareAndAppendRes::Applied
    );
    assert_eq!(state.trace_len(), 0);
    assert_eq!(state.upper().elements(), vec![0]);
    assert_eq!(
        state.writer(&w),
        Some(WriterState { lease_deadline: 107, last_heartbeat: 7 })
    );
}

#[test]
fn heartbeats_and_expiry() {
    let mut state = new_state();
    let w = WriterId([1u8; 16]);
    let r = LeasedReaderId([2u8; 16]);
    assert!(!state.heartbeat_writer(&w, 5));
    assert!(!state.heartbeat_leased_reader(&r, 5));
    state.register_writer(&w, 100, 0);
    state.register_leased_reader(&r, 10, 0);
    assert!(state.heartbeat_writer(&w, 50));
    assert_eq!(
        state.writer(&w),
        Some(WriterState { lease_deadline: 150, last_heartbeat: 50 })
    );
    assert!(state.heartbeat_leased_reader(&r, 4));
    let reader = state.leased_reader(&r).expect("registered");
    assert_eq!((reader.lease_deadline, reader.last_heartbeat), (14, 4));
    assert!(state.expire_writer(&w));
    assert!(!state.expire_writer(&w));
    assert!(!state.heartbeat_writer(&w, 60));
    assert_eq!(state.writer(&w), None);
}

#[test]
fn merge_replaces_a_run_of_batches() {
    let mut state = new_state();
    let w = WriterId([1u8; 16]);
    state.register_writer(&w, 100, 0);
    for (lower, upper) in [(0, 2), (2, 4), (4, 6), (6, 8)] {
        assert_eq!(append(&mut state, &w, lower, upper, 1), CompareAndAppendRes::Applied);
    }
    let inputs = vec![batch(2, 4, 1), batch(4, 6, 1)];
    let mut output = batch(2, 6, 2);
    output.parts = vec!["merged".to_string()];
    assert!(state.apply_merge_res(&inputs, output));
    assert_eq!(state.trace_len(), 3);
    assert_eq!(state.batch(0), &batch(0, 2, 1));
    assert_eq!(state.batch(1).parts, vec!["merged".to_string()]);
    assert_eq!(state.batch(1).lower.elements(), vec![2]);
    assert_eq!(state.batch(1).upper.elements(), vec![6]);
    assert_eq!(state.batch(2), &batch(6, 8, 1));
    assert_eq!(state.upper().elements(), vec![8]);
    // The same inputs are gone now: a second compactor lost the race.
    assert!(!state.apply_merge_res(&inputs, batch(2, 6, 2)));
    assert_eq!(state.trace_len(), 3);
}

#[test]
fn merge_is_refused_for_wrong_inputs_or_bounds() {
    let mut state = new_state();
    let w = WriterId([1u8; 16]);
    state.register_writer(&w, 100, 0);
    for (lower, upper) in [(0, 2), (2, 4), (4, 6)] {
        assert_eq!(append(&mut state, &w, lower, upper, 1), CompareAndAppendRes::Applied);
    }
    // No inputs.
    assert!(!state.apply_merge_res(&Vec::new(), batch(0, 2, 1)));
    // Inputs that are not next to each other.
    assert!(!state.apply_merge_res(&vec![batch(0, 2, 1), batch(4, 6, 1)], batch(0, 6, 2)));
    // An output that covers something else.
    assert!(!state.apply_merge_res(&vec![batch(0, 2, 1), batch(2, 4, 1)], batch(0, 6, 2)));
    // More inputs than batches.
    assert!(!state.apply_merge_res(
        &vec![batch(0, 2, 1), batch(2, 4, 1), batch(4, 6, 1), batch(6, 8, 1)],
        batch(0, 8, 4)
    ));
    assert_eq!(state.trace_len(), 3);
    // The whole trace.
    assert!(state.apply_merge_res(
        &vec![batch(0, 2, 1), batch(2, 4, 1), batch(4, 6, 1)],
        batch(0, 6, 3)
    ));
    assert_eq!(state.trace_len(), 1);
    assert_eq!(state.batch(0), &batch(0, 6, 3));
}

#[test]
fn next_version_counts_up() {
    let mut state = new_state();
    state.next_version();
    assert_eq!(state.seqno(), 1);
    state.next_version();
    assert_eq!(state.seqno(), 2);
    assert_eq!(state.upper().elements(), vec![0]);
}

#[test]
fn batch_descriptors_compare_by_value() {
    let a = batch(0, 2, 1);
    assert!(a.same(&a.clone()));
    assert!(!a.same(&batch(0, 3, 1)));
    assert!(!a.same(&batch(0, 2, 2)));
    let mut b = batch(0, 2, 1);
    b.parts.push("x".to_string());
    assert!(!a.same(&b));
    assert!(codecs().same(&codecs().clone()));
    let mut other = codecs();
    other.key = "Vec<u8>".to_string();
    assert!(!codecs().same(&other));
}
