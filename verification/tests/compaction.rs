use persist_client::cfg::PersistConfig;
use persist_client::client::PersistClient;
use persist_client::compact::compact_updates;
use persist_client::fetch::Update;
use persist_client::frontier::Frontier;
use persist_client::ids::ShardId;
use persist_client::state::Codecs;
use persist_client::state_versions::latest_rollup;
use persist_client::write::Heartbeat;

fn update(key: &str, val: &str, ts: u64, diff: i64) -> Update {
    Update { key: key.as_bytes().to_vec(), val: val.as_bytes().to_vec(), ts, diff }
}

#[test]
fn compaction_folds_the_times_before_the_since() {
    let inputs = vec![
        update("k", "v", 1, 1),
        update("k", "v", 2, 1),
        update("k", "v", 5, 1),
        update("j", "w", 0, 3),
        update("j", "w", 3, -3),
        update("i", "u", 7, 2),
    ];
    // Times before 3 are told apart no longer.
    assert_eq!(
        compact_updates(&inputs, &Frontier::from_elem(3)),
        vec![update("i", "u", 7, 2), update("k", "v", 3, 2), update("k", "v", 5, 1)]
    );
    // With the since at the minimum nothing is folded, but equal updates add up.
    assert_eq!(
        compact_updates(
            &vec![update("k", "v", 1, 1), update("k", "v", 1, 1), update("a", "b", 9, 1)],
            &Frontier::minimum()
        ),
        vec![update("a", "b", 9, 1), update("k", "v", 1, 2)]
    );
    // A since beyond every time folds everything.
    assert_eq!(
        compact_updates(&inputs, &Frontier::from_elem(10)),
        vec![update("i", "u", 10, 2), update("k", "v", 10, 3)]
    );
    // The empty since moves nothing.
    assert_eq!(
        compact_updates(&vec![update("k", "v", 1, 1)], &Frontier::new()),
        vec![update("k", "v", 1, 1)]
    );
}

#[test]
fn the_latest_rollup_at_or_before_the_head() {
    assert_eq!(latest_rollup(&vec![], 5), None);
    assert_eq!(latest_rollup(&vec![6, 128], 5), None);
    assert_eq!(latest_rollup(&vec![0, 128, 256], 200), Some(128));
    assert_eq!(latest_rollup(&vec![256, 0, 128], 256), Some(256));
    assert_eq!(latest_rollup(&vec![3, 1, 2], u64::MAX), Some(3));
}

#[test]
fn building_a_batch_heartbeats_only_after_a_full_part() {
    let client = PersistClient::new(PersistConfig::new(false));
    let codecs = Codecs {
        key: "String".to_string(),
        val: "String".to_string(),
        ts: "u64".to_string(),
        diff: "i64".to_string(),
    };
    let (mut machine, mut write) =
        client.open_writer(ShardId([3u8; 16]), codecs, None, 0).expect("codec mismatch");
    let seqno = machine.seqno();
    assert_eq!(write.heartbeat_after_batch(&mut machine, 0, 50), Heartbeat::NotDue);
    assert_eq!(write.last_heartbeat, 0);
    assert_eq!(machine.seqno(), seqno);
    assert_eq!(write.heartbeat_after_batch(&mut machine, 1, 50), Heartbeat::Extended);
    assert_eq!(write.last_heartbeat, 50);
    assert_eq!(machine.seqno(), seqno + 1);
    let id = write.writer_id;
    assert!(machine.expire_writer(&id));
    assert_eq!(write.heartbeat_after_batch(&mut machine, 2, 60), Heartbeat::Expired);
    assert_eq!(write.last_heartbeat, 50);
}
