use persist_client::frontier::Frontier;
use persist_client::healthcheck::{AppendResult, Healthchecker, StatusRow};
use persist_client::status::SinkStatus;

fn reporter() -> Healthchecker {
    Healthchecker::new("u1".to_string(), Frontier::minimum())
}

/// Reports a status and appends as often as the reporter asks, against a shard
/// whose upper is `shard_upper`. Hands back the rows that were written.
fn report(hc: &mut Healthchecker, shard_upper: &mut u64, status: SinkStatus, now: u64) -> Vec<(StatusRow, u64)> {
    let mut written = Vec::new();
    let mut next = hc.update_status(&status, now);
    while let Some(write) = next {
        let result = if write.expected_upper == Frontier::from_elem(*shard_upper) {
            written.push((write.row.clone(), write.ts));
            *shard_upper = write.ts + 1;
            assert_eq!(write.new_upper, Frontier::from_elem(write.ts + 1));
            AppendResult::Applied
        } else {
            AppendResult::UpperMismatch(Frontier::from_elem(*shard_upper))
        };
        next = hc.append_result(status.clone(), write, result);
    }
    written
}

#[test]
fn healthchecker_starts_without_status() {
    let hc = reporter();
    assert_eq!(hc.current_status(), None);
    assert_eq!(hc.upper(), &Frontier::minimum());
}

#[test]
fn repeated_update_writes_one_row() {
    let mut hc = reporter();
    let mut upper = 0;
    assert_eq!(report(&mut hc, &mut upper, SinkStatus::Running, 1).len(), 1);
    assert_eq!(report(&mut hc, &mut upper, SinkStatus::Running, 2).len(), 0);
    assert_eq!(report(&mut hc, &mut upper, SinkStatus::Running, 3).len(), 0);
    assert_eq!(upper, 2);
    // Another sink on the same shard has its own status, and finds the upper.
    let mut other = Healthchecker::new("u2".to_string(), Frontier::minimum());
    let rows = report(&mut other, &mut upper, SinkStatus::Running, 5);
    assert_eq!(rows.len(), 1);
    assert_eq!(rows[0].0.sink_id, "u2");
    assert_eq!(rows[0].1, 5);
    assert_eq!(upper, 6);
    assert_eq!(other.upper(), &Frontier::from_elem(6));
}

#[test]
fn forbidden_transition_is_passed_over() {
    let mut hc = reporter();
    let mut upper = 0;
    report(&mut hc, &mut upper, SinkStatus::Running, 1);
    let error = String::from("some error here");
    let rows = report(&mut hc, &mut upper, SinkStatus::Failed(error.clone()), 2);
    assert_eq!(hc.current_status(), Some(&SinkStatus::Failed(error.clone())));
    assert_eq!(rows.len(), 1);
    assert_eq!(rows[0].0.error, Some("some error here".to_string()));
    assert_eq!(rows[0].0.status, "failed");

    // No way back to Running.
    let before = upper;
    assert!(hc.update_status(&SinkStatus::Running, 3).is_none());
    assert_eq!(report(&mut hc, &mut upper, SinkStatus::Running, 3).len(), 0);
    assert_eq!(hc.current_status(), Some(&SinkStatus::Failed(error)));
    assert_eq!(upper, before);
}

#[test]
fn status_transitions_of_a_sink() {
    let mut hc = reporter();
    let mut upper = 0;
    assert_eq!(report(&mut hc, &mut upper, SinkStatus::Setup, 1).len(), 1);
    assert_eq!(report(&mut hc, &mut upper, SinkStatus::Running, 2).len(), 1);
    assert_eq!(report(&mut hc, &mut upper, SinkStatus::Failed("e".to_string()), 3).len(), 1);
    assert_eq!(report(&mut hc, &mut upper, SinkStatus::Running, 4).len(), 0);
    assert_eq!(report(&mut hc, &mut upper, SinkStatus::Dropped, 5).len(), 1);
    assert_eq!(hc.current_status(), Some(&SinkStatus::Dropped));
    // Dropped is terminal.
    for status in [
        SinkStatus::Setup,
        SinkStatus::Starting,
        SinkStatus::Running,
        SinkStatus::Stalled("s".to_string()),
        SinkStatus::Failed("f".to_string()),
        SinkStatus::Dropped,
    ] {
        assert_eq!(report(&mut hc, &mut upper, status, 6).len(), 0);
    }
    assert_eq!(upper, 6);
}

#[test]
fn prepare_row_splits_the_time() {
    let hc = reporter();
    let row = hc.prepare_row(&SinkStatus::Stalled("slow".to_string()), 1_234_567);
    assert_eq!(
        row,
        StatusRow {
            seconds: 1234,
            nanos: 567_000_000,
            sink_id: "u1".to_string(),
            status: "stalled".to_string(),
            error: Some("slow".to_string()),
        }
    );
    let row = hc.prepare_row(&SinkStatus::Starting, u64::MAX);
    assert_eq!(row.seconds, (u64::MAX / 1000) as i64);
    assert_eq!(row.nanos, 615_000_000);
    assert_eq!(row.status, "starting");
    assert_eq!(row.error, None);
    assert_eq!(hc.prepare_row(&SinkStatus::Setup, 999).nanos, 999_000_000);
    assert_eq!(hc.prepare_row(&SinkStatus::Setup, 999).seconds, 0);
}

#[test]
fn writes_go_at_or_after_the_upper() {
    let hc = Healthchecker::new("u1".to_string(), Frontier::from_elem(50));
    let write = hc.update_status(&SinkStatus::Running, 7).expect("allowed");
    // The row keeps the time of the report, the append goes to the upper.
    assert_eq!(write.row.seconds, 0);
    assert_eq!(write.row.nanos, 7_000_000);
    assert_eq!(write.ts, 50);
    assert_eq!(write.expected_upper, Frontier::from_elem(50));
    assert_eq!(write.new_upper, Frontier::from_elem(51));
    let write = hc.update_status(&SinkStatus::Running, 70).expect("allowed");
    assert_eq!(write.ts, 70);
    assert_eq!(write.new_upper, Frontier::from_elem(71));
    // A shard without upper takes the time of the report.
    let closed = Healthchecker::new("u1".to_string(), Frontier::new());
    let write = closed.update_status(&SinkStatus::Running, 7).expect("allowed");
    assert_eq!(write.ts, 7);
    assert_eq!(write.expected_upper, Frontier::new());
}

#[test]
fn append_results_drive_the_retries() {
    let mut hc = reporter();
    let write = hc.update_status(&SinkStatus::Running, 3).expect("allowed");
    assert_eq!(write.ts, 3);
    // Nothing is known of the append: the same again.
    let retry = hc
        .append_result(SinkStatus::Running, write, AppendResult::Indeterminate)
        .expect("retry");
    assert_eq!(retry.ts, 3);
    assert_eq!(retry.expected_upper, Frontier::minimum());
    assert_eq!(hc.current_status(), None);
    // Another writer was faster: go after its upper.
    let retry = hc
        .append_result(
            SinkStatus::Running,
            retry,
            AppendResult::UpperMismatch(Frontier::from_elem(10)),
        )
        .expect("retry");
    assert_eq!(retry.ts, 10);
    assert_eq!(retry.row.nanos, 3_000_000);
    assert_eq!(retry.expected_upper, Frontier::from_elem(10));
    assert_eq!(retry.new_upper, Frontier::from_elem(11));
    assert_eq!(hc.upper(), &Frontier::from_elem(10));
    assert_eq!(hc.current_status(), None);
    // A mismatch with an earlier upper does not move the time back.
    let retry = hc
        .append_result(
            SinkStatus::Running,
            retry,
            AppendResult::UpperMismatch(Frontier::from_elem(4)),
        )
        .expect("retry");
    assert_eq!(retry.ts, 10);
    assert_eq!(retry.expected_upper, Frontier::from_elem(4));
    assert_eq!(hc.append_result(SinkStatus::Running, retry, AppendResult::Applied), None);
    assert_eq!(hc.current_status(), Some(&SinkStatus::Running));
    assert_eq!(hc.upper(), &Frontier::from_elem(11));
}
