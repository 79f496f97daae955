use persist_client::status::SinkStatus;

fn stalled() -> SinkStatus {
    SinkStatus::Stalled("".into())
}

fn failed() -> SinkStatus {
    SinkStatus::Failed("".into())
}

fn run_test(test_case: (Option<SinkStatus>, Vec<SinkStatus>, bool)) {
    let (from_status, to_status, allowed) = test_case;
    for status in to_status {
        assert_eq!(
            allowed,
            SinkStatus::can_transition(from_status.as_ref(), &status),
            "Bad can_transition: {from_status:?} -> {status:?}; expected allowed: {allowed:?}"
        );
    }
}

#[test]
fn test_can_transition() {
    let test_cases = [
        // Allowed transitions
        (
            Some(SinkStatus::Setup),
            vec![
                SinkStatus::Starting,
                SinkStatus::Running,
                stalled(),
                failed(),
                SinkStatus::Dropped,
            ],
            true,
        ),
        (
            Some(SinkStatus::Starting),
            vec![
                SinkStatus::Setup,
                SinkStatus::Running,
                stalled(),
                failed(),
                SinkStatus::Dropped,
            ],
            true,
        ),
        (
            Some(SinkStatus::Running),
            vec![
                SinkStatus::Setup,
                SinkStatus::Starting,
                stalled(),
                failed(),
                SinkStatus::Dropped,
            ],
            true,
        ),
        (
            Some(stalled()),
            vec![
                SinkStatus::Setup,
                SinkStatus::Starting,
                SinkStatus::Running,
                failed(),
                SinkStatus::Dropped,
            ],
            true,
        ),
        (Some(failed()), vec![SinkStatus::Dropped], true),
        (
            None,
            vec![
                SinkStatus::Setup,
                SinkStatus::Starting,
                SinkStatus::Running,
                stalled(),
                failed(),
                SinkStatus::Dropped,
            ],
            true,
        ),
        // Forbidden transitions
        (Some(SinkStatus::Setup), vec![SinkStatus::Setup], false),
        (
            Some(SinkStatus::Starting),
            vec![SinkStatus::Starting],
            false,
        ),
        (Some(SinkStatus::Running), vec![SinkStatus::Running], false),
        (Some(stalled()), vec![stalled()], false),
        (
            Some(failed()),
            vec![
                SinkStatus::Setup,
                SinkStatus::Starting,
                SinkStatus::Running,
                stalled(),
                failed(),
            ],
            false,
        ),
        (
            Some(SinkStatus::Dropped),
            vec![
                SinkStatus::Setup,
                SinkStatus::Starting,
                SinkStatus::Running,
                stalled(),
                failed(),
                SinkStatus::Dropped,
            ],
            false,
        ),
    ];

    for test_case in test_cases {
        run_test(test_case)
    }
}

#[test]
fn status_names() {
    assert_eq!(SinkStatus::Setup.name(), "setup");
    assert_eq!(SinkStatus::Starting.name(), "starting");
    assert_eq!(SinkStatus::Running.name(), "running");
    assert_eq!(SinkStatus::Stalled("x".to_string()).name(), "stalled");
    assert_eq!(SinkStatus::Failed("y".to_string()).name(), "failed");
    assert_eq!(SinkStatus::Dropped.name(), "dropped");
}

#[test]
fn status_errors() {
    assert_eq!(SinkStatus::Setup.error(), None);
    assert_eq!(SinkStatus::Running.error(), None);
    assert_eq!(SinkStatus::Dropped.error(), None);
    assert_eq!(SinkStatus::Stalled("slow".to_string()).error(), Some("slow"));
    assert_eq!(SinkStatus::Failed("gone".to_string()).error(), Some("gone"));
}

#[test]
fn stalled_with_other_message_is_a_change() {
    let old = SinkStatus::Stalled("a".to_string());
    assert!(SinkStatus::can_transition(Some(&old), &SinkStatus::Stalled("b".to_string())));
    assert!(!SinkStatus::can_transition(Some(&old), &SinkStatus::Stalled("a".to_string())));
    assert!(old.same(&SinkStatus::Stalled("a".to_string())));
    assert!(!old.same(&SinkStatus::Failed("a".to_string())));
}
