//! The lifecycle status that a sink reports about itself.

use vstd::prelude::*;

verus! {

/// The state that the worker of a sink can be in at a point in time.
#[derive(Clone, Debug, PartialEq, Eq)]
pub enum SinkStatus {
    /// Initial state of a sink during initialization.
    Setup,
    /// The process that hosts the sink is initializing itself.
    Starting,
    /// The sink is running fine.
    Running,
    /// The export stalled in a way that might get resolved.
    Stalled(String),
    /// An irrecoverable failure. The only way out of `Failed` is `Dropped`.
    Failed(String),
    /// The sink was dropped. Nothing follows.
    Dropped,
}

/// The mathematical value of a [`SinkStatus`]: the variant, with the message as characters.
pub enum StatusView {
    Setup,
    Starting,
    Running,
    Stalled(Seq<char>),
    Failed(Seq<char>),
    Dropped,
}

impl View for SinkStatus {
    type V = StatusView;

    open spec fn view(&self) -> StatusView {
        match self {
            SinkStatus::Setup => StatusView::Setup,
            SinkStatus::Starting => StatusView::Starting,
            SinkStatus::Running => StatusView::Running,
            SinkStatus::Stalled(e) => StatusView::Stalled(e@),
            SinkStatus::Failed(e) => StatusView::Failed(e@),
            SinkStatus::Dropped => StatusView::Dropped,
        }
    }
}

/// The name under which each status is recorded.
pub open spec fn status_name(s: StatusView) -> Seq<char> {
    match s {
        StatusView::Setup => "setup"@,
        StatusView::Starting => "starting"@,
        StatusView::Running => "running"@,
        StatusView::Stalled(_) => "stalled"@,
        StatusView::Failed(_) => "failed"@,
        StatusView::Dropped => "dropped"@,
    }
}

/// The message that a status carries: only `Stalled` and `Failed` have one.
pub open spec fn status_error(s: StatusView) -> Option<Seq<char>> {
    match s {
        StatusView::Stalled(e) => Some(e),
        StatusView::Failed(e) => Some(e),
        _ => None,
    }
}

/// Whether a sink recorded as `old_status` may next be recorded as `new_status`.
///
/// With nothing recorded yet every status is allowed. `Failed` only gives way to
/// `Dropped`, `Dropped` to nothing, and every other status to any status but itself.
pub open spec fn transition_allowed(old_status: Option<StatusView>, new_status: StatusView) -> bool {
    match old_status {
        None => true,
        Some(StatusView::Failed(_)) => new_status is Dropped,
        Some(StatusView::Dropped) => false,
        Some(old_status) => old_status != new_status,
    }
}

impl SinkStatus {
    /// The name under which this status is recorded.
    pub fn name(&self) -> (name: &'static str)
        ensures
            name@ == status_name(self@),
    {
        match self {
            SinkStatus::Setup => "setup",
            SinkStatus::Starting => "starting",
            SinkStatus::Running => "running",
            SinkStatus::Stalled(_) => "stalled",
            SinkStatus::Failed(_) => "failed",
            SinkStatus::Dropped => "dropped",
        }
    }

    /// The message of a stalled or failed sink, and nothing for the other statuses.
    pub fn error(&self) -> (error: Option<&str>)
        ensures
            match error {
                Some(e) => status_error(self@) == Some(e@),
                None => status_error(self@) is None,
            },
    {
        match self {
            SinkStatus::Stalled(e) => Some(e.as_str()),
            SinkStatus::Failed(e) => Some(e.as_str()),
            SinkStatus::Setup => None,
            SinkStatus::Starting => None,
            SinkStatus::Running => None,
            SinkStatus::Dropped => None,
        }
    }

    /// Whether both statuses are the same variant with the same message.
    pub fn same(&self, other: &SinkStatus) -> (same: bool)
        ensures
            same == (self@ == other@),
    {
        match (self, other) {
            (SinkStatus::Setup, SinkStatus::Setup) => true,
            (SinkStatus::Starting, SinkStatus::Starting) => true,
            (SinkStatus::Running, SinkStatus::Running) => true,
            (SinkStatus::Stalled(a), SinkStatus::Stalled(b)) => *a == *b,
            (SinkStatus::Failed(a), SinkStatus::Failed(b)) => *a == *b,
            (SinkStatus::Dropped, SinkStatus::Dropped) => true,
            _ => false,
        }
    }

    /// Decides whether a sink recorded as `old_status` may be recorded as `new_status`.
    pub fn can_transition(old_status: Option<&SinkStatus>, new_status: &SinkStatus) -> (allowed: bool)
        ensures
            allowed == transition_allowed(
                match old_status {
                    Some(s) => Some(s@),
                    None => None,
                },
                new_status@,
            ),
    {
        match old_status {
            None => true,
            Some(SinkStatus::Failed(_)) => matches!(new_status, SinkStatus::Dropped),
            Some(SinkStatus::Dropped) => false,
            Some(old) => !old.same(new_status),
        }
    }
}


/// Reporting the status that is recorded already is never a transition: a sink
/// that repeats itself writes nothing.
pub proof fn lemma_repeated_status_is_no_transition(status: StatusView)
    ensures
        !transition_allowed(Some(status), status),
{
}

/// Nothing follows `Dropped`, and only `Dropped` follows `Failed`.
pub proof fn lemma_terminal_statuses(old_status: StatusView, new_status: StatusView)
    ensures
        old_status is Dropped ==> !transition_allowed(Some(old_status), new_status),
        old_status is Failed ==> (transition_allowed(Some(old_status), new_status)
            <==> new_status is Dropped),
        !(old_status is Dropped) && !(old_status is Failed) ==> (transition_allowed(
            Some(old_status),
            new_status,
        ) <==> old_status != new_status),
{
}

} // verus!
