use runway::watch::{
    debounce_new, debounce_step, get_non_pattern_prefix, sched_new, sched_step, DebounceEvent,
    DebounceOutput, SchedAction, SchedEvent, SchedState,
};

#[test]
fn burst_of_changes_emits_one_sync_request() {
    let mut d = debounce_new();
    let mut syncs = 0;
    for _ in 0..10 {
        let (d2, out) = debounce_step(d, DebounceEvent::Change);
        d = d2;
        if out == DebounceOutput::EmitSync {
            syncs += 1;
        }
    }
    let (d2, out) = debounce_step(d, DebounceEvent::Quiet);
    d = d2;
    if out == DebounceOutput::EmitSync {
        syncs += 1;
    }
    assert_eq!(syncs, 1);
    assert!(!d.changed);
}

#[test]
fn quiet_without_changes_emits_nothing() {
    let d = debounce_new();
    let (_, out) = debounce_step(d, DebounceEvent::Quiet);
    assert_eq!(out, DebounceOutput::Nothing);
}

#[test]
fn listener_errors_bypass_debouncing() {
    let d = debounce_new();
    let (d2, out) = debounce_step(d, DebounceEvent::ListenError);
    assert_eq!(out, DebounceOutput::EmitError);
    assert!(!d2.changed);
}

#[test]
fn request_while_idle_starts_immediately() {
    let s = sched_new();
    let (s2, a) = sched_step(s, SchedEvent::SyncRequested);
    assert_eq!(s2, SchedState::Running { again: false });
    assert_eq!(a, SchedAction::StartSync);
}

#[test]
fn request_while_running_runs_exactly_once_more() {
    // A sync is running; one more change arrives.
    let s = SchedState::Running { again: false };
    let (s, a) = sched_step(s, SchedEvent::SyncRequested);
    assert_eq!(a, SchedAction::Wait);

    // Several further requests coalesce into the same single rerun.
    let (s, a2) = sched_step(s, SchedEvent::SyncRequested);
    assert_eq!(a2, SchedAction::Wait);

    // The running sync finishes: exactly one new pass starts.
    let (s, a3) = sched_step(s, SchedEvent::SyncFinished);
    assert_eq!(a3, SchedAction::StartSync);
    assert_eq!(s, SchedState::Running { again: false });

    // The rerun finishes: nothing else starts.
    let (s, a4) = sched_step(s, SchedEvent::SyncFinished);
    assert_eq!(a4, SchedAction::Wait);
    assert_eq!(s, SchedState::Idle);
}

#[test]
fn non_pattern_prefix_stops_at_glob_characters() {
    assert_eq!(get_non_pattern_prefix("assets/images/*.png"), "assets/images");
    assert_eq!(get_non_pattern_prefix("assets/**/*.png"), "assets");
    assert_eq!(get_non_pattern_prefix("plain/path.png"), "plain/path.png");
    assert_eq!(get_non_pattern_prefix("*.png"), "");
    assert_eq!(get_non_pattern_prefix("a/b[0-9].png"), "a");
}
