use runway::api::{extract_texture_id, ApiError};
use runway::remote::{
    default_remote_limits, operation_id_from_path, remote_asset_ref, remote_start, remote_step,
    RemoteAction, RemoteEvent, RemoteStep,
};
use runway::sync::SyncError;

#[test]
fn upload_starts_by_creating() {
    let (s, a) = remote_start();
    assert!(matches!(s, RemoteStep::Creating { attempt: 0 }));
    assert!(matches!(a, RemoteAction::Create { delay_secs: 0 }));
}

#[test]
fn create_success_moves_to_polling_with_backoff() {
    let l = default_remote_limits();
    let (s, a) = remote_step(
        RemoteStep::Creating { attempt: 0 },
        RemoteEvent::CreateOk { operation_id: "op1".to_string() },
        &l,
        false,
    );
    match s {
        RemoteStep::Polling { operation_id, polls, failures } => {
            assert_eq!(operation_id, "op1");
            assert_eq!(polls, 0);
            assert_eq!(failures, 0);
        }
        other => panic!("unexpected state {:?}", other),
    }
    // The first poll waits 2^1 seconds.
    assert!(matches!(a, RemoteAction::Poll { delay_secs: 2 }));
}

#[test]
fn create_fails_after_exactly_the_bound() {
    let l = default_remote_limits();
    let mut s = RemoteStep::Creating { attempt: 0 };
    for round in 0..3 {
        let (s2, a) = remote_step(s, RemoteEvent::CreateErr, &l, false);
        s = s2;
        if round < 2 {
            assert!(matches!(s, RemoteStep::Creating { .. }), "failed too early");
            assert!(matches!(a, RemoteAction::Create { delay_secs: 3 }));
        } else {
            assert!(matches!(s, RemoteStep::Failed));
            assert!(matches!(a, RemoteAction::GiveUp));
        }
    }
}

#[test]
fn pending_polls_never_count_as_failures() {
    let l = default_remote_limits();
    let mut s = RemoteStep::Polling { operation_id: "op".to_string(), polls: 0, failures: 0 };
    for _ in 0..25 {
        let (s2, a) = remote_step(s, RemoteEvent::PollPending, &l, false);
        assert!(matches!(a, RemoteAction::Poll { .. }));
        s = s2;
    }
    match s {
        RemoteStep::Polling { failures, polls, .. } => {
            assert_eq!(failures, 0);
            assert_eq!(polls, 25);
        }
        other => panic!("unexpected state {:?}", other),
    }
}

#[test]
fn poll_backoff_doubles_each_attempt() {
    let l = default_remote_limits();
    let s = RemoteStep::Polling { operation_id: "op".to_string(), polls: 0, failures: 0 };
    let (s1, a1) = remote_step(s, RemoteEvent::PollPending, &l, false);
    assert!(matches!(a1, RemoteAction::Poll { delay_secs: 4 }));
    let (_, a2) = remote_step(s1, RemoteEvent::PollPending, &l, false);
    assert!(matches!(a2, RemoteAction::Poll { delay_secs: 8 }));
}

#[test]
fn poll_errors_fail_after_exactly_the_bound() {
    let l = default_remote_limits();
    let mut s = RemoteStep::Polling { operation_id: "op".to_string(), polls: 0, failures: 0 };
    for round in 0..3 {
        let (s2, _) = remote_step(s, RemoteEvent::PollErr, &l, false);
        s = s2;
        if round < 2 {
            match &s {
                RemoteStep::Polling { failures, .. } => assert_eq!(*failures, round + 1),
                other => panic!("failed too early: {:?}", other),
            }
        } else {
            assert!(matches!(s, RemoteStep::Failed));
        }
    }
}

#[test]
fn resolved_poll_records_directly_without_remap() {
    let l = default_remote_limits();
    let s = RemoteStep::Polling { operation_id: "op".to_string(), polls: 3, failures: 1 };
    let (s2, a) = remote_step(s, RemoteEvent::PollDone { asset_id: "777".to_string() }, &l, false);
    assert!(matches!(s2, RemoteStep::Done { .. }));
    match a {
        RemoteAction::Record { asset_id } => assert_eq!(asset_id, "777"),
        other => panic!("unexpected action {:?}", other),
    }
}

#[test]
fn decals_go_through_the_remap_lookup() {
    let l = default_remote_limits();
    let s = RemoteStep::Polling { operation_id: "op".to_string(), polls: 1, failures: 0 };
    let (s2, a) = remote_step(s, RemoteEvent::PollDone { asset_id: "777".to_string() }, &l, true);
    assert!(matches!(s2, RemoteStep::Remapping { .. }));
    assert!(matches!(a, RemoteAction::Remap));

    let (s3, a3) = remote_step(s2, RemoteEvent::RemapOk { image_id: "888".to_string() }, &l, true);
    assert!(matches!(s3, RemoteStep::Done { .. }));
    match a3 {
        RemoteAction::Record { asset_id } => assert_eq!(asset_id, "888"),
        other => panic!("unexpected action {:?}", other),
    }
}

#[test]
fn remap_errors_fail_after_exactly_the_bound() {
    let l = default_remote_limits();
    let mut s = RemoteStep::Remapping { asset_id: "777".to_string(), attempt: 0 };
    for round in 0..3 {
        let (s2, _) = remote_step(s, RemoteEvent::RemapErr, &l, true);
        s = s2;
        if round < 2 {
            assert!(matches!(s, RemoteStep::Remapping { .. }), "failed too early");
        } else {
            assert!(matches!(s, RemoteStep::Failed));
        }
    }
}

#[test]
fn operation_id_strips_the_operations_prefix() {
    let id = operation_id_from_path(Some("operations/abc-123".to_string())).unwrap();
    assert_eq!(id, "abc-123");
}

#[test]
fn malformed_operation_paths_are_backend_errors() {
    assert!(matches!(
        operation_id_from_path(Some("unexpected".to_string())),
        Err(SyncError::RobloxApi)
    ));
    assert!(matches!(operation_id_from_path(None), Err(SyncError::RobloxApi)));
}

#[test]
fn remote_ref_scheme() {
    assert_eq!(remote_asset_ref("424242"), "rbxassetid://424242");
}

#[test]
fn texture_id_extracted_from_response_body() {
    let body = "{\"location\":\"https://www.roblox.com/asset/?id=5551234\"}";
    assert_eq!(extract_texture_id(body).unwrap(), "5551234");
}

#[test]
fn texture_id_accepts_plain_http() {
    let body = "see http://www.roblox.com/asset/?id=9 end";
    assert_eq!(extract_texture_id(body).unwrap(), "9");
}

#[test]
fn texture_id_takes_the_first_match() {
    let body = "https://www.roblox.com/asset/?id=111 https://www.roblox.com/asset/?id=222";
    assert_eq!(extract_texture_id(body).unwrap(), "111");
}

#[test]
fn texture_id_missing_is_an_error() {
    assert_eq!(extract_texture_id("no urls here"), Err(ApiError::NoMatch));
    assert_eq!(
        extract_texture_id("https://www.roblox.com/asset/?id=x"),
        Err(ApiError::NoMatch)
    );
}
