use runway::asset_ident::AssetIdent;
use runway::config::{Config, TargetConfig, TargetType};
use runway::state::{AssetState, State, TargetMap, TargetState};
use runway::sync::{
    check_remote_credentials, finish_sync, needs_sync, process_entry, sync_plan, Asset,
    LocalSyncStrategy, RemoteCreator, SyncError, SyncOutcome, SyncSession, SyncedRef,
};

fn ident(path: &str) -> AssetIdent {
    AssetIdent::from_paths("", path).unwrap()
}

fn target_state(hash: &str, id: &str, local_path: Option<&str>) -> TargetState {
    TargetState::new(hash.to_string(), id.to_string(), local_path.map(|p| p.to_string()))
}

fn asset(path: &str, contents: &[u8]) -> Asset {
    process_entry(&State::new(), "", path, contents.to_vec()).unwrap()
}

/// The content hash an asset gets for these bytes, read off a discovery
/// record built from them.
fn hash_of(contents: &[u8]) -> String {
    asset("probe.png", contents).hash
}

fn state_with(entries: Vec<(&str, Vec<(&str, TargetState)>)>) -> State {
    let mut st = State::new();
    for (id_path, targets) in entries {
        let mut tm = TargetMap::new();
        for (key, ts) in targets {
            tm.insert(key.to_string(), ts);
        }
        st.insert(ident(id_path), AssetState { targets: tm });
    }
    st
}

fn sample_config() -> Config {
    Config {
        name: "proj".to_string(),
        targets: vec![TargetConfig::new(None, TargetType::Local)],
        inputs: vec![],
        codegens: vec![],
        file_path: "/p/runway.toml".to_string(),
    }
}

#[test]
fn hash_is_not_the_input() {
    let h = hash_of(b"ab");
    assert_ne!(h.as_bytes(), b"ab");
    assert_eq!(h.len(), 64);
}

#[test]
fn hash_changes_with_content() {
    let h1 = hash_of(b"one");
    let h2 = hash_of(b"two");
    let h1b = hash_of(b"one");
    assert_ne!(h1, h2);
    assert_eq!(h1, h1b);
}

#[test]
fn needs_sync_new_asset() {
    assert!(needs_sync(false, "h", None, false, false));
}

#[test]
fn needs_sync_changed_hash() {
    let prev = target_state("old", "rbxassetid://1", None);
    assert!(needs_sync(false, "new", Some(&prev), false, false));
}

#[test]
fn needs_sync_skips_unchanged() {
    let prev = target_state("h", "rbxassetid://1", None);
    assert!(!needs_sync(false, "h", Some(&prev), false, false));
}

#[test]
fn needs_sync_forced_resyncs_everything() {
    let prev = target_state("h", "rbxassetid://1", None);
    assert!(needs_sync(true, "h", Some(&prev), false, false));
}

#[test]
fn needs_sync_recreates_lost_local_artifact() {
    let with_path = target_state("h", "rbxasset://x", Some("/p/.runway/a.png"));
    // Path recorded and still on disk: skip.
    assert!(!needs_sync(false, "h", Some(&with_path), true, true));
    // Path recorded but the file is gone: sync again.
    assert!(needs_sync(false, "h", Some(&with_path), true, false));
    // No path recorded at all: sync again.
    let without_path = target_state("h", "rbxasset://x", None);
    assert!(needs_sync(false, "h", Some(&without_path), true, false));
}

#[test]
fn process_entry_seeds_targets_from_previous_state() {
    let prev = state_with(vec![(
        "a.png",
        vec![("local", target_state("h0", "rbxasset://old", None))],
    )]);
    let a = process_entry(&prev, "/p", "/p/a.png", b"bytes".to_vec()).unwrap();
    assert_eq!(a.ident.as_str(), "a.png");
    assert_eq!(a.path, "/p/a.png");
    assert_eq!(a.hash, hash_of(b"bytes"));
    let seeded = a.targets.get("local").unwrap();
    assert_eq!(seeded.hash, "h0");
    assert_eq!(seeded.id, "rbxasset://old");
}

#[test]
fn process_entry_rejects_unsupported_files() {
    let prev = State::new();
    let r = process_entry(&prev, "/p", "/p/readme.txt", b"hi".to_vec());
    assert!(matches!(r, Err(runway::sync::SyncError::Unsupported { .. })));
}

#[test]
fn plan_resyncs_exactly_the_changed_asset() {
    let a1 = asset("a.png", b"same");
    let a2 = asset("b.png", b"now different");
    let prev = state_with(vec![
        ("a.png", vec![("local", target_state(a1.hash.as_str(), "id1", None))]),
        ("b.png", vec![("local", target_state("stale", "id2", None))]),
    ]);
    let assets = vec![a1, a2];
    let exists = vec![true, true];
    let plan = sync_plan(false, &assets, &prev, "local", false, &exists);
    assert_eq!(plan, vec![1]);
}

#[test]
fn plan_is_empty_when_nothing_changed() {
    let a1 = asset("a.png", b"one");
    let a2 = asset("b.png", b"two");
    let prev = state_with(vec![
        ("a.png", vec![("local", target_state(a1.hash.as_str(), "id1", None))]),
        ("b.png", vec![("local", target_state(a2.hash.as_str(), "id2", None))]),
    ]);
    let assets = vec![a1, a2];
    let exists = vec![true, true];
    let plan = sync_plan(false, &assets, &prev, "local", false, &exists);
    assert!(plan.is_empty());
}

#[test]
fn plan_with_force_takes_everything() {
    let a1 = asset("a.png", b"one");
    let a2 = asset("b.png", b"two");
    let prev = state_with(vec![
        ("a.png", vec![("local", target_state(a1.hash.as_str(), "id1", None))]),
        ("b.png", vec![("local", target_state(a2.hash.as_str(), "id2", None))]),
    ]);
    let assets = vec![a1, a2];
    let exists = vec![true, true];
    let plan = sync_plan(true, &assets, &prev, "local", false, &exists);
    assert_eq!(plan, vec![0, 1]);
}

#[test]
fn second_pass_against_written_state_is_idempotent() {
    // First pass: the asset is new, so it syncs; its record goes into the
    // written state. A second pass over the same bytes plans nothing.
    let config = sample_config();
    let target = TargetConfig::new(None, TargetType::Local);
    let mut session = SyncSession::new(false, config, target, State::new());
    session.insert_asset(asset("a.png", b"bytes"));

    let exists = vec![false];
    let plan = sync_plan(
        false,
        &session.assets,
        &session.prev_state,
        "local",
        true,
        &exists,
    );
    assert_eq!(plan, vec![0]);

    let outcomes = vec![SyncOutcome {
        index: 0,
        outcome: Ok(SyncedRef {
            id: "rbxasset://.runway/proj/a-1.png".to_string(),
            local_path: Some("/p/.runway/a-1.png".to_string()),
        }),
    }];
    let (ok, err) = session.apply_outcomes(&outcomes);
    assert_eq!((ok, err), (1, 0));
    assert_eq!(session.summary_counts(ok, err), 0);

    let written = session.write_state();

    // Second pass: discovery rereads the same bytes and seeds from the
    // written state; nothing needs syncing (the artifact still exists).
    let a2 = process_entry(&written, "/p", "/p/a.png", b"bytes".to_vec()).unwrap();
    let assets2 = vec![a2];
    let exists2 = vec![true];
    let plan2 = sync_plan(false, &assets2, &written, "local", true, &exists2);
    assert!(plan2.is_empty());
}

#[test]
fn failed_outcomes_are_counted_and_collected() {
    let config = sample_config();
    let target = TargetConfig::new(None, TargetType::Local);
    let mut session = SyncSession::new(false, config, target, State::new());
    session.insert_asset(asset("a.png", b"one"));
    session.insert_asset(asset("b.png", b"two"));

    let outcomes = vec![
        SyncOutcome {
            index: 0,
            outcome: Ok(SyncedRef { id: "rbxassetid://1".to_string(), local_path: None }),
        },
        SyncOutcome { index: 1, outcome: Err("upload failed".to_string()) },
    ];
    let (ok, err) = session.apply_outcomes(&outcomes);
    assert_eq!((ok, err), (1, 1));
    assert_eq!(session.errors, vec!["upload failed".to_string()]);

    let written = session.write_state();
    let rec = written.get("a.png").unwrap().targets.get("local").unwrap().clone();
    assert_eq!(rec.id, "rbxassetid://1");
    assert!(written.get("b.png").unwrap().targets.get("local").is_none());
}

#[test]
fn pass_preserves_unrelated_target_keys() {
    // The asset carries records for two targets; a pass over the local
    // target must leave the remote record exactly as it was.
    let prev = state_with(vec![(
        "a.png",
        vec![
            ("local", target_state("stale", "rbxasset://old", None)),
            ("roblox", target_state("hr", "rbxassetid://9", None)),
        ],
    )]);
    let config = sample_config();
    let target = TargetConfig::new(None, TargetType::Local);
    let mut session = SyncSession::new(false, config, target, prev);

    let a = process_entry(&session.prev_state, "/p", "/p/a.png", b"fresh".to_vec()).unwrap();
    session.insert_asset(a);

    let outcomes = vec![SyncOutcome {
        index: 0,
        outcome: Ok(SyncedRef {
            id: "rbxasset://new".to_string(),
            local_path: Some("/p/.runway/a-2.png".to_string()),
        }),
    }];
    session.apply_outcomes(&outcomes);
    let written = session.write_state();

    let local = written.get("a.png").unwrap().targets.get("local").unwrap();
    assert_eq!(local.id, "rbxasset://new");
    let remote = written.get("a.png").unwrap().targets.get("roblox").unwrap();
    assert_eq!(remote.hash, "hr");
    assert_eq!(remote.id, "rbxassetid://9");
}

#[test]
fn session_keeps_assets_in_ident_order() {
    let config = sample_config();
    let target = TargetConfig::new(None, TargetType::Local);
    let mut session = SyncSession::new(false, config, target, State::new());
    session.insert_asset(asset("b.png", b"2"));
    session.insert_asset(asset("a.png", b"1"));
    session.insert_asset(asset("c.png", b"3"));
    let names: Vec<&str> = session.assets.iter().map(|a| a.ident.as_str()).collect();
    assert_eq!(names, vec!["a.png", "b.png", "c.png"]);

    // Rediscovering an ident replaces the earlier asset.
    session.insert_asset(asset("b.png", b"fresh"));
    assert_eq!(session.assets.len(), 3);
    assert_eq!(session.assets[1].contents, b"fresh".to_vec());
}

#[test]
fn remote_sync_needs_an_api_key() {
    let r = check_remote_credentials(false, Some("1".to_string()), None);
    assert!(matches!(r, Err(SyncError::MissingApiKey)));
}

#[test]
fn remote_sync_needs_a_creator() {
    let r = check_remote_credentials(true, None, None);
    assert!(matches!(r, Err(SyncError::MissingCreator)));
}

#[test]
fn remote_sync_prefers_the_user_creator() {
    let r = check_remote_credentials(true, Some("u1".to_string()), Some("g1".to_string()));
    match r {
        Ok(RemoteCreator::User { user_id }) => assert_eq!(user_id, "u1"),
        other => panic!("unexpected result {:?}", other),
    }
    let r2 = check_remote_credentials(true, None, Some("g1".to_string()));
    assert!(matches!(r2, Ok(RemoteCreator::Group { .. })));
}

#[test]
fn pass_succeeds_only_without_errors() {
    assert!(finish_sync(0).is_ok());
    assert!(matches!(
        finish_sync(2),
        Err(SyncError::HadErrors { error_count: 2 })
    ));
}

#[test]
fn local_sync_paths_embed_project_and_token() {
    let strategy = LocalSyncStrategy::new("/p/.runway".to_string());
    let id = ident("images/logo.png");
    let (content_path, file_path, asset_id) = strategy.local_sync_item("proj", &id, "1700");
    assert_eq!(content_path, ".runway/proj/images/logo-1700.png");
    assert_eq!(file_path, "/p/.runway/images/logo-1700.png");
    assert_eq!(asset_id, "rbxasset://.runway/proj/images/logo-1700.png");
}
