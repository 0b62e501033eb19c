use runway::asset_ident::AssetIdent;
use runway::codegen::{
    codegen_summary, generate, generate_all, generate_tree, transform_ident, tree_insert,
    CodegenError, CodegenFormat, Object, Value,
};
use runway::config::{CodegenConfig, Config, TargetConfig, TargetType};
use runway::state::{AssetState, State, TargetMap, TargetState};

use runway::codegen::split_slash;

fn ident(path: &str) -> AssetIdent {
    AssetIdent::from_paths("", path).unwrap()
}

fn state_with(entries: Vec<(&str, Vec<(&str, &str)>)>) -> State {
    let mut st = State::new();
    for (id_path, targets) in entries {
        let mut tm = TargetMap::new();
        for (key, asset_id) in targets {
            tm.insert(
                key.to_string(),
                TargetState::new("h".to_string(), asset_id.to_string(), None),
            );
        }
        st.insert(ident(id_path), AssetState { targets: tm });
    }
    st
}

fn codegen_config(format: CodegenFormat, strip_extension: bool, flatten: bool) -> CodegenConfig {
    CodegenConfig {
        path: "/proj/out.txt".to_string(),
        format,
        strip_prefix: None,
        strip_extension,
        flatten,
    }
}

fn local_target() -> TargetConfig {
    TargetConfig::new(None, TargetType::Local)
}

#[test]
fn transform_strips_extension_by_default() {
    let cfg = codegen_config(CodegenFormat::Json, true, false);
    assert_eq!(transform_ident(&ident("images/logo.png"), &cfg), "images/logo");
}

#[test]
fn transform_keeps_extension_when_asked() {
    let cfg = codegen_config(CodegenFormat::Json, false, false);
    assert_eq!(transform_ident(&ident("images/logo.png"), &cfg), "images/logo.png");
}

#[test]
fn transform_strips_configured_prefix() {
    let mut cfg = codegen_config(CodegenFormat::Json, true, false);
    cfg.strip_prefix = Some("images".to_string());
    assert_eq!(transform_ident(&ident("images/logo.png"), &cfg), "logo");
    // A non-matching prefix leaves the key unchanged.
    cfg.strip_prefix = Some("sounds".to_string());
    assert_eq!(transform_ident(&ident("images/logo.png"), &cfg), "images/logo");
}

#[test]
fn split_slash_keeps_every_piece() {
    assert_eq!(split_slash("a/b/c"), vec!["a", "b", "c"]);
    assert_eq!(split_slash("solo"), vec!["solo"]);
    assert_eq!(split_slash(""), vec![""]);
}

#[test]
fn tree_conflict_between_leaf_and_node_is_an_error() {
    // Idents a/b and a/b/c: after placing the leaf at a/b, placing a/b/c
    // must fail with a structural error, never overwrite.
    let st = state_with(vec![
        ("a/b.png", vec![("local", "rbxasset://one")]),
        ("a/b/c.png", vec![("local", "rbxasset://two")]),
    ]);
    let cfg = codegen_config(CodegenFormat::Json, true, false);
    let r = generate_tree(&st, &cfg, &local_target());
    assert!(matches!(r, Err(CodegenError::TreeStructure)));
}

#[test]
fn tree_insert_walk_through_leaf_fails() {
    let mut o = Object { entries: Vec::new() };
    o = tree_insert(o, &vec!["a".to_string(), "b".to_string()], 0, "id1".to_string()).unwrap();
    let r = tree_insert(
        o,
        &vec!["a".to_string(), "b".to_string(), "c".to_string()],
        0,
        "id2".to_string(),
    );
    assert!(matches!(r, Err(CodegenError::TreeStructure)));
}

#[test]
fn missing_target_record_fails_codegen() {
    let st = state_with(vec![("a.png", vec![("roblox", "rbxassetid://1")])]);
    let cfg = codegen_config(CodegenFormat::Json, true, false);
    let r = generate_tree(&st, &cfg, &local_target());
    match r {
        Err(CodegenError::MissingAsset { ident }) => assert_eq!(ident.as_str(), "a.png"),
        other => panic!("unexpected result {:?}", other),
    }
}

#[test]
fn json_output_nests_by_path() {
    let st = state_with(vec![("a/b.png", vec![("local", "rbxasset://x")])]);
    let cfg = codegen_config(CodegenFormat::Json, true, false);
    let s = generate(&st, &cfg, &local_target()).unwrap();
    assert_eq!(s, "{\n\t\"a\": {\n\t\t\"b\": \"rbxasset://x\"\n\t}\n}");
}

#[test]
fn json_output_separates_entries_with_commas() {
    let st = state_with(vec![
        ("a.png", vec![("local", "rbxasset://1")]),
        ("b.png", vec![("local", "rbxasset://2")]),
    ]);
    let cfg = codegen_config(CodegenFormat::Json, true, false);
    let s = generate(&st, &cfg, &local_target()).unwrap();
    assert_eq!(s, "{\n\t\"a\": \"rbxasset://1\",\n\t\"b\": \"rbxasset://2\"\n}");
}

#[test]
fn flatten_uses_whole_keys() {
    let st = state_with(vec![("a/b.png", vec![("local", "rbxasset://x")])]);
    let cfg = codegen_config(CodegenFormat::Json, true, true);
    let s = generate(&st, &cfg, &local_target()).unwrap();
    assert_eq!(s, "{\n\t\"a/b\": \"rbxasset://x\"\n}");
}

#[test]
fn typescript_output_exports_a_constant() {
    let st = state_with(vec![("a/b.png", vec![("local", "rbxasset://x")])]);
    let cfg = codegen_config(CodegenFormat::Typescript, true, false);
    let s = generate(&st, &cfg, &local_target()).unwrap();
    let expected = "// Runway asset index. Not intended for manual editing.\n\
                    export default {\n\ta: {\n\t\tb: \"rbxasset://x\",\n\t},\n} as const;\n";
    assert_eq!(s, expected);
}

#[test]
fn typescript_quotes_non_identifier_keys() {
    let st = state_with(vec![("a-b.png", vec![("local", "rbxasset://x")])]);
    let cfg = codegen_config(CodegenFormat::Typescript, true, false);
    let s = generate(&st, &cfg, &local_target()).unwrap();
    assert!(s.contains("\"a-b\": \"rbxasset://x\","));
}

#[test]
fn typescript_declaration_types_leaves_as_string() {
    let st = state_with(vec![("a.png", vec![("local", "rbxasset://x")])]);
    let cfg = codegen_config(CodegenFormat::TypescriptDeclaration, true, false);
    let s = generate(&st, &cfg, &local_target()).unwrap();
    let expected = "// Runway asset index. Not intended for manual editing.\n\
                    declare const assets: {\n\ta: string;\n};\n\nexport = assets;\n";
    assert_eq!(s, expected);
}

#[test]
fn luau_output_returns_a_table() {
    let st = state_with(vec![("a/b.png", vec![("local", "rbxasset://x")])]);
    let cfg = codegen_config(CodegenFormat::Luau, true, false);
    let s = generate(&st, &cfg, &local_target()).unwrap();
    assert_eq!(
        s,
        "return {\n\t[\"a\"] = {\n\t\t[\"b\"] = \"rbxasset://x\",\n\t},\n}\n"
    );
}

#[test]
fn generate_all_collects_successes_and_counts_failures() {
    // One asset has no record under the target, so codegen outputs that
    // need it all fail; an empty state generates empty outputs instead.
    let st = state_with(vec![("a.png", vec![("roblox", "rbxassetid://1")])]);
    let config = Config {
        name: "proj".to_string(),
        targets: vec![local_target()],
        inputs: vec![],
        codegens: vec![
            codegen_config(CodegenFormat::Json, true, false),
            codegen_config(CodegenFormat::Luau, true, false),
        ],
        file_path: "/proj/runway.toml".to_string(),
    };
    let (outputs, failed) = generate_all(&config, &st, &local_target());
    assert_eq!(outputs.len(), 0);
    assert_eq!(failed, 2);
    assert!(matches!(
        codegen_summary(failed, 2),
        Err(CodegenError::SomeFailed { failed: 2, total: 2 })
    ));

    let st2 = state_with(vec![("a.png", vec![("local", "rbxasset://1")])]);
    let (outputs2, failed2) = generate_all(&config, &st2, &local_target());
    assert_eq!(outputs2.len(), 2);
    assert_eq!(failed2, 0);
    assert_eq!(outputs2[0].index, 0);
    assert_eq!(outputs2[0].path, "/proj/out.txt");
    assert_eq!(outputs2[0].contents, "{\n\t\"a\": \"rbxasset://1\"\n}");
    assert!(codegen_summary(failed2, 2).is_ok());
}

#[test]
fn value_tree_can_hold_ids_and_objects() {
    let v = Value::Id("rbxassetid://5".to_string());
    match v {
        Value::Id(s) => assert_eq!(s, "rbxassetid://5"),
        Value::Object(_) => panic!("expected an id"),
    }
}
