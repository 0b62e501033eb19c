use runway::codegen::CodegenFormat;
use runway::config::{
    config_file_in_folder, default_strip_extension, make_absolute, parent_dir, Config, ConfigError,
    InputConfig, TargetConfig, TargetType,
};

fn sample_config(targets: Vec<TargetConfig>) -> Config {
    Config {
        name: "proj".to_string(),
        targets,
        inputs: vec![InputConfig { glob: "assets/**/*.png".to_string() }],
        codegens: vec![],
        file_path: "/proj/runway.toml".to_string(),
    }
}

#[test]
fn target_type_keys() {
    assert_eq!(TargetType::Local.to_key(), "local");
    assert_eq!(TargetType::Roblox.to_key(), "roblox");
}

#[test]
fn target_config_defaults_key_to_type() {
    let t = TargetConfig::new(None, TargetType::Roblox);
    assert_eq!(t.key, "roblox");
    let t2 = TargetConfig::new(Some("staging".to_string()), TargetType::Roblox);
    assert_eq!(t2.key, "staging");
}

#[test]
fn validate_rejects_duplicate_target_keys() {
    let cfg = sample_config(vec![
        TargetConfig::new(Some("a".to_string()), TargetType::Local),
        TargetConfig::new(Some("a".to_string()), TargetType::Roblox),
    ]);
    assert!(matches!(cfg.validate(), Err(ConfigError::DuplicateKeys)));
}

#[test]
fn validate_accepts_unique_target_keys() {
    let cfg = sample_config(vec![
        TargetConfig::new(Some("a".to_string()), TargetType::Local),
        TargetConfig::new(Some("b".to_string()), TargetType::Roblox),
    ]);
    assert!(cfg.validate().is_ok());
}

#[test]
fn find_target_by_key() {
    let cfg = sample_config(vec![
        TargetConfig::new(Some("a".to_string()), TargetType::Local),
        TargetConfig::new(Some("b".to_string()), TargetType::Roblox),
    ]);
    let t = cfg.find_target("b").unwrap();
    assert_eq!(t.key, "b");
    assert_eq!(t.target_type, TargetType::Roblox);
    assert!(matches!(cfg.find_target("c"), Err(ConfigError::UnknownTarget)));
}

#[test]
fn root_path_is_config_folder() {
    let cfg = sample_config(vec![]);
    assert_eq!(cfg.root_path(), "/proj");
}

#[test]
fn parent_dir_cases() {
    assert_eq!(parent_dir("/a/b/runway.toml"), "/a/b");
    assert_eq!(parent_dir("runway.toml"), "");
    assert_eq!(parent_dir("/x"), "/");
}

#[test]
fn make_absolute_joins_relative_paths() {
    let mut p = "out/assets.json".to_string();
    make_absolute(&mut p, "/proj");
    assert_eq!(p, "/proj/out/assets.json");

    let mut q = "/already/abs.json".to_string();
    make_absolute(&mut q, "/proj");
    assert_eq!(q, "/already/abs.json");

    let mut r = "x.json".to_string();
    make_absolute(&mut r, "/proj/");
    assert_eq!(r, "/proj/x.json");
}

#[test]
fn config_file_join() {
    assert_eq!(config_file_in_folder("/proj"), "/proj/runway.toml");
}

#[test]
fn strip_extension_defaults_on() {
    assert!(default_strip_extension());
}

#[test]
fn codegen_format_values_exist() {
    let formats = [
        CodegenFormat::Json,
        CodegenFormat::Luau,
        CodegenFormat::Typescript,
        CodegenFormat::TypescriptDeclaration,
    ];
    assert_eq!(formats.len(), 4);
}
