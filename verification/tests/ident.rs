use runway::asset_ident::{asset_type_of_ext, is_decal, replace_slashes, AssetIdent, AssetType, IdentError};

#[test]
fn replace_slashes_normalizes_backslashes() {
    assert_eq!(replace_slashes("a\\b\\c.png"), "a/b/c.png");
    assert_eq!(replace_slashes("a/b/c.png"), "a/b/c.png");
    assert_eq!(replace_slashes(""), "");
}

#[test]
fn from_paths_builds_relative_slash_ident() {
    let id = AssetIdent::from_paths("/proj", "/proj/images/logo.png").unwrap();
    assert_eq!(id.as_str(), "images/logo.png");
}

#[test]
fn from_paths_rejects_unsupported_extension() {
    let err = AssetIdent::from_paths("/proj", "/proj/readme.txt").unwrap_err();
    assert_eq!(err, IdentError::UnsupportedExtension);
}

#[test]
fn from_paths_rejects_missing_extension() {
    assert!(AssetIdent::from_paths("/proj", "/proj/assets/logo").is_err());
}

#[test]
fn extension_and_last_component() {
    let id = AssetIdent::from_paths("/p", "/p/a/b/c.ogg").unwrap();
    assert_eq!(id.last_component(), "c.ogg");
    assert_eq!(id.extension(), Some("ogg".to_string()));
}

#[test]
fn asset_type_maps_extensions_case_insensitively() {
    assert_eq!(asset_type_of_ext("png"), Some(AssetType::DecalPng));
    assert_eq!(asset_type_of_ext("PNG"), Some(AssetType::DecalPng));
    assert_eq!(asset_type_of_ext("jpeg"), Some(AssetType::DecalJpeg));
    assert_eq!(asset_type_of_ext("jpg"), Some(AssetType::DecalJpeg));
    assert_eq!(asset_type_of_ext("mp3"), Some(AssetType::AudioMp3));
    assert_eq!(asset_type_of_ext("ogg"), Some(AssetType::AudioOgg));
    assert_eq!(asset_type_of_ext("flac"), Some(AssetType::AudioFlac));
    assert_eq!(asset_type_of_ext("wav"), Some(AssetType::AudioWav));
    assert_eq!(asset_type_of_ext("bmp"), Some(AssetType::DecalBmp));
    assert_eq!(asset_type_of_ext("tga"), Some(AssetType::DecalTga));
    assert_eq!(asset_type_of_ext("fbx"), Some(AssetType::ModelFbx));
    assert_eq!(asset_type_of_ext("txt"), None);
    assert_eq!(asset_type_of_ext(""), None);
}

#[test]
fn asset_type_of_ident() {
    let id = AssetIdent::from_paths("/p", "/p/sound.mp3").unwrap();
    assert_eq!(id.asset_type(), AssetType::AudioMp3);
}

#[test]
fn decal_types_need_remapping() {
    assert!(is_decal(AssetType::DecalPng));
    assert!(is_decal(AssetType::DecalJpeg));
    assert!(is_decal(AssetType::DecalBmp));
    assert!(is_decal(AssetType::DecalTga));
    assert!(!is_decal(AssetType::AudioMp3));
    assert!(!is_decal(AssetType::ModelFbx));
}

#[test]
fn cache_bust_splices_token_before_extension() {
    let id = AssetIdent::from_paths("/p", "/p/images/logo.png").unwrap();
    assert_eq!(id.with_cache_bust("1700000000"), "images/logo-1700000000.png");
}

#[test]
fn cache_bust_without_directory() {
    let id = AssetIdent::from_paths("/p", "/p/logo.png").unwrap();
    assert_eq!(id.with_cache_bust("7"), "logo-7.png");
}
