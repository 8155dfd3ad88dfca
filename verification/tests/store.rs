use petbuddy::pet::model::RawPetJson;
use petbuddy::pet::store::{edit_pet_json, edited_display_name, normalize_pet_id_json, pet_menu_entry};

fn id_of(json: &str) -> String {
    let v: serde_json::Value = serde_json::from_str(json).unwrap();
    v["id"].as_str().unwrap().to_string()
}

/// The fields of a `pet.json` that name and describe the pet, read as the
/// application reads them (missing fields default to empty / absent).
fn raw_pet(json: &str) -> RawPetJson {
    let v: serde_json::Value = serde_json::from_str(json).unwrap();
    RawPetJson {
        id: v.get("id").and_then(|x| x.as_str()).unwrap_or("").to_string(),
        display_name: v.get("displayName").and_then(|x| x.as_str()).map(|s| s.to_string()),
        description: v.get("description").and_then(|x| x.as_str()).map(|s| s.to_string()),
        idle: None,
        talk: None,
        actions: None,
        frame: None,
    }
}

#[test]
fn normalize_replaces_upstream_id_with_slug() {
    let out = normalize_pet_id_json(
        r#"{"id":"upstream-name","displayName":"X","description":"d"}"#,
        "the--slug",
    )
    .unwrap();

    assert_eq!(id_of(&out), "the--slug");
    let v: serde_json::Value = serde_json::from_str(&out).unwrap();
    assert_eq!(v["displayName"], "X");
    assert_eq!(v["description"], "d");
}

#[test]
fn normalize_fills_empty_id() {
    let out = normalize_pet_id_json(r#"{"id":"","displayName":"Y"}"#, "s1").unwrap();
    assert_eq!(id_of(&out), "s1");
}

#[test]
fn normalize_adds_missing_id() {
    let out = normalize_pet_id_json(r#"{"displayName":"Z"}"#, "s2").unwrap();
    assert_eq!(id_of(&out), "s2");

    let v: serde_json::Value = serde_json::from_str(&out).unwrap();
    assert_eq!(v["displayName"], "Z");
}

#[test]
fn normalize_preserves_unknown_and_nested_fields() {
    let out = normalize_pet_id_json(r#"{"id":"a","custom":{"nested":[1,2]}}"#, "s3").unwrap();

    assert_eq!(id_of(&out), "s3");
    let v: serde_json::Value = serde_json::from_str(&out).unwrap();
    assert_eq!(v["custom"]["nested"][1], 2);
}

#[test]
fn normalize_rejects_invalid_json() {
    assert!(normalize_pet_id_json("not json", "s").is_err());
    assert!(normalize_pet_id_json("", "s").is_err());
}

#[test]
fn normalize_rejects_non_object_root() {
    assert!(normalize_pet_id_json("[1,2,3]", "s").is_err());
    assert!(normalize_pet_id_json("\"str\"", "s").is_err());
    assert!(normalize_pet_id_json("42", "s").is_err());
}

#[test]
fn normalized_json_is_parseable_as_raw_pet_json() {
    let out = normalize_pet_id_json(r#"{"id":"upstream","displayName":"N"}"#, "the-slug").unwrap();

    let raw = raw_pet(&out);
    assert_eq!(raw.id, "the-slug");
    assert_eq!(raw.display_name.as_deref(), Some("N"));
}

#[test]
fn normalized_id_matches_local_dir_name_contract() {
    let slug = "firefly--lingxiaotian";
    let out = normalize_pet_id_json(r#"{"id":"totally-different"}"#, slug).unwrap();

    let raw = raw_pet(&out);
    let pets_root = std::path::Path::new("/tmp/pets");
    assert_eq!(pets_root.join(&raw.id), pets_root.join(slug));
}

#[test]
fn normalize_error_messages() {
    assert!(normalize_pet_id_json("{", "s").unwrap_err().starts_with("pet.json 解析失败: "));
    assert_eq!(normalize_pet_id_json("[]", "s").unwrap_err(), "pet.json 根节点不是 JSON 对象");
}

#[test]
fn edited_name_falls_back_when_blank() {
    assert_eq!(edited_display_name("  Neko ", Some("Old".to_string())), "Neko");
    assert_eq!(edited_display_name("   ", Some("Old".to_string())), "Old");
    assert_eq!(edited_display_name("", None), "外部宠物");
}

#[test]
fn edit_sets_name_and_description_only() {
    let out = edit_pet_json(
        r#"{"id":"cat","displayName":"Old","description":"x","idle":{"row":1,"count":2,"fps":3}}"#,
        Some(" New ".to_string()),
        Some("  hello  ".to_string()),
    )
    .unwrap();
    let v: serde_json::Value = serde_json::from_str(&out).unwrap();
    assert_eq!(v["displayName"], "New");
    assert_eq!(v["description"], "hello");
    assert_eq!(v["id"], "cat");
    assert_eq!(v["idle"]["fps"], 3);
}

#[test]
fn edit_with_blank_name_keeps_stored_name() {
    let out = edit_pet_json(r#"{"displayName":"Old"}"#, Some("  ".to_string()), None).unwrap();
    let v: serde_json::Value = serde_json::from_str(&out).unwrap();
    assert_eq!(v["displayName"], "Old");
    assert!(v.get("description").is_none());

    let out = edit_pet_json(r#"{"displayName":7}"#, Some("".to_string()), None).unwrap();
    let v: serde_json::Value = serde_json::from_str(&out).unwrap();
    assert_eq!(v["displayName"], "外部宠物");
}

#[test]
fn edit_of_null_document_makes_an_object() {
    let out = edit_pet_json("null", None, Some("d".to_string())).unwrap();
    let v: serde_json::Value = serde_json::from_str(&out).unwrap();
    assert_eq!(v["description"], "d");
}

#[test]
fn edit_errors() {
    assert!(edit_pet_json("{", None, None).unwrap_err().starts_with("解析宠物配置失败: "));
    assert_eq!(
        edit_pet_json("[1]", Some("a".to_string()), None).unwrap_err(),
        "宠物配置根节点不是 JSON 对象"
    );
    // Nothing to edit: any document is written back as it is.
    let out = edit_pet_json("[1]", None, None).unwrap();
    let v: serde_json::Value = serde_json::from_str(&out).unwrap();
    assert_eq!(v[0], 1);
}

#[test]
fn menu_entry_uses_trimmed_id_and_name() {
    let raw = raw_pet(r#"{"id":"  cat ","displayName":"Kitty"}"#);
    assert_eq!(pet_menu_entry(&raw), Some(("cat".to_string(), "Kitty".to_string())));
    let raw = raw_pet(r#"{"id":"dog"}"#);
    assert_eq!(pet_menu_entry(&raw), Some(("dog".to_string(), "dog".to_string())));
    let raw = raw_pet(r#"{"id":"   "}"#);
    assert_eq!(pet_menu_entry(&raw), None);
}

#[test]
fn sprite_sheets_are_found_by_extension() {
    assert!(petbuddy::pet::store::is_webp_file(std::path::Path::new("/p/cat/spritesheet.webp")));
    assert!(petbuddy::pet::store::is_webp_file(std::path::Path::new("/p/cat/Sheet.WEBP")));
    assert!(!petbuddy::pet::store::is_webp_file(std::path::Path::new("/p/cat/pet.json")));
    assert!(!petbuddy::pet::store::is_webp_file(std::path::Path::new("/p/cat/webp")));
}
