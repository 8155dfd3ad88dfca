use petbuddy::gallery::{
    map_online_pets, pet_json_url, preview_url, spritesheet_url, RawOnlinePet,
    CODEPET_GITHUB_RAW, CODEPET_PREVIEW_BASE,
};
use petbuddy::keyed_map::KeyedMap;

fn raw() -> RawOnlinePet {
    RawOnlinePet {
        slug: "firefly--ling".to_string(),
        name: String::new(),
        localized_names: KeyedMap::new(),
        author: "a".to_string(),
        primary_category: "c".to_string(),
        description: "d".to_string(),
        sprite_version_number: 2,
    }
}

#[test]
fn name_falls_back_zh_then_en() {
    let mut r = raw();
    r.localized_names.insert("zh".into(), "中文名".into());
    r.localized_names.insert("en".into(), "English".into());
    let m = map_online_pets(vec![r]);
    assert_eq!(m[0].name, "中文名");
}

#[test]
fn name_falls_back_to_en_when_zh_empty() {
    let mut r = raw();
    r.localized_names.insert("zh".into(), String::new());
    r.localized_names.insert("en".into(), "English".into());
    let m = map_online_pets(vec![r]);
    assert_eq!(m[0].name, "English");
}

#[test]
fn name_falls_back_to_original_name() {
    let mut r = raw();
    r.name = "RawName".into();
    let m = map_online_pets(vec![r]);
    assert_eq!(m[0].name, "RawName");
}

#[test]
fn name_falls_back_to_slug_when_all_empty() {
    let r = raw();
    let m = map_online_pets(vec![r]);
    assert_eq!(m[0].name, "firefly--ling");
}

#[test]
fn name_skips_empty_en_to_raw_name() {
    let mut r = raw();
    r.localized_names.insert("en".into(), String::new());
    r.localized_names.insert("fr".into(), "Nom".into());
    r.name = "RawName".into();
    let m = map_online_pets(vec![r]);
    assert_eq!(m[0].name, "RawName");
}

#[test]
fn empty_slug_is_skipped() {
    let mut r = raw();
    r.slug = String::new();
    assert!(map_online_pets(vec![r]).is_empty());
}

#[test]
fn maps_keep_order_and_skip_only_empty_slugs() {
    let mut a = raw();
    a.slug = "a".into();
    let mut b = raw();
    b.slug = String::new();
    let mut c = raw();
    c.slug = "c".into();
    let m = map_online_pets(vec![a, b, c]);
    assert_eq!(m.len(), 2);
    assert_eq!(m[0].slug, "a");
    assert_eq!(m[1].slug, "c");
    assert_eq!(m[1].name, "c");
}

#[test]
fn maps_all_fields() {
    let r = raw();
    let m = &map_online_pets(vec![r])[0];
    assert_eq!(m.author, "a");
    assert_eq!(m.category, "c");
    assert_eq!(m.description, "d");
    assert_eq!(m.sprite_version, 2);
    assert_eq!(m.preview_url, preview_url(&m.slug));
}

#[test]
fn urls_are_well_formed() {
    assert_eq!(
        preview_url("s--x"),
        "https://codexpet.top/assets/previews/s--x/webp/idle.webp"
    );
    assert_eq!(
        pet_json_url("s--x"),
        "https://raw.githubusercontent.com/legeling/awesome-codex-pet/main/pets/s--x/pet.json"
    );
    assert_eq!(
        spritesheet_url("s--x"),
        "https://raw.githubusercontent.com/legeling/awesome-codex-pet/main/pets/s--x/spritesheet.webp"
    );
}

#[test]
fn url_bases_match_the_builders() {
    assert!(preview_url("x").starts_with(CODEPET_PREVIEW_BASE));
    assert!(pet_json_url("x").starts_with(CODEPET_GITHUB_RAW));
    assert!(spritesheet_url("x").starts_with(CODEPET_GITHUB_RAW));
}

#[test]
fn index_url_is_under_the_raw_base() {
    assert_eq!(
        petbuddy::gallery::pets_index_url(),
        format!("{}/pets.json", petbuddy::gallery::CODEPET_GITHUB_RAW)
    );
}
