//! The online gallery index: turning the remote `pets.json` entries into
//! gallery items, and the URLs of a gallery pet's resources.

use vstd::prelude::*;

use crate::keyed_map::{KeyedMap, lookup};

verus! {

/// Raw base URL of the awesome-codex-pet repository (holds `pets.json`).
pub const CODEPET_GITHUB_RAW: &'static str = "https://raw.githubusercontent.com/legeling/awesome-codex-pet/main";

/// Base URL of the codexpet.top preview images.
pub const CODEPET_PREVIEW_BASE: &'static str = "https://codexpet.top/assets/previews";

/// A gallery item, as handed to the front end.
pub struct OnlinePetMeta {
    /// Repository directory slug; also the local id once downloaded.
    pub slug: String,
    /// Display name (Chinese localized name first).
    pub name: String,
    pub author: String,
    pub category: String,
    pub description: String,
    /// Sprite version (1 or 2), for display only.
    pub sprite_version: u32,
    /// Preview image URL (may not exist on the server).
    pub preview_url: String,
}

/// One entry of the remote `pets.json` index.
pub struct RawOnlinePet {
    pub slug: String,
    pub name: String,
    pub localized_names: KeyedMap<String>,
    pub author: String,
    pub primary_category: String,
    pub description: String,
    pub sprite_version_number: u32,
}

/// Preview image URL of a gallery pet.
pub open spec fn preview_url_of(slug: Seq<char>) -> Seq<char> {
    "https://codexpet.top/assets/previews/"@ + slug + "/webp/idle.webp"@
}

/// Download URL of a gallery pet's `pet.json`.
pub open spec fn pet_json_url_of(slug: Seq<char>) -> Seq<char> {
    "https://raw.githubusercontent.com/legeling/awesome-codex-pet/main/pets/"@ + slug
        + "/pet.json"@
}

/// Download URL of a gallery pet's sprite sheet.
pub open spec fn spritesheet_url_of(slug: Seq<char>) -> Seq<char> {
    "https://raw.githubusercontent.com/legeling/awesome-codex-pet/main/pets/"@ + slug
        + "/spritesheet.webp"@
}

/// Where the gallery index is downloaded from.
pub open spec fn pets_index_url_of() -> Seq<char> {
    "https://raw.githubusercontent.com/legeling/awesome-codex-pet/main/pets.json"@
}

/// Where the gallery index (`pets.json`) is downloaded from.
pub fn pets_index_url() -> (u: String)
    ensures
        u@ == pets_index_url_of(),
{
    String::from_str("https://raw.githubusercontent.com/legeling/awesome-codex-pet/main/pets.json")
}

/// The preview image (codexpet.top `idle.webp`) of a gallery pet.
pub fn preview_url(slug: &str) -> (u: String)
    ensures
        u@ == preview_url_of(slug@),
{
    let mut u = String::from_str("https://codexpet.top/assets/previews/");
    u.append(slug);
    u.append("/webp/idle.webp");
    u
}

/// Where a gallery pet's `pet.json` is downloaded from.
pub fn pet_json_url(slug: &str) -> (u: String)
    ensures
        u@ == pet_json_url_of(slug@),
{
    let mut u = String::from_str(
        "https://raw.githubusercontent.com/legeling/awesome-codex-pet/main/pets/",
    );
    u.append(slug);
    u.append("/pet.json");
    u
}

/// Where a gallery pet's sprite sheet is downloaded from.
pub fn spritesheet_url(slug: &str) -> (u: String)
    ensures
        u@ == spritesheet_url_of(slug@),
{
    let mut u = String::from_str(
        "https://raw.githubusercontent.com/legeling/awesome-codex-pet/main/pets/",
    );
    u.append(slug);
    u.append("/spritesheet.webp");
    u
}

/// A localized name, if present and non-empty.
pub open spec fn nonempty_name(names: Seq<(Seq<char>, String)>, lang: Seq<char>) -> Option<Seq<char>> {
    match lookup(names, lang) {
        Some(n) => if n@.len() > 0 {
            Some(n@)
        } else {
            None
        },
        None => None,
    }
}

/// The display name of an index entry: the first non-empty of the `zh`
/// name, the `en` name, the raw name, falling back to the slug.
pub open spec fn display_name_of(p: RawOnlinePet) -> Seq<char> {
    match nonempty_name(p.localized_names.view(), "zh"@) {
        Some(n) => n,
        None => match nonempty_name(p.localized_names.view(), "en"@) {
            Some(n) => n,
            None => if p.name@.len() > 0 {
                p.name@
            } else {
                p.slug@
            },
        },
    }
}

/// The index entries that become gallery items: those with a non-empty slug.
pub open spec fn listed(raw: Seq<RawOnlinePet>) -> Seq<RawOnlinePet>
    decreases raw.len(),
{
    if raw.len() == 0 {
        seq![]
    } else if raw.last().slug@.len() == 0 {
        listed(raw.drop_last())
    } else {
        listed(raw.drop_last()).push(raw.last())
    }
}

/// The gallery item made from an index entry.
pub open spec fn meta_matches(m: OnlinePetMeta, p: RawOnlinePet) -> bool {
    &&& m.slug@ == p.slug@
    &&& m.name@ == display_name_of(p)
    &&& m.author@ == p.author@
    &&& m.category@ == p.primary_category@
    &&& m.description@ == p.description@
    &&& m.sprite_version == p.sprite_version_number
    &&& m.preview_url@ == preview_url_of(p.slug@)
}

/// The name of a gallery item falls back in a fixed order: a non-empty
/// `zh` name wins; without one, a non-empty `en` name, whatever the raw
/// name; without either, the raw name when non-empty, else the slug.
pub proof fn lemma_item_name_fallback(m: OnlinePetMeta, p: RawOnlinePet)
    requires
        meta_matches(m, p),
    ensures
        ({
            let zh = lookup(p.localized_names.view(), "zh"@);
            let en = lookup(p.localized_names.view(), "en"@);
            let has_zh = zh matches Some(n) && n@.len() > 0;
            let has_en = en matches Some(n) && n@.len() > 0;
            &&& has_zh ==> m.name@ == zh->0@
            &&& !has_zh && has_en ==> m.name@ == en->0@
            &&& !has_zh && !has_en && p.name@.len() > 0 ==> m.name@ == p.name@
            &&& !has_zh && !has_en && p.name@.len() == 0 ==> m.name@ == p.slug@
        }),
{
}

/// The gallery items are exactly the index entries with a non-empty slug,
/// in index order.
pub proof fn lemma_listed_keeps_slugged_entries(raw: Seq<RawOnlinePet>)
    ensures
        listed(raw) == raw.filter(|p: RawOnlinePet| p.slug@.len() > 0),
    decreases raw.len(),
{
    reveal(Seq::filter);
    if raw.len() > 0 {
        lemma_listed_keeps_slugged_entries(raw.drop_last());
    }
}

/// A gallery pet's files sit in its own directory `pets/<slug>/` of the
/// repository whose root holds the index `pets.json`; its preview image is
/// `webp/idle.webp` under `<slug>/` of the preview site.
pub proof fn lemma_gallery_urls(slug: Seq<char>)
    ensures
        pets_index_url_of() == "https://raw.githubusercontent.com/legeling/awesome-codex-pet/main"@
            + "/pets.json"@,
        pet_json_url_of(slug) == "https://raw.githubusercontent.com/legeling/awesome-codex-pet/main"@
            + "/pets/"@ + slug + "/pet.json"@,
        spritesheet_url_of(slug)
            == "https://raw.githubusercontent.com/legeling/awesome-codex-pet/main"@ + "/pets/"@
            + slug + "/spritesheet.webp"@,
        preview_url_of(slug) == "https://codexpet.top/assets/previews"@ + "/"@ + slug
            + "/webp/idle.webp"@,
{
    reveal_strlit("https://raw.githubusercontent.com/legeling/awesome-codex-pet/main");
    reveal_strlit("https://raw.githubusercontent.com/legeling/awesome-codex-pet/main/pets.json");
    reveal_strlit("https://raw.githubusercontent.com/legeling/awesome-codex-pet/main/pets/");
    reveal_strlit("/pets.json");
    reveal_strlit("/pets/");
    reveal_strlit("https://codexpet.top/assets/previews");
    reveal_strlit("https://codexpet.top/assets/previews/");
    reveal_strlit("/");
    let repo = "https://raw.githubusercontent.com/legeling/awesome-codex-pet/main"@;
    let pets = "https://raw.githubusercontent.com/legeling/awesome-codex-pet/main/pets/"@;
    assert(pets_index_url_of() =~= repo + "/pets.json"@);
    assert(pets =~= repo + "/pets/"@);
    assert(pet_json_url_of(slug) =~= repo + "/pets/"@ + slug + "/pet.json"@);
    assert(spritesheet_url_of(slug) =~= repo + "/pets/"@ + slug + "/spritesheet.webp"@);
    assert("https://codexpet.top/assets/previews/"@ =~= "https://codexpet.top/assets/previews"@
        + "/"@);
    assert(preview_url_of(slug) =~= "https://codexpet.top/assets/previews"@ + "/"@ + slug
        + "/webp/idle.webp"@);
}

fn nonempty_localized(names: &KeyedMap<String>, lang: &str) -> (r: Option<String>)
    ensures
        r matches Some(n) ==> nonempty_name(names.view(), lang@) == Some(n@),
        r is None ==> nonempty_name(names.view(), lang@) is None,
{
    match names.get(lang) {
        Some(n) => if n.as_str().is_empty() {
            None
        } else {
            Some(n.clone())
        },
        None => None,
    }
}

fn gallery_item(p: RawOnlinePet) -> (m: OnlinePetMeta)
    ensures
        meta_matches(m, p),
{
    proof {
        reveal_strlit("zh");
        reveal_strlit("en");
    }
    let name = match nonempty_localized(&p.localized_names, "zh") {
        Some(n) => n,
        None => match nonempty_localized(&p.localized_names, "en") {
            Some(n) => n,
            None => if p.name.as_str().is_empty() {
                p.slug.clone()
            } else {
                p.name.clone()
            },
        },
    };
    let preview = preview_url(p.slug.as_str());
    OnlinePetMeta {
        slug: p.slug,
        name,
        author: p.author,
        category: p.primary_category,
        description: p.description,
        sprite_version: p.sprite_version_number,
        preview_url: preview,
    }
}

/// Maps the remote index to gallery items: entries without a slug are
/// skipped (a slug names the local directory); the display name falls back
/// `zh` → `en` → name → slug.
pub fn map_online_pets(raw: Vec<RawOnlinePet>) -> (out: Vec<OnlinePetMeta>)
    ensures
        out@.len() == listed(raw@).len(),
        forall|i: int| 0 <= i < out@.len() ==> meta_matches(#[trigger] out@[i], listed(raw@)[i]),
{
    let mut out: Vec<OnlinePetMeta> = Vec::new();
    let ghost all = raw@;
    let mut i: usize = 0;
    proof {
        assert(all.take(0) =~= Seq::<RawOnlinePet>::empty());
    }
    for p in it: raw
        invariant
            all == it.seq(),
            out@.len() == listed(all.take(it.index())).len(),
            forall|k: int|
                0 <= k < out@.len() ==> meta_matches(#[trigger] out@[k], listed(all.take(it.index()))[k]),
    {
        let ghost idx = it.index();
        proof {
            assert(all.take(idx + 1).drop_last() =~= all.take(idx));
            assert(all.take(idx + 1).last() == p);
        }
        if !p.slug.as_str().is_empty() {
            let m = gallery_item(p);
            out.push(m);
        }
    }
    proof {
        assert(all.take(all.len() as int) =~= all);
    }
    out
}

} // verus!
