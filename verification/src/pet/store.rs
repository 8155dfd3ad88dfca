//! The pets kept on disk: what is written into a stored `pet.json`, and what
//! the tray menu shows of a stored pet. Reading and writing the files is the
//! caller's part.

use vstd::prelude::*;

use crate::json::{
    doc_strings, json_as_object_mut, json_empty_object, json_error_text, json_is_null,
    json_map_get_str, json_map_insert_str, json_map_with_str, json_null, json_object,
    json_object_value, json_parse, json_parses, json_pretty_text, json_string_members,
    json_to_string_pretty, json_value, member_text,
};
use crate::pet::model::RawPetJson;
use crate::strings::message;
use crate::archive::{to_lower, unicode_lower};
use crate::paths::{path_extension, path_extension_text};
use crate::text::{starts_with, str_eq, trim, trim_str};

verus! {

/// A `pet.json` of a downloaded pet with its `id` member set to `slug`, so
/// that the id of a stored pet always names its directory.
///
/// The text must be JSON whose root is an object; the result is then that
/// object, pretty-printed, with `id` set to the slug (as a string) and every
/// other member as it was. It reads back as an object with the same string
/// members, `id` now the slug.
pub fn normalize_pet_id_json(json_text: &str, slug: &str) -> (r: Result<String, String>)
    ensures
        !json_parses(json_text@) <==> (r is Err && starts_with(r->Err_0@, "pet.json 解析失败: "@)),
        json_parses(json_text@) && doc_strings(json_text@) is None ==> (r is Err && r->Err_0@
            == "pet.json 根节点不是 JSON 对象"@),
        json_parses(json_text@) && doc_strings(json_text@) is Some ==> (r matches Ok(s)
            && s@ == json_pretty_text(
            json_object_value(
                json_map_with_str(json_object(json_value(json_text@))->0, "id"@, slug@),
            ),
        ) && json_parses(s@) && doc_strings(s@) == Some(
            doc_strings(json_text@)->0.insert("id"@, slug@),
        )),
{
    proof {
        reveal_strlit("pet.json 解析失败: ");
        reveal_strlit("pet.json 根节点不是 JSON 对象");
        reveal_strlit("pet.json 序列化失败: ");
    }
    let mut value = match json_parse(json_text) {
        Ok(v) => v,
        Err(e) => return Err(message("pet.json 解析失败: ", json_error_text(&e))),
    };
    match json_as_object_mut(&mut value) {
        Some(obj) => {
            json_map_insert_str(obj, String::from_str("id"), String::from_str(slug));
        },
        None => {
            let m = String::from_str("pet.json 根节点不是 JSON 对象");
            assert(m@[9] != "pet.json 解析失败: "@[9]);
            return Err(m);
        },
    }
    match json_to_string_pretty(&value) {
        Ok(text) => Ok(text),
        Err(e) => {
            let m = message("pet.json 序列化失败: ", json_error_text(&e));
            assert(m@[9] != "pet.json 解析失败: "@[9]);
            Err(m)
        },
    }
}

/// The display name after an edit: the new name trimmed, or, when that is
/// empty, the stored name, or `外部宠物` when none is stored.
pub open spec fn edited_name(name: Seq<char>, stored: Option<Seq<char>>) -> Seq<char> {
    if trim(name).len() > 0 {
        trim(name)
    } else {
        match stored {
            Some(s) => s,
            None => "外部宠物"@,
        }
    }
}

/// The text of an optional string.
pub open spec fn opt_text(o: Option<String>) -> Option<Seq<char>> {
    match o {
        Some(s) => Some(s@),
        None => None,
    }
}

/// The display name written by an edit (an emptied name keeps the stored
/// one).
pub fn edited_display_name(name: &str, stored: Option<String>) -> (s: String)
    ensures
        s@ == edited_name(name@, opt_text(stored)),
{
    let t = trim_str(name);
    if !t.is_empty() {
        String::from_str(t)
    } else {
        match stored {
            Some(s) => s,
            None => String::from_str("外部宠物"),
        }
    }
}

/// The stored name of a pet: the `displayName` member of its `pet.json`
/// object when that member is a string.
fn stored_display_name(pet: &serde_json::Map<String, serde_json::Value>) -> (r: Option<String>)
    ensures
        opt_text(r) == member_text(json_string_members(*pet), "displayName"@),
{
    json_map_get_str(pet, "displayName")
}

/// The members of a stored `pet.json` object after an edit: `displayName`
/// set to the edited name when a name is given, `description` to the
/// trimmed description when one is given, the others unchanged.
pub open spec fn edited_object(
    m: serde_json::Map<String, serde_json::Value>,
    name: Option<Seq<char>>,
    desc: Option<Seq<char>>,
) -> serde_json::Map<String, serde_json::Value> {
    let named = match name {
        Some(n) => json_map_with_str(
            m,
            "displayName"@,
            edited_name(n, member_text(json_string_members(m), "displayName"@)),
        ),
        None => m,
    };
    match desc {
        Some(d) => json_map_with_str(named, "description"@, trim(d)),
        None => named,
    }
}

/// The string members of a stored `pet.json` after an edit: `displayName`
/// set to the edited name when a name is given, `description` to the trimmed
/// description when one is given, the others unchanged.
pub open spec fn edited_members(
    members: Map<Seq<char>, Seq<char>>,
    name: Option<Seq<char>>,
    desc: Option<Seq<char>>,
) -> Map<Seq<char>, Seq<char>> {
    let named = match name {
        Some(n) => members.insert(
            "displayName"@,
            edited_name(n, member_text(members, "displayName"@)),
        ),
        None => members,
    };
    match desc {
        Some(d) => named.insert("description"@, trim(d)),
        None => named,
    }
}

/// A stored `pet.json` after an edit of its metadata: `displayName` becomes
/// the edited name (see `edited_display_name`) when a name is given, and
/// `description` the trimmed description when one is given; nothing else is
/// touched. A `null` document becomes an object first; a document of another
/// kind cannot take the members and is refused.
pub fn edit_pet_json(text: &str, display_name: Option<String>, description: Option<String>) -> (r:
    Result<String, String>)
    ensures
        !json_parses(text@) <==> (r is Err && starts_with(r->Err_0@, "解析宠物配置失败: "@)),
        json_parses(text@) && display_name is None && description is None ==> (r matches Ok(s)
            && s@ == json_pretty_text(json_value(text@)) && json_parses(s@) && (doc_strings(
            text@,
        ) is Some ==> doc_strings(s@) == doc_strings(text@))),
        json_parses(text@) && (display_name is Some || description is Some) && doc_strings(
            text@,
        ) is Some ==> (r matches Ok(s) && s@ == json_pretty_text(
            json_object_value(
                edited_object(
                    json_object(json_value(text@))->0,
                    opt_text(display_name),
                    opt_text(description),
                ),
            ),
        ) && json_parses(s@) && doc_strings(s@) == Some(
            edited_members(
                doc_strings(text@)->0,
                opt_text(display_name),
                opt_text(description),
            ),
        )),
        json_parses(text@) && (display_name is Some || description is Some) && json_null(
            json_value(text@),
        ) ==> (r matches Ok(s) && json_parses(s@) && doc_strings(s@) == Some(
            edited_members(Map::empty(), opt_text(display_name), opt_text(description)),
        )),
        json_parses(text@) && (display_name is Some || description is Some) && doc_strings(
            text@,
        ) is None && !json_null(json_value(text@)) ==> (r is Err && r->Err_0@
            == "宠物配置根节点不是 JSON 对象"@),
{
    proof {
        reveal_strlit("解析宠物配置失败: ");
        reveal_strlit("宠物配置根节点不是 JSON 对象");
        reveal_strlit("序列化失败: ");
    }
    let mut pet = match json_parse(text) {
        Ok(v) => v,
        Err(e) => return Err(message("解析宠物配置失败: ", json_error_text(&e))),
    };
    if display_name.is_some() || description.is_some() {
        if json_is_null(&pet) {
            pet = json_empty_object();
        }
        match json_as_object_mut(&mut pet) {
            Some(obj) => {
                match display_name {
                    Some(name) => {
                        let stored = stored_display_name(obj);
                        let shown = edited_display_name(name.as_str(), stored);
                        json_map_insert_str(obj, String::from_str("displayName"), shown);
                    },
                    None => {},
                }
                match description {
                    Some(desc) => {
                        let d = String::from_str(trim_str(desc.as_str()));
                        json_map_insert_str(obj, String::from_str("description"), d);
                    },
                    None => {},
                }
            },
            None => {
                let m = String::from_str("宠物配置根节点不是 JSON 对象");
                assert(m@[2] != "解析宠物配置失败: "@[2]);
                return Err(m);
            },
        }
    }
    match json_to_string_pretty(&pet) {
        Ok(s) => Ok(s),
        Err(e) => {
            let m = message("序列化失败: ", json_error_text(&e));
            assert(m@[0] != "解析宠物配置失败: "@[0]);
            Err(m)
        },
    }
}

/// What the tray menu shows of a stored pet: its trimmed id and its display
/// name (the id when it has none); nothing for a pet whose id is blank.
pub open spec fn menu_entry_of(raw: RawPetJson) -> Option<(Seq<char>, Seq<char>)> {
    if trim(raw.id@).len() == 0 {
        None
    } else {
        Some(
            (
                trim(raw.id@),
                match raw.display_name {
                    Some(d) => d@,
                    None => trim(raw.id@),
                },
            ),
        )
    }
}

/// The `(id, display name)` the tray menu lists for a stored pet, or `None`
/// when its id is blank.
pub fn pet_menu_entry(raw: &RawPetJson) -> (r: Option<(String, String)>)
    ensures
        match r {
            Some((id, name)) => menu_entry_of(*raw) == Some((id@, name@)),
            None => menu_entry_of(*raw) is None,
        },
{
    let id = trim_str(raw.id.as_str());
    if id.is_empty() {
        return None;
    }
    let name = match &raw.display_name {
        Some(d) => String::from_str(d.as_str()),
        None => String::from_str(id),
    };
    Some((String::from_str(id), name))
}

/// Whether a stored file is a sprite sheet: its extension, lower-cased, is
/// `webp`.
pub fn is_webp_file(path: &std::path::Path) -> (b: bool)
    ensures
        b == (match path_extension(path) {
            Some(e) => unicode_lower(e) == "webp"@,
            None => false,
        }),
{
    match path_extension_text(path) {
        Some(e) => {
            let lower = to_lower(e.as_str());
            str_eq(lower.as_str(), "webp")
        },
        None => false,
    }
}

} // verus!
