//! The desktop shell's decisions: the tray menu's pet list and what a tray
//! menu click means, and the start-at-login marker.

use vstd::prelude::*;

use crate::text::{starts_with, str_eq, str_starts_with};

verus! {

/// Command-line flag with which the login item starts the program.
pub const AUTOSTART_FLAG: &'static str = "--autostart";

/// Whether the program was started at login: one of its arguments is
/// exactly `--autostart`.
pub fn has_autostart_flag(args: &Vec<String>) -> (b: bool)
    ensures
        b == exists|i: int| 0 <= i < args@.len() && #[trigger] args@[i]@ == "--autostart"@,
{
    proof {
        reveal_strlit("--autostart");
    }
    let flag = AUTOSTART_FLAG;
    let mut i: usize = 0;
    while i < args.len()
        invariant
            i <= args@.len(),
            flag@ == "--autostart"@,
            forall|j: int| 0 <= j < i ==> #[trigger] args@[j]@ != "--autostart"@,
        decreases args.len() - i,
    {
        if str_eq(args[i].as_str(), flag) {
            return true;
        }
        i = i + 1;
    }
    false
}

/// The command line a Windows login item runs: the program's path in double
/// quotes, then the start-at-login flag.
pub fn autostart_command(exe: &str) -> (s: String)
    ensures
        s@ == "\""@ + exe@ + "\" --autostart"@,
{
    let mut s = String::from_str("\"");
    s.append(exe);
    s.append("\" --autostart");
    s
}

/// The reply to a change of the start-at-login setting.
pub fn autostart_reply(enabled: bool) -> (s: &'static str)
    ensures
        s@ == (if enabled {
            "enabled"@
        } else {
            "disabled"@
        }),
{
    if enabled {
        "enabled"
    } else {
        "disabled"
    }
}

/// The pets every installation has: menu id and label.
pub open spec fn builtin_pets() -> Seq<(Seq<char>, Seq<char>)> {
    seq![("pet:miku"@, "Miku"@), ("pet:ryujinmaru"@, "龙神丸"@), ("pet:Seedy"@, "Seedy"@)]
}

/// The last entry of the pet menu, which opens the settings.
pub open spec fn more_entry() -> (Seq<char>, Seq<char>) {
    ("pet:more"@, "更多设置…"@)
}

/// The menu entry of an imported pet `(id, name)`.
pub open spec fn imported_entry(p: (Seq<char>, Seq<char>)) -> (Seq<char>, Seq<char>) {
    ("pet:"@ + p.0, p.1)
}

/// The pet menu: the built-in pets, then each imported pet in the order
/// given, then the settings entry.
pub open spec fn pet_menu(imported: Seq<(Seq<char>, Seq<char>)>) -> Seq<(Seq<char>, Seq<char>)> {
    builtin_pets() + imported.map_values(|p: (Seq<char>, Seq<char>)| imported_entry(p)) + seq![
        more_entry(),
    ]
}

/// The pet menu holds the three built-in pets, then one entry per imported
/// pet (its id behind `pet:`, its name as label), then the settings entry;
/// and clicking any of its entries is a pet switch.
pub proof fn lemma_pet_menu_entries_switch(imported: Seq<(Seq<char>, Seq<char>)>)
    ensures
        pet_menu(imported).len() == imported.len() + 4,
        forall|i: int|
            0 <= i < imported.len() ==> #[trigger] pet_menu(imported)[3 + i] == (
                "pet:"@ + imported[i].0,
                imported[i].1,
            ),
        forall|i: int|
            0 <= i < pet_menu(imported).len() ==> tray_kind(#[trigger] pet_menu(imported)[i].0)
                == 4,
{
    reveal_strlit("pet:miku");
    reveal_strlit("pet:ryujinmaru");
    reveal_strlit("pet:Seedy");
    reveal_strlit("pet:more");
    reveal_strlit("pet:");
    reveal_strlit("quit");
    reveal_strlit("open_settings");
    reveal_strlit("toggle_visible");
    reveal_strlit("toggle_autostart");
    let m = pet_menu(imported);
    let n = imported.len() as int;
    assert forall|i: int| 0 <= i < m.len() implies tray_kind(#[trigger] m[i].0) == 4 by {
        let id = m[i].0;
        if i >= 3 && i < 3 + n {
            assert(m[i] == imported_entry(imported[i - 3]));
            assert(id.subrange(0, 4) =~= "pet:"@);
        } else if i == 3 + n {
            assert(id == "pet:more"@);
            assert(id.subrange(0, 4) =~= "pet:"@);
        } else {
            assert(m[i] == builtin_pets()[i]);
            assert(id.subrange(0, 4) =~= "pet:"@);
        }
        assert(id[0] == 'p');
        assert(id != "quit"@ && id != "open_settings"@ && id != "toggle_visible"@ && id
            != "toggle_autostart"@) by {
            if id == "quit"@ {
                assert(id[0] == "quit"@[0]);
            }
            if id == "open_settings"@ {
                assert(id[0] == "open_settings"@[0]);
            }
            if id == "toggle_visible"@ {
                assert(id[0] == "toggle_visible"@[0]);
            }
            if id == "toggle_autostart"@ {
                assert(id[0] == "toggle_autostart"@[0]);
            }
        }
    }
}

/// The text of a list of string pairs.
pub open spec fn pairs_text(v: Seq<(String, String)>) -> Seq<(Seq<char>, Seq<char>)> {
    v.map_values(|p: (String, String)| (p.0@, p.1@))
}

fn entry(id: &str, label: &str) -> (e: (String, String))
    ensures
        e.0@ == id@,
        e.1@ == label@,
{
    (String::from_str(id), String::from_str(label))
}

/// The entries `(menu id, label)` of the tray's pet menu, given the imported
/// pets as `(id, display name)`.
pub fn pet_menu_items(imported: &Vec<(String, String)>) -> (items: Vec<(String, String)>)
    ensures
        pairs_text(items@) == pet_menu(pairs_text(imported@)),
{
    proof {
        reveal_strlit("pet:miku");
        reveal_strlit("Miku");
        reveal_strlit("pet:ryujinmaru");
        reveal_strlit("龙神丸");
        reveal_strlit("pet:Seedy");
        reveal_strlit("Seedy");
        reveal_strlit("pet:more");
        reveal_strlit("更多设置…");
        reveal_strlit("pet:");
    }
    let mut items: Vec<(String, String)> = Vec::new();
    items.push(entry("pet:miku", "Miku"));
    items.push(entry("pet:ryujinmaru", "龙神丸"));
    items.push(entry("pet:Seedy", "Seedy"));
    let ghost imp = pairs_text(imported@).map_values(
        |p: (Seq<char>, Seq<char>)| imported_entry(p),
    );
    assert(pairs_text(items@) =~= builtin_pets());
    let mut i: usize = 0;
    while i < imported.len()
        invariant
            i <= imported@.len(),
            imp == pairs_text(imported@).map_values(|p: (Seq<char>, Seq<char>)| imported_entry(p)),
            pairs_text(items@) =~= builtin_pets() + imp.subrange(0, i as int),
        decreases imported.len() - i,
    {
        let mut id = String::from_str("pet:");
        id.append(imported[i].0.as_str());
        let name = String::from_str(imported[i].1.as_str());
        let ghost before = items@;
        items.push((id, name));
        proof {
            assert(imp[i as int] == imported_entry((imported@[i as int].0@, imported@[i as int].1@)));
            assert(pairs_text(items@) =~= pairs_text(before).push(imp[i as int]));
            assert(imp.subrange(0, i + 1) =~= imp.subrange(0, i as int).push(imp[i as int]));
        }
        i = i + 1;
    }
    items.push(entry("pet:more", "更多设置…"));
    proof {
        assert(imp.subrange(0, imported@.len() as int) =~= imp);
    }
    items
}

/// What a click on a tray menu entry does.
#[derive(Clone, Debug, PartialEq, Eq)]
pub enum TrayAction {
    Quit,
    OpenSettings,
    /// Show or hide the pet (`pet-toggle-visible`).
    ToggleVisible,
    /// Turn start-at-login on when it is off, off when it is on.
    ToggleAutostart,
    /// Switch to the pet behind the entry (`pet-switch`, with the menu id).
    SwitchPet(String),
    /// Anything else: ignored.
    Ignore,
}

/// The kind of action a tray menu id names (the pet id of `SwitchPet`
/// aside).
pub open spec fn tray_kind(id: Seq<char>) -> int {
    if id == "quit"@ {
        0
    } else if id == "open_settings"@ {
        1
    } else if id == "toggle_visible"@ {
        2
    } else if id == "toggle_autostart"@ {
        3
    } else if starts_with(id, "pet:"@) {
        4
    } else {
        5
    }
}

/// What clicking the tray menu entry `id` does: the four fixed entries by
/// their ids, any `pet:` entry switches pets, anything else is ignored.
pub fn tray_action(id: &str) -> (a: TrayAction)
    ensures
        tray_kind(id@) == 0 ==> a == TrayAction::Quit,
        tray_kind(id@) == 1 ==> a == TrayAction::OpenSettings,
        tray_kind(id@) == 2 ==> a == TrayAction::ToggleVisible,
        tray_kind(id@) == 3 ==> a == TrayAction::ToggleAutostart,
        tray_kind(id@) == 4 ==> (a matches TrayAction::SwitchPet(p) && p@ == id@),
        tray_kind(id@) == 5 ==> a == TrayAction::Ignore,
{
    if str_eq(id, "quit") {
        TrayAction::Quit
    } else if str_eq(id, "open_settings") {
        TrayAction::OpenSettings
    } else if str_eq(id, "toggle_visible") {
        TrayAction::ToggleVisible
    } else if str_eq(id, "toggle_autostart") {
        TrayAction::ToggleAutostart
    } else if str_starts_with(id, "pet:") {
        TrayAction::SwitchPet(String::from_str(id))
    } else {
        TrayAction::Ignore
    }
}

} // verus!
