use petbuddy::notify::server::{admits_connection, MAX_CONNECTIONS};
use petbuddy::shell::{
    autostart_command, autostart_reply, has_autostart_flag, pet_menu_items, tray_action, TrayAction,
};

fn strings(v: &[&str]) -> Vec<String> {
    v.iter().map(|s| s.to_string()).collect()
}

#[test]
fn autostart_flag_must_match_exactly() {
    assert!(has_autostart_flag(&strings(&["petbuddy.exe", "--autostart"])));
    assert!(!has_autostart_flag(&strings(&["petbuddy.exe", "--autostart=1"])));
    assert!(!has_autostart_flag(&strings(&[])));
}

#[test]
fn login_item_command_quotes_the_path() {
    assert_eq!(
        autostart_command(r"C:\Apps\Pet Buddy\petbuddy.exe"),
        r#""C:\Apps\Pet Buddy\petbuddy.exe" --autostart"#
    );
    assert_eq!(autostart_reply(true), "enabled");
    assert_eq!(autostart_reply(false), "disabled");
}

#[test]
fn pet_menu_lists_builtins_imports_then_more() {
    let items = pet_menu_items(&vec![("cat".to_string(), "Kitty".to_string())]);
    let got: Vec<(&str, &str)> = items.iter().map(|(a, b)| (a.as_str(), b.as_str())).collect();
    assert_eq!(
        got,
        vec![
            ("pet:miku", "Miku"),
            ("pet:ryujinmaru", "龙神丸"),
            ("pet:Seedy", "Seedy"),
            ("pet:cat", "Kitty"),
            ("pet:more", "更多设置…"),
        ]
    );
    assert_eq!(pet_menu_items(&vec![]).len(), 4);
}

#[test]
fn tray_ids_map_to_actions() {
    assert_eq!(tray_action("quit"), TrayAction::Quit);
    assert_eq!(tray_action("open_settings"), TrayAction::OpenSettings);
    assert_eq!(tray_action("toggle_visible"), TrayAction::ToggleVisible);
    assert_eq!(tray_action("toggle_autostart"), TrayAction::ToggleAutostart);
    assert_eq!(tray_action("pet:miku"), TrayAction::SwitchPet("pet:miku".to_string()));
    assert_eq!(tray_action("pet:more"), TrayAction::SwitchPet("pet:more".to_string()));
    assert_eq!(tray_action("quitt"), TrayAction::Ignore);
    assert_eq!(tray_action("pet"), TrayAction::Ignore);
}

#[test]
fn connections_are_capped() {
    assert_eq!(MAX_CONNECTIONS, 32);
    assert!(admits_connection(0));
    assert!(admits_connection(31));
    assert!(!admits_connection(32));
}
