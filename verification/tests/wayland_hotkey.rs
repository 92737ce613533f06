use mori_ear::hotkey::KeyEdge;
use mori_ear::wayland_hotkey::{
    desktop_entry, is_wayland, needs_write, to_portal_trigger, Debounce, Signal, APP_ID, DESKTOP_APP_ID,
    SHORTCUT_ID,
};

#[test]
fn trigger_uses_uppercase_modifiers_and_lowercase_key() {
    assert_eq!(to_portal_trigger("Ctrl+Alt+E"), "CTRL+ALT+e");
    assert_eq!(to_portal_trigger("ctrl+shift+v"), "CTRL+SHIFT+v");
    assert_eq!(to_portal_trigger("Super+Space"), "SUPER+space");
}

#[test]
fn trigger_tolerates_spaces() {
    assert_eq!(to_portal_trigger("Ctrl + Alt + Y"), "CTRL+ALT+y");
}

/// The portal keeps permissions by application, so the two must not share one.
#[test]
fn app_id_is_valid_and_distinct_from_body() {
    assert!(
        APP_ID.parse::<ashpd::AppID>().is_ok(),
        "APP_ID must be a valid reverse-DNS name"
    );
    assert_ne!(APP_ID, "ai.yazelin.mori", "not the one of mori-desktop");
    assert_eq!(DESKTOP_APP_ID, "ai.yazelin.mori");
}

#[test]
fn wayland_is_told_by_the_session_or_the_display() {
    assert!(is_wayland(Some("Wayland"), None));
    assert!(is_wayland(None, Some("wayland-0")));
    assert!(!is_wayland(Some("x11"), None));
    assert!(!is_wayland(None, None));
}

#[test]
fn a_held_key_is_one_press() {
    let mut d = Debounce::new();
    assert_eq!(d.observe(Signal::Activated, SHORTCUT_ID), Some(KeyEdge::Pressed));
    assert_eq!(d.observe(Signal::Activated, SHORTCUT_ID), None, "it repeats");
    assert_eq!(d.observe(Signal::Deactivated, "other"), None);
    assert_eq!(d.observe(Signal::Deactivated, SHORTCUT_ID), Some(KeyEdge::Released));
    assert_eq!(d.observe(Signal::Deactivated, SHORTCUT_ID), None);
}

#[test]
fn the_desktop_entry_names_the_program_and_is_written_when_it_changes() {
    let entry = desktop_entry("/usr/bin/mori-ear");
    assert!(entry.starts_with("[Desktop Entry]\n"));
    assert!(entry.contains("\nExec=/usr/bin/mori-ear\n"));
    assert!(needs_write(None, &entry));
    assert!(needs_write(Some("old"), &entry));
    assert!(!needs_write(Some(&entry), &entry));
}
