use windows_shortcuts::combo::parse_combo;
use windows_shortcuts::config::{Configuration, ShortcutSpec};
use windows_shortcuts::dispatch::{Dispatcher, PressEvent};
use windows_shortcuts::registry::{empty_registry, ActiveRegistry, RegisteredHotkey};

fn registry_with(id: u32, target: &str) -> ActiveRegistry {
    ActiveRegistry {
        entries: vec![RegisteredHotkey {
            id,
            combo: parse_combo(b"Ctrl+A").unwrap(),
            target: target.as_bytes().to_vec(),
        }],
    }
}

#[test]
fn press_dispatch_opens_exactly_the_registered_target() {
    // {id=1 -> "notepad.exe"}: a press of id 1 opens it once; a press of
    // an unregistered id and a release of id 1 open nothing.
    let d = Dispatcher::new(registry_with(1, "notepad.exe"), 99);
    let hit = d.dispatch_press(Some(PressEvent { id: 1, pressed: true }));
    assert_eq!(hit.unwrap(), b"notepad.exe".to_vec());
    assert!(d.dispatch_press(Some(PressEvent { id: 2, pressed: true })).is_none());
    assert!(d.dispatch_press(Some(PressEvent { id: 1, pressed: false })).is_none());
    assert!(d.dispatch_press(None).is_none());
}

#[test]
fn quit_interaction_terminates_despite_pending_events() {
    let mut d = Dispatcher::new(registry_with(1, "notepad.exe"), 7);
    // A wake cycle with a change signal and a press pending still lets the
    // quit interaction begin termination.
    assert!(d.take_change(true));
    assert!(d.dispatch_press(Some(PressEvent { id: 1, pressed: true })).is_some());
    assert!(d.dispatch_interaction(Some(7)));
    // No further wake cycle processes anything.
    assert!(!d.take_change(true));
    assert!(d.dispatch_press(Some(PressEvent { id: 1, pressed: true })).is_none());
    assert!(!d.dispatch_interaction(Some(7)));
}

#[test]
fn other_interactions_are_ignored() {
    let mut d = Dispatcher::new(empty_registry(), 7);
    assert!(!d.dispatch_interaction(Some(8)));
    assert!(!d.dispatch_interaction(None));
    assert!(d.take_change(true));
}

#[test]
fn change_signal_is_only_taken_when_pending() {
    let d = Dispatcher::new(empty_registry(), 7);
    assert!(!d.take_change(false));
    assert!(d.take_change(true));
}

#[test]
fn reconcile_swaps_the_owned_registry() {
    let mut d = Dispatcher::new(registry_with(1, "old"), 7);
    let new_config = Configuration {
        hotkeys: vec![ShortcutSpec { combo: b"Ctrl+B".to_vec(), target: b"new".to_vec() }],
    };
    let outcomes: Vec<Option<u32>> = vec![Some(2)];
    let released = d.reconcile(&new_config, &outcomes);
    assert_eq!(released, vec![parse_combo(b"Ctrl+A").unwrap()]);
    assert!(d.dispatch_press(Some(PressEvent { id: 1, pressed: true })).is_none());
    assert_eq!(d.dispatch_press(Some(PressEvent { id: 2, pressed: true })).unwrap(), b"new".to_vec());
}

#[test]
fn startup_shortcut_is_planned_only_once() {
    let planned = windows_shortcuts::startup::create_startup_shortcut(b"windows_shortcuts", false);
    assert_eq!(planned.unwrap(), b"windows_shortcuts.lnk".to_vec());
    assert!(windows_shortcuts::startup::create_startup_shortcut(b"windows_shortcuts", true).is_none());
}
