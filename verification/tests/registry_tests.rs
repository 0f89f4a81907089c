use windows_shortcuts::combo::parse_combo;
use windows_shortcuts::config::{Configuration, ShortcutSpec};
use windows_shortcuts::registry::{
    empty_registry, plan_registrations, register_all, reload, unregister_all, ActiveRegistry,
    RegisteredHotkey,
};

fn cfg(entries: &[(&str, &str)]) -> Configuration {
    Configuration {
        hotkeys: entries
            .iter()
            .map(|(c, t)| ShortcutSpec { combo: c.as_bytes().to_vec(), target: t.as_bytes().to_vec() })
            .collect(),
    }
}

fn targets(r: &ActiveRegistry) -> Vec<Vec<u8>> {
    r.entries.iter().map(|e| e.target.clone()).collect()
}

#[test]
fn planning_skips_unparseable_combos_and_keeps_order() {
    let c = cfg(&[("NotAKey", "a"), ("Ctrl+A", "b"), ("Shift", "c"), ("F2", "d")]);
    let plan = plan_registrations(&c);
    let planned: Vec<Vec<u8>> = plan.iter().map(|p| p.target.clone()).collect();
    assert_eq!(planned, vec![b"b".to_vec(), b"d".to_vec()]);
}

#[test]
fn skip_on_error_keeps_exactly_the_valid_entry() {
    // One unparseable combo beside one valid entry: the load does not
    // fail, and the active set holds exactly the valid entry.
    let c = cfg(&[("NotAKey", "a"), ("Ctrl+A", "b")]);
    let plan = plan_registrations(&c);
    assert_eq!(plan.len(), 1);
    let outcomes: Vec<Option<u32>> = vec![Some(7)];
    let reg = register_all(&c, &outcomes);
    assert_eq!(targets(&reg), vec![b"b".to_vec()]);
    assert_eq!(reg.entries[0].id, 7);
}

#[test]
fn rejected_registrations_are_skipped_without_stopping_later_ones() {
    let c = cfg(&[("A", "first"), ("B", "second"), ("C", "third")]);
    let outcomes: Vec<Option<u32>> = vec![Some(1), None, Some(3)];
    let reg = register_all(&c, &outcomes);
    assert_eq!(targets(&reg), vec![b"first".to_vec(), b"third".to_vec()]);
    assert!(reg.find_target(1).is_some());
    assert!(reg.find_target(2).is_none());
    assert!(reg.find_target(3).is_some());
}

#[test]
fn register_all_may_yield_an_empty_registry() {
    let c = cfg(&[("NotAKey", "a")]);
    let outcomes: Vec<Option<u32>> = vec![];
    let reg = register_all(&c, &outcomes);
    assert!(reg.entries.is_empty());
}

#[test]
fn reload_leaves_no_residue_of_the_old_set() {
    // reload(register_all(C1), C2) holds exactly the successfully
    // registerable entries of C2, nothing of C1.
    let c1 = cfg(&[("Ctrl+A", "old_one"), ("Ctrl+B", "old_two")]);
    let o1: Vec<Option<u32>> = vec![Some(1), Some(2)];
    let mut reg = register_all(&c1, &o1);
    assert_eq!(targets(&reg).len(), 2);

    let c2 = cfg(&[("Ctrl+C", "new_one"), ("NotAKey", "never"), ("Ctrl+D", "new_two")]);
    let o2: Vec<Option<u32>> = vec![Some(9), None];
    let released = reload(&mut reg, &c2, &o2);

    // Everything previously held was handed back for release, in order.
    assert_eq!(released.len(), 2);
    assert_eq!(released[0], parse_combo(b"Ctrl+A").unwrap());
    assert_eq!(released[1], parse_combo(b"Ctrl+B").unwrap());
    // The new set is exactly the accepted entries of C2.
    assert_eq!(targets(&reg), vec![b"new_one".to_vec()]);
    assert_eq!(reg.entries[0].id, 9);
    assert!(reg.find_target(1).is_none());
    assert!(reg.find_target(2).is_none());
}

#[test]
fn reloading_twice_in_a_row_is_harmless() {
    let c = cfg(&[("Ctrl+A", "x")]);
    let o: Vec<Option<u32>> = vec![Some(4)];
    let mut reg = register_all(&c, &o);
    let _ = reload(&mut reg, &c, &o);
    let _ = reload(&mut reg, &c, &o);
    assert_eq!(targets(&reg), vec![b"x".to_vec()]);
}

#[test]
fn unregister_all_clears_and_returns_every_combo() {
    let c = cfg(&[("Ctrl+A", "x"), ("F5", "y")]);
    let o: Vec<Option<u32>> = vec![Some(1), Some(2)];
    let mut reg = register_all(&c, &o);
    let released = unregister_all(&mut reg);
    assert_eq!(released.len(), 2);
    assert_eq!(released[0], parse_combo(b"Ctrl+A").unwrap());
    assert_eq!(released[1], parse_combo(b"F5").unwrap());
    assert!(reg.entries.is_empty());
    assert!(reg.find_target(1).is_none());
}

#[test]
fn find_target_answers_by_id() {
    let reg = ActiveRegistry {
        entries: vec![RegisteredHotkey {
            id: 11,
            combo: parse_combo(b"Ctrl+Q").unwrap(),
            target: b"somewhere".to_vec(),
        }],
    };
    assert_eq!(reg.find_target(11).unwrap(), b"somewhere".to_vec());
    assert!(reg.find_target(12).is_none());
}

#[test]
fn an_empty_registry_holds_nothing() {
    let reg = empty_registry();
    assert!(reg.entries.is_empty());
    assert!(reg.find_target(0).is_none());
}
