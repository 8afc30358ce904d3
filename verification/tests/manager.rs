use nemux::manager::{ExitOutcome, KillOutcome, TabManager};

#[test]
fn kill_missing_tab_reports_not_found() {
    let mut manager: TabManager<&str> = TabManager::new(1000, false);
    assert_eq!(manager.kill(42).0, KillOutcome::NotFound);
}

#[test]
fn ids_increase_monotonically() {
    let mut manager: TabManager<&str> = TabManager::new(1000, false);
    let a = manager.allocate_id();
    manager.insert(a, "true");
    let b = manager.allocate_id();
    manager.insert(b, "true");
    assert!(b > a);
}

#[test]
fn killing_a_running_tab_does_not_remove_it() {
    let mut manager: TabManager<&str> = TabManager::new(1000, false);
    let id = manager.allocate_id();
    manager.insert(id, "sleep 30");
    assert_eq!(manager.kill(id).0, KillOutcome::Killed);
    assert_eq!(manager.list().len(), 1, "tab should still be listed right after signaling it");
}

#[test]
fn exited_entry_stays_until_dismissed() {
    let mut manager: TabManager<&str> = TabManager::new(1000, false);
    let id = manager.allocate_id();
    assert_eq!(id, 0);
    manager.insert(id, "true");
    assert_eq!(manager.process_exited(id), (ExitOutcome::Kept, None));
    assert_eq!(manager.list(), vec![0]);
    assert_eq!(manager.kill(id), (KillOutcome::Removed { daemon_now_empty: true }, Some("true")));
    assert!(manager.list().is_empty());
    assert!(manager.is_empty());
}

#[test]
fn auto_close_removes_exited_entry_without_dismissal() {
    let mut manager: TabManager<&str> = TabManager::new(1000, true);
    let keep = manager.allocate_id();
    manager.insert(keep, "sleep 30");
    let gone = manager.allocate_id();
    manager.insert(gone, "true");
    assert_eq!(
        manager.process_exited(gone),
        (ExitOutcome::Removed { daemon_now_empty: false }, Some("true"))
    );
    assert!(manager.get(gone).is_none());
    assert_eq!(manager.get(keep), Some(&"sleep 30"));
}

#[test]
fn list_is_sorted_and_removal_keeps_others() {
    let mut manager: TabManager<u8> = TabManager::new(10, false);
    manager.insert(5, 50);
    manager.insert(1, 10);
    manager.insert(3, 30);
    manager.insert(3, 31);
    assert_eq!(manager.list(), vec![1, 3, 5]);
    assert_eq!(manager.get(3), Some(&31));
    assert_eq!(manager.kill_all(), vec![&10, &31, &50]);
    manager.process_exited(3);
    assert_eq!(manager.kill(3), (KillOutcome::Removed { daemon_now_empty: false }, Some(31)));
    assert_eq!(manager.list(), vec![1, 5]);
    assert_eq!(manager.process_exited(9), (ExitOutcome::NotFound, None));
    assert_eq!(manager.scrollback_lines(), 10);
}

#[test]
fn ids_count_up_from_zero() {
    let mut manager: TabManager<()> = TabManager::new(10, false);
    let mut last = 0;
    for _ in 0..3 {
        last = manager.allocate_id();
    }
    assert_eq!(last, 2);
}
