use mqtt_bridge::{percentage_hundredths, ProgressReport, ProgressTracker, TaskProgressRegistry};

#[test]
fn update_after_stop_is_dropped() {
    let mut t = ProgressTracker::new(200, "task-1".to_string());
    assert_eq!(
        t.update_progress(50),
        Some(ProgressReport { progress: 50, total: 200 })
    );
    assert_eq!(t.stop(), ProgressReport { progress: 0, total: 0 });
    assert!(t.is_cancelled());
    assert_eq!(t.update_progress(50), None);
    assert_eq!(t.uploaded_size(), 50);
    assert_eq!(t.total_size(), 200);
}

#[test]
fn progress_accumulates_and_saturates() {
    let mut t = ProgressTracker::new(10, "t".to_string());
    t.update_progress(3);
    t.update_progress(4);
    assert_eq!(t.uploaded_size(), 7);
    t.set_total_size(20);
    assert_eq!(t.update_progress(u64::MAX), Some(ProgressReport { progress: u64::MAX, total: 20 }));
}

#[test]
fn percentage_in_hundredths() {
    assert_eq!(percentage_hundredths(50, 200), 2500);
    assert_eq!(percentage_hundredths(1, 3), 3333);
    assert_eq!(percentage_hundredths(2, 3), 6667);
    assert_eq!(percentage_hundredths(1, 8), 1250);
    assert_eq!(percentage_hundredths(1, 16), 625);
    assert_eq!(percentage_hundredths(7, 0), 0);
    assert_eq!(percentage_hundredths(300, 200), 15000);
}

#[test]
fn registry_routes_by_task_id() {
    let mut reg = TaskProgressRegistry::new();
    reg.register(ProgressTracker::new(100, "a".to_string()));
    reg.register(ProgressTracker::new(50, "b".to_string()));
    assert!(reg.contains("a"));
    assert_eq!(reg.update_progress("a", 10), Some(ProgressReport { progress: 10, total: 100 }));
    assert_eq!(reg.update_progress("zz", 10), None);
    assert_eq!(reg.stop("b"), Some(ProgressReport { progress: 0, total: 0 }));
    assert_eq!(reg.update_progress("b", 10), None);
    assert!(reg.remove("a"));
    assert!(!reg.contains("a"));
    assert!(!reg.remove("a"));
    assert!(reg.contains("b"));
    reg.register(ProgressTracker::new(5, "b".to_string()));
    assert_eq!(reg.update_progress("b", 1), Some(ProgressReport { progress: 1, total: 5 }));
}
