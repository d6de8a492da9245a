use lampctl::alsa::{any_reports_running, status_reports_running, PlayIndicator};
use lampctl::home_wizard::Level;

#[test]
fn running_status_is_recognised() {
    assert!(status_reports_running(b"state: RUNNING\nowner_pid   : 1234\n"));
    assert!(status_reports_running(b"RUNNING"));
    assert!(status_reports_running(b"xxRUNNING"));
}

#[test]
fn other_statuses_are_not_running() {
    assert!(!status_reports_running(b"state: PREPARED\n"));
    assert!(!status_reports_running(b"closed\n"));
    assert!(!status_reports_running(b"RUNNIN"));
    assert!(!status_reports_running(b"running"));
    assert!(!status_reports_running(b""));
}

#[test]
fn indicator_writes_only_on_change() {
    let mut p = PlayIndicator::new();
    assert!(p.update(false).is_none());
    assert!(matches!(p.update(true), Some(Level::High)));
    assert!(p.update(true).is_none());
    assert!(matches!(p.update(false), Some(Level::Low)));
    assert!(p.update(false).is_none());
}

#[test]
fn any_status_file_running() {
    assert!(!any_reports_running(&vec![]));
    assert!(!any_reports_running(&vec![b"closed\n".to_vec(), b"state: PREPARED\n".to_vec()]));
    assert!(any_reports_running(&vec![b"closed\n".to_vec(), b"state: RUNNING\n".to_vec()]));
}
