use file_monitor::events::{process_event, PdfEvent, RawEvent, RawKind};
use file_monitor::tracker::{FileMonitorApp, LogEntry, LogLevel};

fn classified(kind: RawKind, path: &str) -> (PdfEvent, String) {
    let event = RawEvent { paths: vec![path.to_string()], kind };
    process_event(event).expect("a classifiable event")
}

#[test]
fn new_tracker_starts_empty_with_notification_enabled() {
    let app = FileMonitorApp::new("/watched".to_string());
    assert_eq!(app.folder_path(), "/watched");
    assert_eq!(app.url, "/watched");
    assert!(app.email_notify);
    assert!(!app.show_log);
    assert!(app.files().is_empty());
    assert_eq!(app.log_len(), 0);
    assert!(app.status_of(&"/watched/report.pdf".to_string()).is_none());
}

#[test]
fn log_entries_keep_message_level_and_order() {
    let entry = LogEntry::new("hello".to_string(), LogLevel::Warning);
    assert_eq!(entry.message(), "hello");
    assert_eq!(entry.level(), LogLevel::Warning);

    let mut app = FileMonitorApp::new("/watched".to_string());
    app.add_log_message("one".to_string(), LogLevel::Info);
    app.add_log_message("two".to_string(), LogLevel::Error);
    assert_eq!(app.log_len(), 2);
    assert_eq!(app.log_entry(0).message(), "one");
    assert_eq!(app.log_entry(0).level(), LogLevel::Info);
    assert_eq!(app.log_entry(1).message(), "two");
    assert_eq!(app.log_entry(1).level(), LogLevel::Error);
}

#[test]
fn update_replaces_the_file_listing() {
    let mut app = FileMonitorApp::new("/watched".to_string());
    app.update(vec!["a.pdf".to_string(), "b.txt".to_string()]);
    assert_eq!(app.files(), &vec!["a.pdf".to_string(), "b.txt".to_string()]);
    app.update(vec!["c.pdf".to_string()]);
    assert_eq!(app.files(), &vec!["c.pdf".to_string()]);
}

#[test]
fn repeated_created_or_modified_keeps_one_entry() {
    let path = "/watched/report.pdf".to_string();
    let mut app = FileMonitorApp::new("/watched".to_string());
    let first = PdfEvent::Created(path.clone());
    let second = PdfEvent::Modified(path.clone());

    app.update_file_status(&first);
    app.update_file_status(&first);
    assert_eq!(app.status_of(&path), Some(&first));

    app.update_file_status(&second);
    app.update_file_status(&second);
    assert_eq!(app.status_of(&path), Some(&second));

    // One Deleted event clears the path entirely: there was a single entry.
    app.update_file_status(&PdfEvent::Deleted(path.clone()));
    assert!(app.status_of(&path).is_none());
}

#[test]
fn deleted_removes_present_paths_and_ignores_absent_ones() {
    let present = "/watched/report.pdf".to_string();
    let absent = "/watched/other.pdf".to_string();
    let mut app = FileMonitorApp::new("/watched".to_string());

    app.update_file_status(&PdfEvent::Created(present.clone()));
    assert!(app.status_of(&present).is_some());

    app.update_file_status(&PdfEvent::Deleted(present.clone()));
    assert!(app.status_of(&present).is_none());

    // Deleting an absent path is a quiet no-op.
    app.update_file_status(&PdfEvent::Deleted(absent.clone()));
    assert!(app.status_of(&absent).is_none());
}

#[test]
fn scenario_create_report_pdf() {
    let (event, message) = classified(RawKind::Create, "/watched/report.pdf");
    assert_eq!(event, PdfEvent::Created("/watched/report.pdf".to_string()));
    assert_eq!(message, "New PDF file created: report.pdf");

    let mut app = FileMonitorApp::new("/watched".to_string());
    app.update_file_status(&event);
    assert_eq!(
        app.status_of(&"/watched/report.pdf".to_string()),
        Some(&PdfEvent::Created("/watched/report.pdf".to_string()))
    );
}

#[test]
fn scenario_create_notes_txt_changes_nothing() {
    let event = RawEvent { paths: vec!["/watched/notes.txt".to_string()], kind: RawKind::Create };
    assert!(process_event(event).is_none());

    // Nothing was classified, so nothing reaches the tracker.
    let app = FileMonitorApp::new("/watched".to_string());
    assert!(app.status_of(&"/watched/notes.txt".to_string()).is_none());
    assert_eq!(app.log_len(), 0);
}

#[test]
fn scenario_full_lifecycle_of_one_file() {
    let mut app = FileMonitorApp::new("/watched".to_string());
    app.email_notify = false;

    for kind in [RawKind::Create, RawKind::Modify, RawKind::Remove] {
        let (event, message) = classified(kind, "/watched/report.pdf");
        let to_send = app.handle_event(&event, &message);
        assert!(to_send.is_none());
    }

    assert!(app.status_of(&"/watched/report.pdf".to_string()).is_none());
    assert_eq!(app.log_len(), 3);
    assert_eq!(app.log_entry(0).message(), "New PDF file created: report.pdf");
    assert_eq!(app.log_entry(0).level(), LogLevel::Info);
    assert_eq!(app.log_entry(1).message(), "PDF file modified: report.pdf");
    assert_eq!(app.log_entry(1).level(), LogLevel::Warning);
    assert_eq!(app.log_entry(2).message(), "PDF file deleted: report.pdf");
    assert_eq!(app.log_entry(2).level(), LogLevel::Error);
}

#[test]
fn scenario_notification_disabled_never_yields_a_side_effect() {
    let mut app = FileMonitorApp::new("/watched".to_string());
    app.email_notify = false;

    for i in 0..20 {
        let path = format!("/watched/file{}.pdf", i);
        let (event, message) = classified(RawKind::Create, &path);
        assert!(app.handle_event(&event, &message).is_none());
        // Tracking and logging still happen normally.
        assert!(app.status_of(&path).is_some());
    }
    assert_eq!(app.log_len(), 20);
}

#[test]
fn notification_enabled_yields_the_display_message() {
    let mut app = FileMonitorApp::new("/watched".to_string());
    assert!(app.email_notify);

    let (event, message) = classified(RawKind::Create, "/watched/report.pdf");
    let to_send = app.handle_event(&event, &message);
    assert_eq!(to_send.as_deref(), Some("New PDF file created: report.pdf"));
}

#[test]
fn email_outcomes_are_logged_without_touching_statuses() {
    let mut app = FileMonitorApp::new("/watched".to_string());
    let (event, message) = classified(RawKind::Create, "/watched/report.pdf");
    let line = app.handle_event(&event, &message).expect("notification enabled");

    app.record_email_outcome(&line, Ok(()));
    app.record_email_outcome(&line, Err("relay refused".to_string()));

    assert_eq!(app.log_len(), 3);
    assert_eq!(app.log_entry(1).message(), "Email sent: New PDF file created: report.pdf");
    assert_eq!(app.log_entry(1).level(), LogLevel::Info);
    assert_eq!(app.log_entry(2).message(), "Failed to send email: relay refused");
    assert_eq!(app.log_entry(2).level(), LogLevel::Error);

    // A failed side effect leaves the status map as it was.
    assert_eq!(
        app.status_of(&"/watched/report.pdf".to_string()),
        Some(&PdfEvent::Created("/watched/report.pdf".to_string()))
    );
}
