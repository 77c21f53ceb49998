//! Diagnostics, retention and recording policy.

use listener::config::schema::{FileRotationPolicy, OverwritePolicy};
use listener::diagnostics::{sort_by_time, Diagnostic, DiagnosticLog, DiagnosticSeverity};
use listener::model::timing::{ChunkTime, Clock};
use listener::record::{effective_overwrite, is_filesystem_safe};
use listener::retention::CountBounded;

#[test]
fn record_routes_by_severity() {
    let mut log = DiagnosticLog::new(None, None, None);
    log.record(Diagnostic::event("started"));
    log.record(Diagnostic::warning("checksum invalid"));
    log.record(Diagnostic::warning("queue overflow"));
    log.record(Diagnostic::error("port not found"));

    assert_eq!(log.events().len(), 1);
    assert_eq!(log.warnings().len(), 2);
    assert_eq!(log.errors().len(), 1);
}

#[test]
fn per_type_limits_evict_oldest() {
    let mut log = DiagnosticLog::new(None, Some(1), None);
    log.record(Diagnostic::warning("first"));
    log.record(Diagnostic::warning("second"));
    let warnings: Vec<&str> = log.warnings().iter().map(|d| d.message.as_str()).collect();
    assert_eq!(warnings, vec!["second"]);
}

#[test]
fn clear_discards_all() {
    let mut log = DiagnosticLog::new(None, None, None);
    log.record(Diagnostic::event("e"));
    log.record(Diagnostic::error("x"));
    log.clear();
    assert_eq!(log.events().len(), 0);
    assert_eq!(log.errors().len(), 0);
}

#[test]
fn severity_orders_low_to_high() {
    assert!(DiagnosticSeverity::Event < DiagnosticSeverity::Warning);
    assert!(DiagnosticSeverity::Warning < DiagnosticSeverity::Error);
}

#[test]
fn diagnostics_carry_a_timestamp() {
    let t0 = 0;
    let t1 = t0 + 250_000_000;
    let a = Diagnostic::at(DiagnosticSeverity::Event, "first", t0);
    let b = Diagnostic::at(DiagnosticSeverity::Error, "second", t1);
    assert!(a.timestamp < b.timestamp);

    let fresh = Diagnostic::event("now");
    assert!(fresh.timestamp <= ChunkTime::now(&Clock::start()).wall_clock);
}

#[test]
fn records_of_one_time_keep_their_order() {
    let at = |message: &str, t: i128| Diagnostic::at(DiagnosticSeverity::Event, message, t);
    let sorted = sort_by_time(vec![at("c", 3), at("a", 1), at("b", 1), at("d", 0)]);
    let messages: Vec<&str> = sorted.iter().map(|d| d.message.as_str()).collect();
    assert_eq!(messages, ["d", "a", "b", "c"]);
}

#[test]
fn records_within_a_microsecond_are_ordered_by_time() {
    let sorted = sort_by_time(vec![
        Diagnostic::at(DiagnosticSeverity::Event, "later", 1_000_002),
        Diagnostic::at(DiagnosticSeverity::Error, "earlier", 1_000_001),
    ]);
    assert_eq!(sorted[0].message, "earlier");
    assert_eq!(sorted[1].message, "later");
}

#[test]
fn each_record_moves_the_revision() {
    let mut log = DiagnosticLog::new(Some(1), None, None);
    let before = log.revision();
    log.record(Diagnostic::event("a"));
    log.record(Diagnostic::event("b"));
    assert_eq!(log.revision(), before + 2);
    assert_eq!(log.events().len(), 1);
}

#[test]
fn a_seeded_log_keeps_what_was_there_before() {
    let mut log = DiagnosticLog::new(None, None, Some(2));
    log.seed(vec![
        Diagnostic::error("1"),
        Diagnostic::error("2"),
        Diagnostic::error("3"),
        Diagnostic::warning("w"),
    ]);
    let errors: Vec<&str> = log.errors().iter().map(|d| d.message.as_str()).collect();
    assert_eq!(errors, ["2", "3"]);
    assert_eq!(log.warnings().len(), 1);
    assert!(log.events().is_empty());
}

#[test]
fn a_bounded_list_keeps_the_newest() {
    let mut list = CountBounded::new(2);
    for n in 0..5 {
        list.push(n);
    }
    assert_eq!(list.len(), 2);
    assert_eq!((*list.get(0), *list.get(1)), (3, 4));
    list.clear();
    assert_eq!(list.len(), 0);
}

#[test]
fn a_rotating_recording_never_refuses() {
    for policy in [
        OverwritePolicy::Refuse,
        OverwritePolicy::Overwrite,
        OverwritePolicy::AppendIfExists,
    ] {
        assert_eq!(
            effective_overwrite(policy, FileRotationPolicy::NoRotation),
            policy
        );
        assert_ne!(
            effective_overwrite(policy, FileRotationPolicy::Daily),
            OverwritePolicy::Refuse
        );
    }
    assert_eq!(
        effective_overwrite(OverwritePolicy::Refuse, FileRotationPolicy::Hourly),
        OverwritePolicy::AppendIfExists
    );
}

#[test]
fn names_with_reserved_characters_are_no_file_names() {
    assert!(is_filesystem_safe("GPS_1"));
    assert!(!is_filesystem_safe(""));
    assert!(!is_filesystem_safe("a/b"));
    assert!(!is_filesystem_safe("a:b"));
}
