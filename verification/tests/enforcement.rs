use canopy::enforcement::{GradeMap, HttpMethod, TouchLog, MAX_TRACKED_SESSIONS, TOUCH_INTERVAL};
use canopy::safety::SafetyMode;
use canopy::session::{idle_cutoff, presented_id, session_header, IDLE_GRACE, TIMESTAMP_MIN};

fn op(path: &str, method: HttpMethod, grade: Option<&str>) -> (String, HttpMethod, Option<String>) {
    (path.to_string(), method, grade.map(str::to_string))
}

#[test]
fn each_handler_s_declared_grade_is_read_back() {
    let grades = GradeMap::from_openapi(&vec![
        op("/clusters/list", HttpMethod::Post, Some("read-only")),
        op("/clusters/update", HttpMethod::Post, Some("write")),
        op("/clusters/remove", HttpMethod::Post, Some("danger")),
        op("/clusters/remove", HttpMethod::Delete, None),
    ]);
    assert_eq!(grades.len(), 3);
    assert!(!grades.is_empty());
    assert_eq!(grades.required(HttpMethod::Post, "/clusters/list"), Some(SafetyMode::ReadOnly));
    assert_eq!(grades.required(HttpMethod::Post, "/clusters/update"), Some(SafetyMode::Write));
    assert_eq!(grades.required(HttpMethod::Post, "/clusters/remove"), Some(SafetyMode::Danger));
    assert_eq!(grades.required(HttpMethod::Delete, "/clusters/remove"), None);
    assert_eq!(grades.required(HttpMethod::Get, "/nowhere"), None);
}

#[test]
fn a_grade_nothing_can_read_requires_danger() {
    let grades = GradeMap::from_openapi(&vec![op("/x", HttpMethod::Post, Some("reckless"))]);
    assert_eq!(grades.required(HttpMethod::Post, "/x"), Some(SafetyMode::Danger));
}

#[test]
fn a_path_is_known_by_any_of_its_graded_methods() {
    let grades = GradeMap::from_openapi(&vec![op("/x", HttpMethod::Post, Some("write"))]);
    assert!(grades.knows_path("/x"));
    assert!(!grades.knows_path("/y"));
    assert!(GradeMap::new().is_empty());
}

#[test]
fn a_later_declaration_for_one_method_and_path_replaces_the_earlier() {
    let grades = GradeMap::from_openapi(&vec![
        op("/x", HttpMethod::Post, Some("write")),
        op("/x", HttpMethod::Post, Some("danger")),
    ]);
    assert_eq!(grades.len(), 1);
    assert_eq!(grades.required(HttpMethod::Post, "/x"), Some(SafetyMode::Danger));
}

#[test]
fn a_session_s_last_seen_is_written_once_per_interval() {
    let mut log = TouchLog::new();
    let now: u128 = 1_000;
    assert!(log.due(7, "ada", now));
    log.wrote(7, "ada", now);
    assert!(!log.due(7, "ada", now + 1));
    assert!(!log.due(7, "ada", now + TOUCH_INTERVAL - 1));
    assert!(log.due(7, "ada", now + TOUCH_INTERVAL));
}

#[test]
fn another_login_s_write_does_not_take_the_owner_s_slot() {
    let mut log = TouchLog::new();
    log.wrote(7, "mallory", 0);
    assert!(log.due(7, "ada", 1));
    assert!(!log.due(7, "mallory", 1));
}

#[test]
fn the_log_starts_over_once_it_tracks_the_most_it_may() {
    let mut log = TouchLog::new();
    for id in 0..MAX_TRACKED_SESSIONS as u128 {
        log.wrote(id, "ada", 5);
    }
    assert!(!log.due(0, "ada", 5));
    log.wrote(99_999, "ada", 5);
    assert!(log.due(0, "ada", 5));
    assert!(!log.due(99_999, "ada", 5));
}

#[test]
fn the_session_header_names_a_uuid() {
    assert_eq!(session_header(), "x-canopy-session");
    let id = 0x67e5_5044_10b1_426f_9247_bb68_0e5f_e0c8u128;
    assert_eq!(presented_id(Some(" 67e55044-10b1-426f-9247-bb680e5fe0c8 ")), Some(id));
    assert_eq!(presented_id(Some("not a uuid")), None);
    assert_eq!(presented_id(None), None);
}

#[test]
fn a_session_gone_quiet_for_a_day_is_retired() {
    let now: i128 = 1_700_000_000_000_000_000;
    let cutoff = idle_cutoff(now).unwrap();
    assert_eq!(cutoff, now - IDLE_GRACE);
    assert_eq!(idle_cutoff(TIMESTAMP_MIN), None);
}
