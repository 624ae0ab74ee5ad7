use vislog::catalog::{CourseEntries, Requirement};
use vislog::config::{Cors, LogLevel};

fn cors(origins: &[&str]) -> Cors {
    Cors {
        origins: origins.iter().map(|origin| origin.to_string()).collect(),
    }
}

#[test]
fn origins_are_joined_with_comma_and_space() {
    assert_eq!(
        cors(&["https://a.example", "https://b.example", "https://c.example"]).origins_to_string(),
        "https://a.example, https://b.example, https://c.example"
    );
}

#[test]
fn one_origin_stands_alone() {
    assert_eq!(cors(&["https://a.example"]).origins_to_string(), "https://a.example");
}

#[test]
fn no_origin_gives_an_empty_string() {
    assert_eq!(cors(&[]).origins_to_string(), "");
}

#[test]
fn empty_origins_still_get_their_separators() {
    assert_eq!(cors(&["", "x", ""]).origins_to_string(), ", x, ");
}

#[test]
fn log_level_names() {
    assert_eq!(LogLevel::Trace.as_ref(), "trace");
    assert_eq!(LogLevel::Debug.as_ref(), "debug");
    assert_eq!(LogLevel::Info.as_ref(), "info");
    assert_eq!(LogLevel::Warn.as_ref(), "warn");
    assert_eq!(LogLevel::Error.as_ref(), "error");
}

#[test]
fn requirement_with_courses() {
    let requirement = Requirement::from_listing(
        Some("Major Courses:".to_string()),
        Some("narrative".to_string()),
        Some(CourseEntries(vec![])),
    );
    assert_eq!(
        requirement,
        Requirement::Courses {
            title: Some("Major Courses:".to_string()),
            courses: CourseEntries(vec![]),
        }
    );
}

#[test]
fn requirement_without_courses_is_a_label() {
    let requirement = Requirement::from_listing(None, Some("narrative".to_string()), None);
    assert_eq!(
        requirement,
        Requirement::Label {
            title: None,
            req_narrative: Some("narrative".to_string()),
        }
    );
}
