use vislog::catalog::{Course, CourseEntries, CourseEntry, Label};
use vislog::classify::{single_entry, MalformedEntry, ParsedCourseEntry, RawCourseEntry};
use vislog::credits::CreditsError;
use vislog::guid::{GUIDParsingError, GUID};

const GUID_TEXT: &str = "{C7AD875E-1344-4D9B-A883-32E748890908}";

fn guid() -> GUID {
    GUID::from_bytes([
        0xC7, 0xAD, 0x87, 0x5E, 0x13, 0x44, 0x4D, 0x9B, 0xA8, 0x83, 0x32, 0xE7, 0x48, 0x89, 0x09,
        0x08,
    ])
}

fn raw_course() -> RawCourseEntry {
    RawCourseEntry {
        url: "https://catalog.example/csc-255".to_string(),
        path: "/catalog/csc-255".to_string(),
        guid: GUID_TEXT.to_string(),
        name: Some("Programming in C++".to_string()),
        number: Some("255".to_string()),
        subject_name: Some("Computer Science".to_string()),
        subject_code: Some("CSC".to_string()),
        credits: "3".to_string(),
        is_narrative: "False".to_string(),
    }
}

fn raw_narrative(name: &str) -> RawCourseEntry {
    RawCourseEntry {
        url: "https://catalog.example/narrative".to_string(),
        path: "/catalog/narrative".to_string(),
        guid: GUID_TEXT.to_string(),
        name: Some(name.to_string()),
        number: None,
        subject_name: None,
        subject_code: None,
        credits: "0".to_string(),
        is_narrative: "True".to_string(),
    }
}

fn broken_narrative(name: &str) -> RawCourseEntry {
    RawCourseEntry {
        url: String::new(),
        path: String::new(),
        guid: "not a guid".to_string(),
        name: Some(name.to_string()),
        number: Some("x".to_string()),
        subject_name: None,
        subject_code: None,
        credits: "many".to_string(),
        is_narrative: "True".to_string(),
    }
}

#[test]
fn classifies_a_course() {
    let expected = Course {
        url: "https://catalog.example/csc-255".to_string(),
        path: "/catalog/csc-255".to_string(),
        guid: guid(),
        name: Some("Programming in C++".to_string()),
        number: 255,
        subject_name: Some("Computer Science".to_string()),
        subject_code: "CSC".to_string(),
        credits: (3, None),
    };
    assert_eq!(
        ParsedCourseEntry::try_from(raw_course()),
        Ok(ParsedCourseEntry::Course(expected))
    );
}

#[test]
fn classifies_a_label() {
    let mut raw = raw_narrative("Select one of:");
    raw.number = Some("3xx".to_string());
    raw.subject_code = Some("CSC".to_string());
    raw.credits = "1.0-3.0".to_string();
    let expected = Label {
        url: "https://catalog.example/narrative".to_string(),
        guid: guid(),
        name: "Select one of:".to_string(),
        number: Some("3xx".to_string()),
        subject_code: Some("CSC".to_string()),
        credits: (1, Some(3)),
    };
    assert_eq!(
        ParsedCourseEntry::try_from(raw),
        Ok(ParsedCourseEntry::Label(expected))
    );
}

#[test]
fn classifies_markers_whatever_the_other_fields_hold() {
    assert_eq!(
        ParsedCourseEntry::try_from(broken_narrative("And")),
        Ok(ParsedCourseEntry::And)
    );
    assert_eq!(
        ParsedCourseEntry::try_from(broken_narrative("Or")),
        Ok(ParsedCourseEntry::Or)
    );
    assert_eq!(
        ParsedCourseEntry::try_from(broken_narrative("")),
        Ok(ParsedCourseEntry::Blank)
    );
}

#[test]
fn marker_names_are_matched_exactly() {
    for name in ["and", "AND", "or", " ", "And ", "Blank"] {
        match ParsedCourseEntry::try_from(raw_narrative(name)) {
            Ok(ParsedCourseEntry::Label(label)) => assert_eq!(label.name, name),
            other => panic!("expected a label, got {:?}", other),
        }
    }
}

#[test]
fn a_record_named_like_a_marker_but_not_narrative_is_a_course() {
    let mut raw = raw_course();
    raw.name = Some("And".to_string());
    match ParsedCourseEntry::try_from(raw) {
        Ok(ParsedCourseEntry::Course(course)) => assert_eq!(course.name.as_deref(), Some("And")),
        other => panic!("expected a course, got {:?}", other),
    }
}

#[test]
fn a_narrative_record_without_a_name_is_a_course() {
    let mut raw = raw_course();
    raw.name = None;
    raw.is_narrative = "True".to_string();
    match ParsedCourseEntry::try_from(raw) {
        Ok(ParsedCourseEntry::Course(course)) => {
            assert_eq!(course.name, None);
            assert_eq!(course.number, 255);
        }
        other => panic!("expected a course, got {:?}", other),
    }
}

#[test]
fn the_narrative_flag_is_matched_exactly() {
    let mut raw = raw_narrative("And");
    raw.is_narrative = "true".to_string();
    assert_eq!(
        ParsedCourseEntry::try_from(raw),
        Err(MalformedEntry::MissingNumber)
    );
}

#[test]
fn course_without_number_is_malformed() {
    let mut raw = raw_course();
    raw.number = None;
    assert_eq!(
        ParsedCourseEntry::try_from(raw),
        Err(MalformedEntry::MissingNumber)
    );
}

#[test]
fn course_without_subject_code_is_malformed() {
    let mut raw = raw_course();
    raw.subject_code = None;
    assert_eq!(
        ParsedCourseEntry::try_from(raw),
        Err(MalformedEntry::MissingSubjectCode)
    );
}

#[test]
fn course_number_must_be_an_integer() {
    for number in ["", "12a", "1.5", "-3", "4294967296", " 12"] {
        let mut raw = raw_course();
        raw.number = Some(number.to_string());
        assert_eq!(
            ParsedCourseEntry::try_from(raw),
            Err(MalformedEntry::InvalidNumber),
            "number {:?}",
            number
        );
    }
    let mut raw = raw_course();
    raw.number = Some("4294967295".to_string());
    match ParsedCourseEntry::try_from(raw) {
        Ok(ParsedCourseEntry::Course(course)) => assert_eq!(course.number, u32::MAX),
        other => panic!("expected a course, got {:?}", other),
    }
}

#[test]
fn guid_must_stand_between_braces() {
    for text in [
        "",
        "{",
        "C7AD875E-1344-4D9B-A883-32E748890908",
        "{C7AD875E-1344-4D9B-A883-32E748890908",
        "C7AD875E-1344-4D9B-A883-32E748890908}",
        "(C7AD875E-1344-4D9B-A883-32E748890908)",
    ] {
        let mut raw = raw_course();
        raw.guid = text.to_string();
        assert_eq!(
            ParsedCourseEntry::try_from(raw),
            Err(MalformedEntry::UnbracedGuid),
            "guid {:?}",
            text
        );
    }
}

#[test]
fn guid_errors_are_passed_on() {
    let mut raw = raw_course();
    raw.guid = "{}".to_string();
    assert_eq!(
        ParsedCourseEntry::try_from(raw),
        Err(MalformedEntry::Guid(GUIDParsingError::TooShort))
    );
    let mut raw = raw_narrative("Select one of:");
    raw.guid = "{C7AD875E-1344-4D9B-A883-32E748890908-0000}".to_string();
    assert_eq!(
        ParsedCourseEntry::try_from(raw),
        Err(MalformedEntry::Guid(GUIDParsingError::TooLong))
    );
    let mut raw = raw_course();
    raw.guid = "{C7AD875E-1344-4D9B-A883-32E74889090G}".to_string();
    assert_eq!(
        ParsedCourseEntry::try_from(raw),
        Err(MalformedEntry::Guid(GUIDParsingError::InvalidCharacter))
    );
}

#[test]
fn credits_errors_are_passed_on() {
    let mut raw = raw_course();
    raw.credits = "".to_string();
    assert_eq!(
        ParsedCourseEntry::try_from(raw),
        Err(MalformedEntry::Credits(CreditsError::InvalidNumber))
    );
    let mut raw = raw_narrative("Select one of:");
    raw.credits = "1-x".to_string();
    assert_eq!(
        ParsedCourseEntry::try_from(raw),
        Err(MalformedEntry::Credits(CreditsError::InvalidUpperBound))
    );
}

#[test]
fn credits_must_be_in_order() {
    let mut raw = raw_course();
    raw.credits = "3.0-1.0".to_string();
    assert_eq!(
        ParsedCourseEntry::try_from(raw),
        Err(MalformedEntry::InvertedCredits)
    );
    let mut raw = raw_course();
    raw.credits = "3.0-3.9".to_string();
    match ParsedCourseEntry::try_from(raw) {
        Ok(ParsedCourseEntry::Course(course)) => assert_eq!(course.credits, (3, Some(3))),
        other => panic!("expected a course, got {:?}", other),
    }
}

#[test]
fn the_first_fault_of_a_course_is_reported() {
    let mut raw = raw_course();
    raw.guid = "{}".to_string();
    raw.number = None;
    raw.credits = "x".to_string();
    raw.subject_code = None;
    assert_eq!(
        ParsedCourseEntry::try_from(raw),
        Err(MalformedEntry::Guid(GUIDParsingError::TooShort))
    );
    let mut raw = raw_course();
    raw.number = None;
    raw.credits = "x".to_string();
    raw.subject_code = None;
    assert_eq!(
        ParsedCourseEntry::try_from(raw),
        Err(MalformedEntry::MissingNumber)
    );
    let mut raw = raw_course();
    raw.credits = "x".to_string();
    raw.subject_code = None;
    assert_eq!(
        ParsedCourseEntry::try_from(raw),
        Err(MalformedEntry::Credits(CreditsError::InvalidNumber))
    );
}

#[test]
fn entry_names() {
    assert_eq!(ParsedCourseEntry::And.name(), "And");
    assert_eq!(ParsedCourseEntry::Or.name(), "Or");
    assert_eq!(ParsedCourseEntry::Blank.name(), "Blank");
    let course = ParsedCourseEntry::try_from(raw_course()).unwrap();
    assert_eq!(course.name(), "Course");
    let label = ParsedCourseEntry::try_from(raw_narrative("Select one of:")).unwrap();
    assert_eq!(label.name(), "Label");
}

#[test]
fn single_record_is_one_course() {
    let entries = single_entry(raw_course()).unwrap();
    assert_eq!(entries.len(), 1);
    match entries.get(0) {
        Some(CourseEntry::Course(course)) => {
            assert_eq!(course.subject_code, "CSC");
            assert_eq!(course.number, 255);
            assert_eq!(course.guid, guid());
        }
        other => panic!("expected a course, got {:?}", other),
    }
    assert!(entries.get(1).is_none());
}

#[test]
fn single_narrative_record_is_a_label_even_under_a_marker_name() {
    let entries = single_entry(raw_narrative("And")).unwrap();
    match entries.get(0) {
        Some(CourseEntry::Label(label)) => assert_eq!(label.name, "And"),
        other => panic!("expected a label, got {:?}", other),
    }
}

#[test]
fn single_record_faults() {
    let mut raw = raw_course();
    raw.is_narrative = "Yes".to_string();
    assert_eq!(single_entry(raw), Err(MalformedEntry::InvalidNarrativeFlag));
    let mut raw = raw_narrative("x");
    raw.name = None;
    assert_eq!(single_entry(raw), Err(MalformedEntry::MissingName));
    let mut raw = raw_course();
    raw.subject_code = None;
    assert_eq!(single_entry(raw), Err(MalformedEntry::MissingSubjectCode));
}

#[test]
fn entries_of_one() {
    let course = match ParsedCourseEntry::try_from(raw_course()).unwrap() {
        ParsedCourseEntry::Course(course) => course,
        other => panic!("expected a course, got {:?}", other),
    };
    let entries = CourseEntries::single(CourseEntry::Course(course.clone()));
    assert_eq!(entries, CourseEntries(vec![CourseEntry::Course(course)]));
    assert!(!entries.is_empty());
    assert!(CourseEntries(vec![]).is_empty());
}

#[test]
fn reasons_in_words() {
    assert_eq!(MalformedEntry::MissingNumber.message(), "missing course number");
    assert_eq!(
        MalformedEntry::Guid(GUIDParsingError::TooLong).message(),
        "String provided is too long"
    );
    assert_eq!(
        MalformedEntry::Credits(CreditsError::InvalidUpperBound).message(),
        "upper bound of credits is not a number"
    );
    assert_eq!(
        MalformedEntry::UnbracedGuid.message(),
        "identifier is not enclosed in braces"
    );
    assert_eq!(
        MalformedEntry::InvertedCredits.message(),
        "upper bound of credits is below the lower bound"
    );
}
