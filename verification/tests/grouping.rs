use vislog::catalog::{Course, CourseEntries, CourseEntry, Label};
use vislog::classify::{MalformedEntry, ParsedCourseEntry, RawCourseEntry};
use vislog::grouping::{Operator, ParseCoursesState};
use vislog::guid::GUID;
use vislog::parser::{CourseParser, CoursesParser, ParseCoursesError, ParsingState};

const GUID_TEXT: &str = "{C7AD875E-1344-4D9B-A883-32E748890908}";

fn guid() -> GUID {
    GUID::from_bytes([
        0xC7, 0xAD, 0x87, 0x5E, 0x13, 0x44, 0x4D, 0x9B, 0xA8, 0x83, 0x32, 0xE7, 0x48, 0x89, 0x09,
        0x08,
    ])
}

/// The record of the course token `C(id)`.
fn c(id: &str) -> RawCourseEntry {
    RawCourseEntry {
        url: format!("https://catalog.example/{}", id),
        path: format!("/catalog/{}", id),
        guid: GUID_TEXT.to_string(),
        name: Some(id.to_string()),
        number: Some("101".to_string()),
        subject_name: None,
        subject_code: Some("CSC".to_string()),
        credits: "3".to_string(),
        is_narrative: "False".to_string(),
    }
}

/// The record of the label token `L(id)`.
fn l(id: &str) -> RawCourseEntry {
    narrative(id)
}

fn narrative(name: &str) -> RawCourseEntry {
    RawCourseEntry {
        url: format!("https://catalog.example/{}", name),
        path: String::new(),
        guid: GUID_TEXT.to_string(),
        name: Some(name.to_string()),
        number: None,
        subject_name: None,
        subject_code: None,
        credits: "0".to_string(),
        is_narrative: "True".to_string(),
    }
}

/// The record of a blank.
fn b() -> RawCourseEntry {
    narrative("")
}

/// The record of an `And` marker.
fn and() -> RawCourseEntry {
    narrative("And")
}

/// The record of an `Or` marker.
fn or() -> RawCourseEntry {
    narrative("Or")
}

/// The leaf `Course(id)`.
fn course(id: &str) -> CourseEntry {
    CourseEntry::Course(Course {
        url: format!("https://catalog.example/{}", id),
        path: format!("/catalog/{}", id),
        guid: guid(),
        name: Some(id.to_string()),
        number: 101,
        subject_name: None,
        subject_code: "CSC".to_string(),
        credits: (3, None),
    })
}

/// The leaf `Label(id)`.
fn label(id: &str) -> CourseEntry {
    CourseEntry::Label(Label {
        url: format!("https://catalog.example/{}", id),
        guid: guid(),
        name: id.to_string(),
        number: None,
        subject_code: None,
        credits: (0, None),
    })
}

fn all_of(children: Vec<CourseEntry>) -> CourseEntry {
    CourseEntry::And(CourseEntries(children))
}

fn one_of(children: Vec<CourseEntry>) -> CourseEntry {
    CourseEntry::Or(CourseEntries(children))
}

fn parse(records: Vec<RawCourseEntry>) -> Result<CourseEntries, ParseCoursesError> {
    CoursesParser::new(records).parse()
}

fn tree(entries: Vec<CourseEntry>) -> Result<CourseEntries, ParseCoursesError> {
    Ok(CourseEntries(entries))
}

fn invalid(entry: ParsedCourseEntry, state: ParseCoursesState) -> Result<CourseEntries, ParseCoursesError> {
    Err(ParseCoursesError::InvalidEntry(entry, state))
}

fn invalid_finish(state: ParseCoursesState) -> Result<CourseEntries, ParseCoursesError> {
    Err(ParseCoursesError::InvalidFinish(state))
}

/// The leaves of a tree, from left to right.
fn leaves(entries: &CourseEntries, into: &mut Vec<CourseEntry>) {
    for entry in entries.0.iter() {
        match entry {
            CourseEntry::And(children) | CourseEntry::Or(children) => leaves(children, into),
            leaf => into.push(leaf.clone()),
        }
    }
}

/// The number of levels of groups in a tree.
fn depth(entries: &CourseEntries) -> usize {
    entries
        .0
        .iter()
        .map(|entry| match entry {
            CourseEntry::And(children) | CourseEntry::Or(children) => 1 + depth(children),
            _ => 0,
        })
        .max()
        .unwrap_or(0)
}

#[test]
fn free_entries_stay_at_the_top() {
    assert_eq!(parse(vec![c("a"), c("b")]), tree(vec![course("a"), course("b")]));
}

#[test]
fn single_course_is_one_leaf() {
    assert_eq!(parse(vec![c("a")]), tree(vec![course("a")]));
}

#[test]
fn labels_are_leaves_like_courses() {
    assert_eq!(
        parse(vec![l("Select one of:"), c("a"), l("or else"), c("b")]),
        tree(vec![label("Select one of:"), course("a"), label("or else"), course("b")])
    );
    assert_eq!(
        parse(vec![b(), l("x"), or(), c("a")]),
        tree(vec![one_of(vec![label("x"), course("a")])])
    );
}

#[test]
fn empty_listing_ends_in_the_initial_state() {
    assert_eq!(parse(vec![]), invalid_finish(ParseCoursesState::InitialState));
}

#[test]
fn group_without_closing_blank_is_emitted() {
    assert_eq!(
        parse(vec![b(), c("a"), and(), c("b")]),
        tree(vec![all_of(vec![course("a"), course("b")])])
    );
}

#[test]
fn group_with_closing_blank_is_emitted() {
    assert_eq!(
        parse(vec![b(), c("a"), and(), c("b"), b()]),
        tree(vec![all_of(vec![course("a"), course("b")])])
    );
    assert_eq!(
        parse(vec![c("x"), b(), c("a"), or(), c("b"), b()]),
        tree(vec![course("x"), one_of(vec![course("a"), course("b")])])
    );
}

#[test]
fn group_between_free_entries() {
    assert_eq!(
        parse(vec![c("x"), b(), c("a"), or(), c("b"), b(), c("y")]),
        tree(vec![course("x"), one_of(vec![course("a"), course("b")]), course("y")])
    );
}

#[test]
fn chained_operators_make_one_flat_group() {
    assert_eq!(
        parse(vec![b(), c("a"), and(), c("b"), and(), c("c"), and(), c("d")]),
        tree(vec![all_of(vec![course("a"), course("b"), course("c"), course("d")])])
    );
    assert_eq!(
        parse(vec![b(), c("a"), c("b"), or(), c("c"), c("d"), or(), c("e")]),
        tree(vec![one_of(vec![course("a"), course("b"), course("c"), course("d"), course("e")])])
    );
}

#[test]
fn marker_after_free_entries_groups_them() {
    assert_eq!(
        parse(vec![c("a"), c("b"), and(), c("c")]),
        tree(vec![all_of(vec![course("a"), course("b"), course("c")])])
    );
}

#[test]
fn another_operator_in_a_flat_group_is_invalid() {
    assert_eq!(
        parse(vec![b(), c("a"), and(), c("b"), or(), c("c")]),
        invalid(ParsedCourseEntry::Or, ParseCoursesState::ReadCourseWithOp)
    );
}

#[test]
fn two_groups_in_a_row() {
    assert_eq!(
        parse(vec![b(), c("a"), and(), c("b"), b(), c("p"), or(), c("q")]),
        tree(vec![
            all_of(vec![course("a"), course("b")]),
            one_of(vec![course("p"), course("q")]),
        ])
    );
}

#[test]
fn nest_of_three_sub_groups() {
    assert_eq!(
        parse(vec![
            b(), c("a"), and(), c("b"), b(),
            and(),
            b(), c("p"), and(), c("q"), b(),
            and(),
            b(), c("r"), and(), c("s"),
        ]),
        tree(vec![all_of(vec![
            all_of(vec![course("a"), course("b")]),
            all_of(vec![course("p"), course("q")]),
            all_of(vec![course("r"), course("s")]),
        ])])
    );
}

#[test]
fn nest_ending_with_a_blank() {
    assert_eq!(
        parse(vec![b(), c("a"), or(), c("b"), b(), or(), b(), c("p"), or(), c("q"), c("r"), b()]),
        tree(vec![one_of(vec![
            one_of(vec![course("a"), course("b")]),
            one_of(vec![course("p"), course("q"), course("r")]),
        ])])
    );
}

#[test]
fn free_entries_after_a_nest() {
    assert_eq!(
        parse(vec![
            c("x"), b(), c("a"), and(), c("b"), b(), and(), b(), c("p"), and(), c("q"), b(),
            c("y"), c("z"),
        ]),
        tree(vec![
            course("x"),
            all_of(vec![
                all_of(vec![course("a"), course("b")]),
                all_of(vec![course("p"), course("q")]),
            ]),
            course("y"),
            course("z"),
        ])
    );
}

#[test]
fn sub_group_under_another_operator_is_double_nesting() {
    assert_eq!(
        parse(vec![
            b(), c("a"), and(), c("b"), b(),
            and(),
            b(), c("p"), or(), c("q"), b(),
            and(),
            b(), c("r"), and(), c("s"),
        ]),
        Err(ParseCoursesError::DoubleNesting)
    );
}

#[test]
fn nest_marker_under_another_operator_is_double_nesting() {
    assert_eq!(
        parse(vec![b(), c("a"), and(), c("b"), b(), or()]),
        Err(ParseCoursesError::DoubleNesting)
    );
    assert_eq!(
        parse(vec![
            b(), c("a"), and(), c("b"), b(), and(), b(), c("p"), and(), c("q"), b(), or(),
        ]),
        Err(ParseCoursesError::DoubleNesting)
    );
}

#[test]
fn two_blanks_after_a_group_are_invalid() {
    assert_eq!(
        parse(vec![
            b(), c("a"), and(), c("b"), b(), b(), c("p"), or(), c("q"), b(), c("r"), and(),
            c("s"),
        ]),
        invalid(ParsedCourseEntry::Blank, ParseCoursesState::TerminatingBlankRead)
    );
    assert_eq!(
        parse(vec![
            b(), c("a"), and(), c("b"), b(), b(), c("p"), and(), c("q"), b(), c("r"), and(),
            c("s"),
        ]),
        invalid(ParsedCourseEntry::Blank, ParseCoursesState::TerminatingBlankRead)
    );
}

#[test]
fn two_consecutive_blanks_are_invalid() {
    assert_eq!(
        parse(vec![b(), b()]),
        invalid(ParsedCourseEntry::Blank, ParseCoursesState::InitialBlankRead)
    );
    assert_eq!(
        parse(vec![c("x"), b(), b(), c("a")]),
        invalid(ParsedCourseEntry::Blank, ParseCoursesState::InitialBlankRead)
    );
    assert_eq!(
        parse(vec![b(), c("a"), and(), c("b"), b(), and(), b(), b()]),
        invalid(ParsedCourseEntry::Blank, ParseCoursesState::NestedInitialBlankRead)
    );
    assert_eq!(
        parse(vec![b(), c("a"), and(), c("b"), b(), and(), b(), c("p"), and(), c("q"), b(), b()]),
        invalid(ParsedCourseEntry::Blank, ParseCoursesState::NestedTerminatingBlankRead)
    );
}

#[test]
fn operator_at_the_start_is_invalid() {
    assert_eq!(
        parse(vec![and(), c("a")]),
        invalid(ParsedCourseEntry::And, ParseCoursesState::InitialState)
    );
    assert_eq!(
        parse(vec![or()]),
        invalid(ParsedCourseEntry::Or, ParseCoursesState::InitialState)
    );
}

#[test]
fn operator_never_followed_is_an_invalid_finish() {
    assert_eq!(
        parse(vec![c("a"), and()]),
        invalid_finish(ParseCoursesState::OperatorRead)
    );
}

#[test]
fn listings_may_not_end_in_the_middle_of_a_group() {
    assert_eq!(parse(vec![b()]), invalid_finish(ParseCoursesState::InitialBlankRead));
    assert_eq!(
        parse(vec![b(), c("a")]),
        invalid_finish(ParseCoursesState::ReadCourseNoOp)
    );
    assert_eq!(
        parse(vec![b(), c("a"), and(), c("b"), b(), and()]),
        invalid_finish(ParseCoursesState::NestingOperatorRead)
    );
    assert_eq!(
        parse(vec![b(), c("a"), and(), c("b"), b(), and(), b()]),
        invalid_finish(ParseCoursesState::NestedInitialBlankRead)
    );
    assert_eq!(
        parse(vec![b(), c("a"), and(), c("b"), b(), and(), b(), c("p")]),
        invalid_finish(ParseCoursesState::NestedReadCourseNoOp)
    );
    assert_eq!(
        parse(vec![b(), c("a"), and(), c("b"), b(), and(), b(), c("p"), and()]),
        invalid_finish(ParseCoursesState::NestedOperatorRead)
    );
}

#[test]
fn entries_that_may_not_stand_where_they_do() {
    assert_eq!(
        parse(vec![b(), and()]),
        invalid(ParsedCourseEntry::And, ParseCoursesState::InitialBlankRead)
    );
    assert_eq!(
        parse(vec![b(), c("a"), b()]),
        invalid(ParsedCourseEntry::Blank, ParseCoursesState::ReadCourseNoOp)
    );
    assert_eq!(
        parse(vec![c("a"), or(), or()]),
        invalid(ParsedCourseEntry::Or, ParseCoursesState::OperatorRead)
    );
    assert_eq!(
        parse(vec![c("a"), or(), b()]),
        invalid(ParsedCourseEntry::Blank, ParseCoursesState::OperatorRead)
    );
    assert_eq!(
        parse(vec![b(), c("a"), and(), c("b"), b(), and(), and()]),
        invalid(ParsedCourseEntry::And, ParseCoursesState::NestingOperatorRead)
    );
    assert_eq!(
        parse(vec![b(), c("a"), and(), c("b"), b(), and(), b(), or()]),
        invalid(ParsedCourseEntry::Or, ParseCoursesState::NestedInitialBlankRead)
    );
    assert_eq!(
        parse(vec![b(), c("a"), and(), c("b"), b(), and(), b(), c("p"), b()]),
        invalid(ParsedCourseEntry::Blank, ParseCoursesState::NestedReadCourseNoOp)
    );
    assert_eq!(
        parse(vec![b(), c("a"), and(), c("b"), b(), and(), b(), c("p"), and(), and()]),
        invalid(ParsedCourseEntry::And, ParseCoursesState::NestedOperatorRead)
    );
    assert_eq!(
        parse(vec![b(), c("a"), and(), c("b"), b(), and(), b(), c("p"), and(), c("q"), and()]),
        invalid(ParsedCourseEntry::And, ParseCoursesState::NestedReadCourseWithOp)
    );
}

#[test]
fn leaf_right_after_a_nest_marker_is_invalid() {
    let expected = match ParsedCourseEntry::try_from(c("p")) {
        Ok(entry) => entry,
        Err(e) => panic!("{:?}", e),
    };
    assert_eq!(
        parse(vec![b(), c("a"), and(), c("b"), b(), and(), c("p")]),
        invalid(expected, ParseCoursesState::NestingOperatorRead)
    );
    let expected = ParsedCourseEntry::try_from(l("p")).unwrap();
    assert_eq!(
        parse(vec![b(), c("a"), and(), c("b"), b(), and(), l("p")]),
        invalid(expected, ParseCoursesState::NestingOperatorRead)
    );
}

#[test]
fn malformed_record_ends_the_parse() {
    let mut broken = c("a");
    broken.number = None;
    assert_eq!(
        parse(vec![c("x"), broken.clone(), c("y")]),
        Err(ParseCoursesError::MalformedEntry(MalformedEntry::MissingNumber))
    );
    // the first fault in the order of the listing is the one reported
    assert_eq!(
        parse(vec![and(), broken.clone()]),
        invalid(ParsedCourseEntry::And, ParseCoursesState::InitialState)
    );
    assert_eq!(
        parse(vec![broken, and()]),
        Err(ParseCoursesError::MalformedEntry(MalformedEntry::MissingNumber))
    );
}

#[test]
fn parsing_twice_gives_the_same() {
    let listing = || vec![c("x"), b(), c("a"), or(), c("b"), b(), or(), b(), l("p"), or(), c("q")];
    assert_eq!(parse(listing()), parse(listing()));
    assert!(parse(listing()).is_ok());
}

#[test]
fn parser_can_be_asked_once() {
    let mut parser = CourseParser::new(vec![c("a"), c("b")]);
    assert_eq!(parser.parse(), tree(vec![course("a"), course("b")]));
    assert_eq!(parser.parse(), Err(ParseCoursesError::ParserExhausted));
    assert_eq!(parser.parse(), Err(ParseCoursesError::ParserExhausted));
    let mut failing = CourseParser::new(vec![and()]);
    assert_eq!(
        failing.parse(),
        invalid(ParsedCourseEntry::And, ParseCoursesState::InitialState)
    );
    assert_eq!(failing.parse(), Err(ParseCoursesError::ParserExhausted));
}

#[test]
fn both_parsers_agree() {
    let listing = || vec![b(), c("a"), and(), c("b"), b(), and(), b(), c("p"), and(), c("q")];
    assert_eq!(CourseParser::new(listing()).parse(), CoursesParser::new(listing()).parse());
}

#[test]
fn entries_can_be_fed_one_by_one() {
    let mut parser = CoursesParser::new(vec![]);
    for record in [b(), c("a"), and(), c("b")] {
        let entry = ParsedCourseEntry::try_from(record).unwrap();
        assert_eq!(parser.parse_entry(entry), Ok(()));
    }
    assert_eq!(parser.finish(), tree(vec![all_of(vec![course("a"), course("b")])]));
}

#[test]
fn a_refused_entry_leaves_the_parser_where_it_was() {
    let mut parser = CoursesParser::new(vec![c("b")]);
    assert_eq!(parser.parse_entry(ParsedCourseEntry::Blank), Ok(()));
    assert_eq!(
        parser.parse_entry(ParsedCourseEntry::Blank),
        Err(ParseCoursesError::InvalidEntry(
            ParsedCourseEntry::Blank,
            ParseCoursesState::InitialBlankRead
        ))
    );
    assert_eq!(parser.parse_entry(ParsedCourseEntry::try_from(c("a")).unwrap()), Ok(()));
    assert_eq!(parser.parse_entry(ParsedCourseEntry::Or), Ok(()));
    // the records given at the start are read after what was fed by hand
    assert_eq!(parser.parse(), tree(vec![one_of(vec![course("a"), course("b")])]));
}

#[test]
fn the_machine_by_hand() {
    let mut memory = ParsingState::initial();
    let mut state = ParseCoursesState::init();
    assert_eq!(state, ParseCoursesState::InitialState);
    for (record, expected) in [
        (c("x"), ParseCoursesState::CourseDetection),
        (b(), ParseCoursesState::InitialBlankRead),
        (c("a"), ParseCoursesState::ReadCourseNoOp),
        (or(), ParseCoursesState::OperatorRead),
        (c("b"), ParseCoursesState::ReadCourseWithOp),
        (b(), ParseCoursesState::TerminatingBlankRead),
        (or(), ParseCoursesState::NestingOperatorRead),
        (b(), ParseCoursesState::NestedInitialBlankRead),
        (c("p"), ParseCoursesState::NestedReadCourseNoOp),
        (or(), ParseCoursesState::NestedOperatorRead),
        (c("q"), ParseCoursesState::NestedReadCourseWithOp),
        (b(), ParseCoursesState::NestedTerminatingBlankRead),
    ] {
        let entry = ParsedCourseEntry::try_from(record).unwrap();
        state = state.parse(&mut memory, entry).unwrap();
        assert_eq!(state, expected);
    }
    assert_eq!(memory.operator, Some(Operator::Or));
    assert_eq!(memory.course_buffer, vec![course("p"), course("q")]);
    assert_eq!(
        memory.entries,
        vec![course("x"), one_of(vec![one_of(vec![course("a"), course("b")])])]
    );
    assert_eq!(
        state.finish(memory),
        tree(vec![
            course("x"),
            one_of(vec![
                one_of(vec![course("a"), course("b")]),
                one_of(vec![course("p"), course("q")]),
            ]),
        ])
    );
}

#[test]
fn state_names() {
    assert_eq!(ParseCoursesState::InitialState.name(), "InitialState");
    assert_eq!(ParseCoursesState::CourseDetection.name(), "CourseDetection");
    assert_eq!(ParseCoursesState::InitialBlankRead.name(), "InitialBlankRead");
    assert_eq!(ParseCoursesState::ReadCourseNoOp.name(), "ReadCourseNoOp");
    assert_eq!(ParseCoursesState::OperatorRead.name(), "OperatorRead");
    assert_eq!(ParseCoursesState::ReadCourseWithOp.name(), "ReadCourseWithOp");
    assert_eq!(ParseCoursesState::TerminatingBlankRead.name(), "TerminatingBlankRead");
    assert_eq!(ParseCoursesState::NestingOperatorRead.name(), "NestingOperatorRead");
    assert_eq!(ParseCoursesState::NestedInitialBlankRead.name(), "NestedInitialBlankRead");
    assert_eq!(ParseCoursesState::NestedReadCourseNoOp.name(), "NestedReadCourseNoOp");
    assert_eq!(ParseCoursesState::NestedOperatorRead.name(), "NestedOperatorRead");
    assert_eq!(ParseCoursesState::NestedReadCourseWithOp.name(), "NestedReadCourseWithOp");
    assert_eq!(
        ParseCoursesState::NestedTerminatingBlankRead.name(),
        "NestedTerminatingBlankRead"
    );
}

#[test]
fn accepted_trees_keep_their_shape_and_their_leaves() {
    let listings: Vec<Vec<RawCourseEntry>> = vec![
        vec![c("a")],
        vec![c("a"), l("m"), c("b")],
        vec![b(), c("a"), and(), c("b")],
        vec![c("x"), b(), c("a"), or(), l("m"), b(), c("y")],
        vec![
            c("x"), b(), c("a"), and(), c("b"), b(), and(), b(), c("p"), c("pp"), and(), c("q"),
            b(), and(), b(), l("r"), and(), c("s"), b(), c("y"), b(), c("u"), or(), c("v"),
        ],
    ];
    for listing in listings {
        let mut expected_leaves = Vec::new();
        for record in listing.iter() {
            match ParsedCourseEntry::try_from(record.clone()).unwrap() {
                ParsedCourseEntry::Course(course) => expected_leaves.push(CourseEntry::Course(course)),
                ParsedCourseEntry::Label(label) => expected_leaves.push(CourseEntry::Label(label)),
                _ => {}
            }
        }
        let tree = parse(listing).unwrap();
        let mut found = Vec::new();
        leaves(&tree, &mut found);
        assert_eq!(found, expected_leaves);
        assert!(depth(&tree) <= 2);
        for entry in tree.0.iter() {
            if let CourseEntry::And(children) | CourseEntry::Or(children) = entry {
                assert!(!children.is_empty());
                for child in children.0.iter() {
                    match (entry, child) {
                        (CourseEntry::And(_), CourseEntry::Or(_))
                        | (CourseEntry::Or(_), CourseEntry::And(_)) => {
                            panic!("a sub-group under another operator")
                        }
                        (_, CourseEntry::And(inner)) | (_, CourseEntry::Or(inner)) => {
                            assert!(!inner.is_empty())
                        }
                        _ => {}
                    }
                }
            }
        }
    }
}

#[test]
fn copies_of_a_tree_are_equal_to_it() {
    let tree = parse(vec![
        c("x"), b(), c("a"), and(), c("b"), b(), and(), b(), l("p"), and(), c("q"),
    ])
    .unwrap();
    assert_eq!(tree.clone(), tree);
    assert_eq!(tree.len(), 2);
}

#[test]
fn errors_in_words() {
    assert_eq!(
        ParseCoursesError::InvalidFinish(ParseCoursesState::OperatorRead).message(),
        "parse entries terminated at an unexpected state: OperatorRead"
    );
    assert_eq!(
        ParseCoursesError::DoubleNesting.message(),
        "double nesting detected and is not supported"
    );
    assert_eq!(
        ParseCoursesError::InvalidEntry(ParsedCourseEntry::Blank, ParseCoursesState::InitialBlankRead)
            .message(),
        "invalid entry found: Blank"
    );
    assert_eq!(
        ParseCoursesError::ParserExhausted.message(),
        "parser has exhausted all input"
    );
    assert_eq!(
        ParseCoursesError::MalformedEntry(MalformedEntry::MissingSubjectCode).message(),
        "an error occurred when parsing: missing subject code"
    );
}

#[test]
fn every_blank_opens_closes_or_separates() {
    let listing = vec![
        c("x"), b(), c("a"), and(), c("b"), b(), c("y"), b(), c("p"), or(), c("q"), b(), or(),
        b(), c("r"), or(), c("s"), b(), or(), b(), c("t"), or(), c("u"), b(),
    ];
    let blanks = listing
        .iter()
        .filter(|record| record.is_narrative == "True" && record.name.as_deref() == Some(""))
        .count();
    let mut memory = ParsingState::initial();
    let mut state = ParseCoursesState::init();
    let (mut opened, mut closed, mut separators) = (0, 0, 0);
    for record in listing {
        state = state
            .parse(&mut memory, ParsedCourseEntry::try_from(record).unwrap())
            .unwrap();
        match state {
            ParseCoursesState::InitialBlankRead => opened += 1,
            ParseCoursesState::TerminatingBlankRead => closed += 1,
            ParseCoursesState::NestedInitialBlankRead
            | ParseCoursesState::NestedTerminatingBlankRead => separators += 1,
            _ => {}
        }
    }
    assert_eq!(blanks, 8);
    assert_eq!((opened, closed, separators), (2, 2, 4));
    assert_eq!(blanks, opened + closed + separators);
    assert!(state.finish(memory).is_ok());
}

#[test]
fn blanks_of_a_listing_without_a_closed_group() {
    // no group at the top level is closed: as many blanks as groups opened
    let listing = vec![c("x"), b(), c("a"), and(), c("b")];
    let mut memory = ParsingState::initial();
    let mut state = ParseCoursesState::init();
    let mut opened = 0;
    for record in listing {
        state = state
            .parse(&mut memory, ParsedCourseEntry::try_from(record).unwrap())
            .unwrap();
        if state == ParseCoursesState::InitialBlankRead {
            opened += 1;
        }
    }
    assert_eq!(opened, 1);
}

fn entry(record: RawCourseEntry) -> ParsedCourseEntry {
    ParsedCourseEntry::try_from(record).unwrap()
}

fn parse_entries(entries: Vec<ParsedCourseEntry>) -> Result<CourseEntries, ParseCoursesError> {
    let mut parser = CoursesParser::new(vec![]);
    for entry in entries {
        parser.parse_entry(entry)?;
    }
    parser.finish()
}

#[test]
fn tree_written_as_a_listing() {
    let tree = CourseEntries(vec![
        course("x"),
        label("m"),
        all_of(vec![course("a"), course("b"), course("c")]),
        one_of(vec![course("d"), label("e")]),
        course("y"),
        one_of(vec![
            one_of(vec![course("p"), course("q")]),
            one_of(vec![course("r"), course("s"), course("t")]),
            one_of(vec![label("u"), course("v")]),
        ]),
        course("z"),
    ]);
    let expected: Vec<ParsedCourseEntry> = vec![
        c("x"), l("m"),
        b(), c("a"), and(), c("b"), c("c"),
        b(), c("d"), or(), l("e"),
        b(), c("y"),
        b(), c("p"), or(), c("q"), b(), or(), b(), c("r"), or(), c("s"), c("t"), b(), or(), b(),
        l("u"), or(), c("v"),
        b(), c("z"),
    ]
    .into_iter()
    .map(entry)
    .collect();
    assert!(tree.is_built());
    assert_eq!(tree.to_listing(), Some(expected));
    assert_eq!(parse_entries(tree.to_listing().unwrap()), Ok(tree));
}

#[test]
fn listing_of_a_parsed_tree_parses_back() {
    let listings: Vec<Vec<RawCourseEntry>> = vec![
        vec![c("a")],
        vec![c("a"), l("m"), c("b")],
        vec![b(), c("a"), and(), c("b")],
        vec![b(), c("a"), and(), c("b"), b()],
        vec![c("a"), c("b"), and(), c("c"), and(), c("d")],
        vec![c("x"), b(), c("a"), or(), l("m"), b(), c("y")],
        vec![b(), c("a"), and(), c("b"), b(), c("p"), or(), c("q"), b(), c("y")],
        vec![b(), c("a"), or(), c("b"), b(), or(), b(), c("p"), or(), c("q"), c("r"), b()],
        vec![
            c("x"), b(), c("a"), and(), c("b"), b(), and(), b(), c("p"), c("pp"), and(), c("q"),
            b(), and(), b(), l("r"), and(), c("s"), b(), c("y"), b(), c("u"), or(), c("v"),
        ],
    ];
    for listing in listings {
        let tree = parse(listing).unwrap();
        let written = tree.to_listing().unwrap();
        assert_eq!(parse_entries(written.clone()), Ok(tree.clone()));
        // writing is the same whichever of the listings of a tree was read
        assert_eq!(parse_entries(written.clone()).unwrap().to_listing(), Some(written));
    }
}

#[test]
fn empty_tree_has_an_empty_listing() {
    assert_eq!(CourseEntries(vec![]).to_listing(), Some(vec![]));
}

#[test]
fn trees_of_another_shape_have_no_listing() {
    let shapes = vec![
        // a group of one leaf
        vec![all_of(vec![course("a")])],
        // a group without a child
        vec![course("x"), one_of(vec![])],
        // a nest of one sub-group
        vec![all_of(vec![all_of(vec![course("a"), course("b")])])],
        // a nest with a sub-group under another operator
        vec![all_of(vec![
            all_of(vec![course("a"), course("b")]),
            one_of(vec![course("p"), course("q")]),
        ])],
        // a nest with a leaf among its sub-groups
        vec![all_of(vec![
            all_of(vec![course("a"), course("b")]),
            course("p"),
            all_of(vec![course("r"), course("s")]),
        ])],
        // a group among the leaves of a group
        vec![all_of(vec![course("p"), all_of(vec![course("a"), course("b")])])],
        // three levels of groups
        vec![one_of(vec![
            one_of(vec![course("a"), course("b")]),
            one_of(vec![course("c"), one_of(vec![course("d"), course("e")])]),
        ])],
    ];
    for shape in shapes {
        let tree = CourseEntries(shape);
        assert!(!tree.is_built());
        assert_eq!(tree.to_listing(), None);
    }
}
