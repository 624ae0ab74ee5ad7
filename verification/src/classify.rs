//! From the records of a catalog listing to classified entries: markers, labels and courses.

use crate::catalog::{
    credits_in_order, opt_view, Course, CourseEntries, CourseEntry, CourseView, Credits,
    EntryView, Label, LabelView,
};
use crate::credits::{parse_course_credits, parse_credits, CreditsError};
use crate::guid::{parse_guid, GUIDParsingError, GUID};
use crate::text::{chars_of, parse_integer, read_integer, str_eq};
use vstd::prelude::*;

verus! {

/// One record of a catalog listing, with every field as the catalog sends it: a string.
#[derive(Debug, Clone, PartialEq, Eq)]
pub struct RawCourseEntry {
    pub url: String,
    pub path: String,
    /// The identifier, between `{` and `}`.
    pub guid: String,
    pub name: Option<String>,
    pub number: Option<String>,
    pub subject_name: Option<String>,
    pub subject_code: Option<String>,
    pub credits: String,
    /// `"True"` for a marker or a label.
    pub is_narrative: String,
}

/// What a [`RawCourseEntry`] holds, as mathematical values.
pub struct RawEntryView {
    pub url: Seq<char>,
    pub path: Seq<char>,
    pub guid: Seq<char>,
    pub name: Option<Seq<char>>,
    pub number: Option<Seq<char>>,
    pub subject_name: Option<Seq<char>>,
    pub subject_code: Option<Seq<char>>,
    pub credits: Seq<char>,
    pub is_narrative: Seq<char>,
}

impl View for RawCourseEntry {
    type V = RawEntryView;

    open spec fn view(&self) -> RawEntryView {
        RawEntryView {
            url: self.url@,
            path: self.path@,
            guid: self.guid@,
            name: opt_view(self.name),
            number: opt_view(self.number),
            subject_name: opt_view(self.subject_name),
            subject_code: opt_view(self.subject_code),
            credits: self.credits@,
            is_narrative: self.is_narrative@,
        }
    }
}

/// Why a record is neither a marker, a label nor a course.
#[derive(Debug, Clone, Copy, PartialEq, Eq)]
pub enum MalformedEntry {
    /// The identifier does not stand between `{` and `}`.
    UnbracedGuid,
    /// What stands between the braces is no identifier.
    Guid(GUIDParsingError),
    /// A course without a number.
    MissingNumber,
    /// A course whose number is not an integer that fits 32 bits.
    InvalidNumber,
    /// The credit hours cannot be read.
    Credits(CreditsError),
    /// The upper bound of the credit hours is below the lower.
    InvertedCredits,
    /// A course without a subject code.
    MissingSubjectCode,
    /// A single listed entry whose narrative flag is neither `"True"` nor `"False"`.
    InvalidNarrativeFlag,
    /// A single listed narrative entry without a name.
    MissingName,
}

/// A classified entry: one of the three markers, or a leaf.
#[derive(Debug, Clone, PartialEq, Eq)]
pub enum ParsedCourseEntry {
    And,
    Or,
    Blank,
    Label(Label),
    Course(Course),
}

/// What a [`ParsedCourseEntry`] holds, as a mathematical value.
pub enum Token {
    And,
    Or,
    Blank,
    Label(LabelView),
    Course(CourseView),
}

impl Token {
    /// Whether the token is a label or a course.
    pub open spec fn is_leaf(self) -> bool {
        self is Label || self is Course
    }

    /// The leaf of the tree that a label or a course token becomes.
    pub open spec fn leaf(self) -> EntryView
        recommends
            self.is_leaf(),
    {
        match self {
            Token::Label(label) => EntryView::Label(label),
            Token::Course(course) => EntryView::Course(course),
            _ => arbitrary(),
        }
    }

    /// The name of the token's kind.
    pub open spec fn name(self) -> Seq<char> {
        match self {
            Token::And => "And"@,
            Token::Or => "Or"@,
            Token::Blank => "Blank"@,
            Token::Label(_) => "Label"@,
            Token::Course(_) => "Course"@,
        }
    }
}

impl View for ParsedCourseEntry {
    type V = Token;

    open spec fn view(&self) -> Token {
        match self {
            ParsedCourseEntry::And => Token::And,
            ParsedCourseEntry::Or => Token::Or,
            ParsedCourseEntry::Blank => Token::Blank,
            ParsedCourseEntry::Label(label) => Token::Label(label@),
            ParsedCourseEntry::Course(course) => Token::Course(course@),
        }
    }
}

/// The identifier that stands in `s` between `{` and `}`.
pub open spec fn parse_braced_guid(s: Seq<char>) -> Result<Seq<u8>, MalformedEntry> {
    if s.len() >= 2 && s.first() == '{' && s.last() == '}' {
        match parse_guid(s.subrange(1, s.len() - 1)) {
            Ok(bytes) => Ok(bytes),
            Err(e) => Err(MalformedEntry::Guid(e)),
        }
    } else {
        Err(MalformedEntry::UnbracedGuid)
    }
}

/// The credit hours that `s` writes, the lower bound first.
pub open spec fn parse_ordered_credits(s: Seq<char>) -> Result<Credits, MalformedEntry> {
    match parse_credits(s) {
        Ok(credits) => if credits_in_order(credits) {
            Ok(credits)
        } else {
            Err(MalformedEntry::InvertedCredits)
        },
        Err(e) => Err(MalformedEntry::Credits(e)),
    }
}

/// The number of a course: an integer that fits 32 bits.
pub open spec fn parse_course_number(number: Option<Seq<char>>) -> Result<u32, MalformedEntry> {
    match number {
        None => Err(MalformedEntry::MissingNumber),
        Some(s) => match parse_integer(s) {
            Some(n) => if n <= u32::MAX {
                Ok(n as u32)
            } else {
                Err(MalformedEntry::InvalidNumber)
            },
            None => Err(MalformedEntry::InvalidNumber),
        },
    }
}

/// The label that the record `raw` is, given its name. The identifier is read first, then
/// the credit hours.
pub open spec fn classify_label(raw: RawEntryView, name: Seq<char>) -> Result<
    LabelView,
    MalformedEntry,
> {
    match parse_braced_guid(raw.guid) {
        Err(e) => Err(e),
        Ok(guid) => match parse_ordered_credits(raw.credits) {
            Err(e) => Err(e),
            Ok(credits) => Ok(
                LabelView {
                    url: raw.url,
                    guid,
                    name,
                    number: raw.number,
                    subject_code: raw.subject_code,
                    credits,
                },
            ),
        },
    }
}

/// The course that the record `raw` is. The identifier is read first, then the number, the
/// credit hours and the subject code.
pub open spec fn classify_course(raw: RawEntryView) -> Result<CourseView, MalformedEntry> {
    match parse_braced_guid(raw.guid) {
        Err(e) => Err(e),
        Ok(guid) => match parse_course_number(raw.number) {
            Err(e) => Err(e),
            Ok(number) => match parse_ordered_credits(raw.credits) {
                Err(e) => Err(e),
                Ok(credits) => match raw.subject_code {
                    None => Err(MalformedEntry::MissingSubjectCode),
                    Some(subject_code) => Ok(
                        CourseView {
                            url: raw.url,
                            path: raw.path,
                            guid,
                            name: raw.name,
                            number,
                            subject_name: raw.subject_name,
                            subject_code,
                            credits,
                        },
                    ),
                },
            },
        },
    }
}

/// Whether the record `raw` is narrative: flagged `"True"`, and with a name.
pub open spec fn is_narrative(raw: RawEntryView) -> bool {
    raw.name is Some && raw.is_narrative == "True"@
}

/// What the record `raw` is classified as.
///
/// A narrative record named `"And"`, `"Or"` or with an empty name is that marker, whatever
/// its other fields hold; with any other name it is a label. Every other record is a course.
pub open spec fn classify(raw: RawEntryView) -> Result<Token, MalformedEntry> {
    if is_narrative(raw) {
        let name = raw.name->0;
        if name == "And"@ {
            Ok(Token::And)
        } else if name == "Or"@ {
            Ok(Token::Or)
        } else if name.len() == 0 {
            Ok(Token::Blank)
        } else {
            match classify_label(raw, name) {
                Ok(label) => Ok(Token::Label(label)),
                Err(e) => Err(e),
            }
        }
    } else {
        match classify_course(raw) {
            Ok(course) => Ok(Token::Course(course)),
            Err(e) => Err(e),
        }
    }
}

/// The one entry of a requirement whose listing is a single record rather than an array: a
/// label where the record is flagged `"True"`, a course where it is flagged `"False"`. No
/// name makes such a record a marker.
pub open spec fn classify_single(raw: RawEntryView) -> Result<EntryView, MalformedEntry> {
    if raw.is_narrative == "True"@ {
        match raw.name {
            None => Err(MalformedEntry::MissingName),
            Some(name) => match classify_label(raw, name) {
                Ok(label) => Ok(EntryView::Label(label)),
                Err(e) => Err(e),
            },
        }
    } else if raw.is_narrative == "False"@ {
        match classify_course(raw) {
            Ok(course) => Ok(EntryView::Course(course)),
            Err(e) => Err(e),
        }
    } else {
        Err(MalformedEntry::InvalidNarrativeFlag)
    }
}

/// Reads the identifier that stands between `{` and `}`.
pub fn read_braced_guid(s: &str) -> (r: Result<GUID, MalformedEntry>)
    ensures
        match parse_braced_guid(s@) {
            Ok(bytes) => r is Ok && r->Ok_0@ == bytes,
            Err(e) => r == Err::<GUID, MalformedEntry>(e),
        },
{
    let chars = chars_of(s);
    let n: usize = chars.len();
    if n < 2 || chars[0] != '{' || chars[n - 1] != '}' {
        return Err(MalformedEntry::UnbracedGuid);
    }
    match GUID::from_chars(&chars, 1, n - 1) {
        Ok(guid) => Ok(guid),
        Err(e) => Err(MalformedEntry::Guid(e)),
    }
}

/// Reads credit hours and holds them to their order.
pub fn read_ordered_credits(s: &str) -> (r: Result<Credits, MalformedEntry>)
    ensures
        r == parse_ordered_credits(s@),
        r matches Ok(credits) ==> credits_in_order(credits),
{
    match parse_course_credits(s) {
        Ok(credits) => {
            let in_order = match credits.1 {
                Some(upper) => credits.0 <= upper,
                None => true,
            };
            if in_order {
                Ok(credits)
            } else {
                Err(MalformedEntry::InvertedCredits)
            }
        },
        Err(e) => Err(MalformedEntry::Credits(e)),
    }
}

/// Reads the number of a course.
pub fn read_course_number(number: &Option<String>) -> (r: Result<u32, MalformedEntry>)
    ensures
        r == parse_course_number(opt_view(*number)),
{
    match number {
        None => Err(MalformedEntry::MissingNumber),
        Some(s) => {
            let chars = chars_of(s.as_str());
            proof {
                assert(chars@.subrange(0, chars@.len() as int) == chars@);
            }
            match read_integer(&chars, 0, chars.len(), u32::MAX) {
                Some(n) => Ok(n),
                None => Err(MalformedEntry::InvalidNumber),
            }
        },
    }
}

/// Makes the label that the record `entry` is, under the name `name`.
pub fn make_label(entry: RawCourseEntry, name: String) -> (r: Result<Label, MalformedEntry>)
    ensures
        match classify_label(entry@, name@) {
            Ok(label) => r is Ok && r->Ok_0@ == label,
            Err(e) => r == Err::<Label, MalformedEntry>(e),
        },
        r matches Ok(label) ==> credits_in_order(label.credits),
{
    let guid = match read_braced_guid(entry.guid.as_str()) {
        Ok(guid) => guid,
        Err(e) => {
            return Err(e);
        },
    };
    let credits = match read_ordered_credits(entry.credits.as_str()) {
        Ok(credits) => credits,
        Err(e) => {
            return Err(e);
        },
    };
    Ok(
        Label {
            url: entry.url,
            guid,
            name,
            number: entry.number,
            subject_code: entry.subject_code,
            credits,
        },
    )
}

/// Makes the course that the record `entry` is.
pub fn make_course(entry: RawCourseEntry) -> (r: Result<Course, MalformedEntry>)
    ensures
        match classify_course(entry@) {
            Ok(course) => r is Ok && r->Ok_0@ == course,
            Err(e) => r == Err::<Course, MalformedEntry>(e),
        },
        r matches Ok(course) ==> credits_in_order(course.credits),
{
    let guid = match read_braced_guid(entry.guid.as_str()) {
        Ok(guid) => guid,
        Err(e) => {
            return Err(e);
        },
    };
    let number = match read_course_number(&entry.number) {
        Ok(number) => number,
        Err(e) => {
            return Err(e);
        },
    };
    let credits = match read_ordered_credits(entry.credits.as_str()) {
        Ok(credits) => credits,
        Err(e) => {
            return Err(e);
        },
    };
    let subject_code = match entry.subject_code {
        Some(subject_code) => subject_code,
        None => {
            return Err(MalformedEntry::MissingSubjectCode);
        },
    };
    Ok(
        Course {
            url: entry.url,
            path: entry.path,
            guid,
            name: entry.name,
            number,
            subject_name: entry.subject_name,
            subject_code,
            credits,
        },
    )
}

impl ParsedCourseEntry {
    /// The name of the entry's kind.
    pub fn name(&self) -> (r: &'static str)
        ensures
            r@ == self@.name(),
    {
        match self {
            ParsedCourseEntry::And => "And",
            ParsedCourseEntry::Or => "Or",
            ParsedCourseEntry::Blank => "Blank",
            ParsedCourseEntry::Label(_) => "Label",
            ParsedCourseEntry::Course(_) => "Course",
        }
    }

    /// Classifies one record of a listing.
    pub fn try_from(entry: RawCourseEntry) -> (r: Result<ParsedCourseEntry, MalformedEntry>)
        ensures
            match classify(entry@) {
                Ok(token) => r is Ok && r->Ok_0@ == token,
                Err(e) => r == Err::<ParsedCourseEntry, MalformedEntry>(e),
            },
    {
        let mut entry = entry;
        if str_eq(entry.is_narrative.as_str(), "True") {
            match entry.name.take() {
                Some(name) => {
                    if str_eq(name.as_str(), "And") {
                        return Ok(ParsedCourseEntry::And);
                    }
                    if str_eq(name.as_str(), "Or") {
                        return Ok(ParsedCourseEntry::Or);
                    }
                    if name.as_str().is_empty() {
                        return Ok(ParsedCourseEntry::Blank);
                    }
                    return match make_label(entry, name) {
                        Ok(label) => Ok(ParsedCourseEntry::Label(label)),
                        Err(e) => Err(e),
                    };
                },
                None => {},
            }
        }
        match make_course(entry) {
            Ok(course) => Ok(ParsedCourseEntry::Course(course)),
            Err(e) => Err(e),
        }
    }
}

/// Reads the single record that a requirement lists in place of an array, as the entries of
/// that requirement.
pub fn single_entry(entry: RawCourseEntry) -> (r: Result<CourseEntries, MalformedEntry>)
    ensures
        match classify_single(entry@) {
            Ok(leaf) => r is Ok && r->Ok_0@ == seq![leaf],
            Err(e) => r == Err::<CourseEntries, MalformedEntry>(e),
        },
{
    let mut entry = entry;
    if str_eq(entry.is_narrative.as_str(), "True") {
        match entry.name.take() {
            Some(name) => match make_label(entry, name) {
                Ok(label) => Ok(CourseEntries::single(CourseEntry::Label(label))),
                Err(e) => Err(e),
            },
            None => Err(MalformedEntry::MissingName),
        }
    } else if str_eq(entry.is_narrative.as_str(), "False") {
        match make_course(entry) {
            Ok(course) => Ok(CourseEntries::single(CourseEntry::Course(course))),
            Err(e) => Err(e),
        }
    } else {
        Err(MalformedEntry::InvalidNarrativeFlag)
    }
}

impl MalformedEntry {
    /// The reason in words.
    pub open spec fn text(self) -> Seq<char> {
        match self {
            MalformedEntry::UnbracedGuid => "identifier is not enclosed in braces"@,
            MalformedEntry::Guid(e) => e.text(),
            MalformedEntry::MissingNumber => "missing course number"@,
            MalformedEntry::InvalidNumber => "course number is not an integer"@,
            MalformedEntry::Credits(e) => e.text(),
            MalformedEntry::InvertedCredits => "upper bound of credits is below the lower bound"@,
            MalformedEntry::MissingSubjectCode => "missing subject code"@,
            MalformedEntry::InvalidNarrativeFlag => "narrative flag is neither True nor False"@,
            MalformedEntry::MissingName => "missing name of a narrative entry"@,
        }
    }

    /// The reason in words.
    pub fn message(&self) -> (r: &'static str)
        ensures
            r@ == self.text(),
    {
        match self {
            MalformedEntry::UnbracedGuid => "identifier is not enclosed in braces",
            MalformedEntry::Guid(e) => e.message(),
            MalformedEntry::MissingNumber => "missing course number",
            MalformedEntry::InvalidNumber => "course number is not an integer",
            MalformedEntry::Credits(e) => e.message(),
            MalformedEntry::InvertedCredits => "upper bound of credits is below the lower bound",
            MalformedEntry::MissingSubjectCode => "missing subject code",
            MalformedEntry::InvalidNarrativeFlag => "narrative flag is neither True nor False",
            MalformedEntry::MissingName => "missing name of a narrative entry",
        }
    }
}

/// A narrative record named `And`, `Or` or with an empty name is that marker, whatever its
/// other fields hold.
pub proof fn lemma_markers_whatever_else(raw: RawEntryView)
    requires
        raw.is_narrative == "True"@,
        raw.name is Some,
    ensures
        raw.name->0 == "And"@ ==> classify(raw) == Ok::<Token, MalformedEntry>(Token::And),
        raw.name->0 == "Or"@ ==> classify(raw) == Ok::<Token, MalformedEntry>(Token::Or),
        raw.name->0.len() == 0 ==> classify(raw) == Ok::<Token, MalformedEntry>(Token::Blank),
{
    reveal_strlit("And");
    reveal_strlit("Or");
    assert("And"@.len() == 3 && "Or"@.len() == 2);
}

/// A narrative record with any other name is a label of that name, if it is anything.
pub proof fn lemma_named_narrative_is_label(raw: RawEntryView)
    requires
        raw.is_narrative == "True"@,
        raw.name is Some,
        raw.name->0 != "And"@,
        raw.name->0 != "Or"@,
        raw.name->0.len() > 0,
        classify(raw) is Ok,
    ensures
        classify(raw)->Ok_0 is Label,
        classify(raw)->Ok_0->Label_0.name == raw.name->0,
{
}

/// A record flagged `"False"` without a number or without a subject code is malformed.
pub proof fn lemma_course_needs_number_and_subject(raw: RawEntryView)
    requires
        raw.is_narrative == "False"@,
        raw.number is None || raw.subject_code is None,
    ensures
        classify(raw) is Err,
{
    reveal_strlit("True");
    reveal_strlit("False");
    assert("True"@.len() != "False"@.len());
}

/// The labels and courses that records are classified as have their credit hours in order.
pub proof fn lemma_classified_credits_in_order(raw: RawEntryView)
    requires
        classify(raw) is Ok,
    ensures
        classify(raw)->Ok_0 matches Token::Label(label) ==> credits_in_order(label.credits),
        classify(raw)->Ok_0 matches Token::Course(course) ==> credits_in_order(course.credits),
{
}

} // verus!
