//! Typed degree requirements reconstructed from flat catalog course listings.
//!
//! A catalog lists the courses of a requirement as a flat array of records, in which
//! narrative records named `And`, `Or` or left blank mark where groups of courses begin, end
//! and nest. This library classifies the records ([`classify`]), reads the listing with a
//! state machine ([`grouping`] states what the machine does, [`parser`] does it) and builds
//! the tree of course entries ([`catalog`]). [`laws`] and [`listing`] hold what is proved of
//! every tree so built.

pub mod catalog;
pub mod classify;
pub mod config;
pub mod credits;
pub mod grouping;
pub mod guid;
pub mod laws;
pub mod listing;
pub mod parser;
pub mod text;

pub use catalog::{
    Course, CourseDetails, CourseEntries, CourseEntry, CourseUnit, Credits, Label, Requirement,
};
pub use classify::{MalformedEntry, ParsedCourseEntry, RawCourseEntry};
pub use credits::{parse_course_credits, CreditsError};
pub use grouping::{Operator, ParseCoursesState};
pub use guid::{hex_to_num, GUIDParsingError, GUID};
pub use parser::{CourseParser, CoursesParser, ParseCoursesError, ParsingState};
