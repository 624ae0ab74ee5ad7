//! The catalog's entities: courses, labels and the tree of course entries of a requirement.

use crate::guid::GUID;
use vstd::prelude::*;

verus! {

/// A range of credit hours: the lower bound and, where the catalog gives one, the upper.
pub type Credits = (u8, Option<u8>);

/// Whether the upper bound of `credits`, if there is one, is at least the lower bound.
pub open spec fn credits_in_order(credits: Credits) -> bool {
    credits.1 matches Some(upper) ==> credits.0 <= upper
}

/// The characters of an optional string.
pub open spec fn opt_view(s: Option<String>) -> Option<Seq<char>> {
    match s {
        Some(s) => Some(s@),
        None => None,
    }
}

/// A copy of an optional string.
pub fn clone_opt_string(s: &Option<String>) -> (r: Option<String>)
    ensures
        opt_view(r) == opt_view(*s),
{
    match s {
        Some(s) => Some(s.clone()),
        None => None,
    }
}

/// One course as the catalog lists it under a requirement.
#[derive(Debug, PartialEq, Eq)]
pub struct Course {
    pub url: String,
    pub path: String,
    pub guid: GUID,
    /// Absent for placeholder entries.
    pub name: Option<String>,
    pub number: u32,
    pub subject_name: Option<String>,
    pub subject_code: String,
    pub credits: Credits,
}

/// What a [`Course`] holds, as mathematical values.
pub struct CourseView {
    pub url: Seq<char>,
    pub path: Seq<char>,
    pub guid: Seq<u8>,
    pub name: Option<Seq<char>>,
    pub number: u32,
    pub subject_name: Option<Seq<char>>,
    pub subject_code: Seq<char>,
    pub credits: Credits,
}

impl View for Course {
    type V = CourseView;

    open spec fn view(&self) -> CourseView {
        CourseView {
            url: self.url@,
            path: self.path@,
            guid: self.guid@,
            name: opt_view(self.name),
            number: self.number,
            subject_name: opt_view(self.subject_name),
            subject_code: self.subject_code@,
            credits: self.credits,
        }
    }
}

impl Clone for Course {
    fn clone(&self) -> (r: Self)
        ensures
            r@ == self@,
    {
        Course {
            url: self.url.clone(),
            path: self.path.clone(),
            guid: self.guid,
            name: clone_opt_string(&self.name),
            number: self.number,
            subject_name: clone_opt_string(&self.subject_name),
            subject_code: self.subject_code.clone(),
            credits: (self.credits.0, self.credits.1),
        }
    }
}

/// A line of narrative that stands among the courses of a requirement.
#[derive(Debug, PartialEq, Eq)]
pub struct Label {
    pub url: String,
    pub guid: GUID,
    pub name: String,
    pub number: Option<String>,
    pub subject_code: Option<String>,
    pub credits: Credits,
}

/// What a [`Label`] holds, as mathematical values.
pub struct LabelView {
    pub url: Seq<char>,
    pub guid: Seq<u8>,
    pub name: Seq<char>,
    pub number: Option<Seq<char>>,
    pub subject_code: Option<Seq<char>>,
    pub credits: Credits,
}

impl View for Label {
    type V = LabelView;

    open spec fn view(&self) -> LabelView {
        LabelView {
            url: self.url@,
            guid: self.guid@,
            name: self.name@,
            number: opt_view(self.number),
            subject_code: opt_view(self.subject_code),
            credits: self.credits,
        }
    }
}

impl Clone for Label {
    fn clone(&self) -> (r: Self)
        ensures
            r@ == self@,
    {
        Label {
            url: self.url.clone(),
            guid: self.guid,
            name: self.name.clone(),
            number: clone_opt_string(&self.number),
            subject_code: clone_opt_string(&self.subject_code),
            credits: (self.credits.0, self.credits.1),
        }
    }
}

/// One node of the tree of course entries: a course or a label, or a group of entries of
/// which all (`And`) or one (`Or`) are asked for.
#[derive(Debug, PartialEq, Eq)]
pub enum CourseEntry {
    And(CourseEntries),
    Or(CourseEntries),
    Label(Label),
    Course(Course),
}

/// The course entries of a requirement, in the order of the catalog.
#[derive(Debug, PartialEq, Eq)]
pub struct CourseEntries(pub Vec<CourseEntry>);

/// What a [`CourseEntry`] holds, as a mathematical tree.
pub enum EntryView {
    And(Seq<EntryView>),
    Or(Seq<EntryView>),
    Label(LabelView),
    Course(CourseView),
}

impl View for CourseEntry {
    type V = EntryView;

    open spec fn view(&self) -> EntryView
        decreases self,
    {
        match self {
            CourseEntry::And(children) => EntryView::And(children.view()),
            CourseEntry::Or(children) => EntryView::Or(children.view()),
            CourseEntry::Label(label) => EntryView::Label(label@),
            CourseEntry::Course(course) => EntryView::Course(course@),
        }
    }
}

impl View for CourseEntries {
    type V = Seq<EntryView>;

    open spec fn view(&self) -> Seq<EntryView>
        decreases self,
    {
        Seq::new(
            self.0.len() as nat,
            |i: int|
                if 0 <= i < self.0.len() {
                    self.0[i].view()
                } else {
                    arbitrary()
                },
        )
    }
}

/// The trees that the entries `entries` hold, in order.
pub open spec fn view_all(entries: Seq<CourseEntry>) -> Seq<EntryView> {
    Seq::new(entries.len(), |i: int| entries[i]@)
}

impl EntryView {
    /// Whether the node is a course or a label.
    pub open spec fn is_leaf(self) -> bool {
        self is Label || self is Course
    }

    /// Whether the node is an `And` or an `Or` group.
    pub open spec fn is_group(self) -> bool {
        self is And || self is Or
    }

    /// The children of a group; a leaf has none.
    pub open spec fn children(self) -> Seq<EntryView> {
        match self {
            EntryView::And(children) => children,
            EntryView::Or(children) => children,
            _ => Seq::empty(),
        }
    }
}

/// A copy of the entry `entry`, with all that stands below it.
pub fn clone_entry(entry: &CourseEntry) -> (r: CourseEntry)
    ensures
        r@ == entry@,
    decreases entry,
{
    match entry {
        CourseEntry::And(children) => {
            let copy = CourseEntries(clone_entries(&children.0));
            proof {
                lemma_view_of_entries(copy);
                lemma_view_of_entries(*children);
            }
            CourseEntry::And(copy)
        },
        CourseEntry::Or(children) => {
            let copy = CourseEntries(clone_entries(&children.0));
            proof {
                lemma_view_of_entries(copy);
                lemma_view_of_entries(*children);
            }
            CourseEntry::Or(copy)
        },
        CourseEntry::Label(label) => CourseEntry::Label(label.clone()),
        CourseEntry::Course(course) => CourseEntry::Course(course.clone()),
    }
}

/// A copy of each of the entries `entries`, in order.
pub fn clone_entries(entries: &Vec<CourseEntry>) -> (r: Vec<CourseEntry>)
    ensures
        view_all(r@) == view_all(entries@),
    decreases entries,
{
    let mut copy: Vec<CourseEntry> = Vec::new();
    let mut i: usize = 0;
    while i < entries.len()
        invariant
            i <= entries.len(),
            copy@.len() == i,
            forall|j: int| 0 <= j < i ==> (#[trigger] copy@[j])@ == entries@[j]@,
        decreases entries.len() - i,
    {
        copy.push(clone_entry(&entries[i]));
        i = i + 1;
    }
    assert(view_all(copy@) =~= view_all(entries@));
    copy
}

impl Clone for CourseEntry {
    fn clone(&self) -> (r: Self)
        ensures
            r@ == self@,
    {
        clone_entry(self)
    }
}

impl Clone for CourseEntries {
    fn clone(&self) -> (r: Self)
        ensures
            r@ == self@,
    {
        let copy = CourseEntries(clone_entries(&self.0));
        proof {
            lemma_view_of_entries(copy);
            lemma_view_of_entries(*self);
        }
        copy
    }
}

impl CourseEntries {
    /// Entries holding the one entry `entry`: what a requirement has whose listing is a single
    /// course rather than an array.
    pub fn single(entry: CourseEntry) -> (r: CourseEntries)
        ensures
            r@ == seq![entry@],
    {
        let mut entries: Vec<CourseEntry> = Vec::new();
        entries.push(entry);
        CourseEntries(entries)
    }

    /// The number of entries at the top level.
    pub fn len(&self) -> (n: usize)
        ensures
            n == self@.len(),
    {
        self.0.len()
    }

    /// Whether there is no entry at all.
    pub fn is_empty(&self) -> (b: bool)
        ensures
            b == (self@.len() == 0),
    {
        self.0.len() == 0
    }

    /// The entry at position `i` of the top level, if there is one.
    pub fn get(&self, i: usize) -> (r: Option<&CourseEntry>)
        ensures
            match r {
                Some(entry) => i < self@.len() && entry@ == self@[i as int],
                None => i >= self@.len(),
            },
    {
        if i < self.0.len() {
            Some(&self.0[i])
        } else {
            None
        }
    }
}

/// The view of entries is the view of each entry of the vector, in order.
pub proof fn lemma_view_of_entries(entries: CourseEntries)
    ensures
        entries@ == view_all(entries.0@),
{
    assert(entries@ =~= view_all(entries.0@));
}

/// One requirement of a program.
#[allow(inconsistent_fields)]
#[derive(Debug, Clone, PartialEq, Eq)]
pub enum Requirement {
    /// Courses to take.
    Courses { title: Option<String>, courses: CourseEntries },
    /// Courses to choose from.
    SelectFromCourses { title: String, courses: Option<CourseEntries> },
    /// A requirement that lists no course.
    Label { title: Option<String>, req_narrative: Option<String> },
}

impl Requirement {
    /// The requirement that a record of the catalog is: one of courses where it lists any,
    /// a label where it lists none.
    pub fn from_listing(
        title: Option<String>,
        req_narrative: Option<String>,
        courses: Option<CourseEntries>,
    ) -> (r: Requirement)
        ensures
            r == match courses {
                Some(courses) => (Requirement::Courses { title, courses }),
                None => (Requirement::Label { title, req_narrative }),
            },
    {
        match courses {
            Some(courses) => Requirement::Courses { title, courses },
            None => Requirement::Label { title, req_narrative },
        }
    }
}

/// The unit in which a selection is counted.
#[derive(Debug, Clone, Copy, PartialEq, Eq)]
pub enum CourseUnit {
    Course,
    Hours,
}

/// A course as the catalog describes it on its own page.
#[derive(Debug, Clone, PartialEq, Eq)]
pub struct CourseDetails {
    pub url: String,
    pub guid: GUID,
    pub path: String,
    pub subject_code: String,
    pub subject_name: Option<String>,
    pub number: String,
    pub name: String,
    pub credits_min: u8,
    pub credits_max: Option<u8>,
    pub description: String,
    pub prerequisite_narrative: Option<String>,
    pub prerequisite: Option<GUID>,
    pub corequisite_narrative: Option<String>,
    pub corequisite: Option<GUID>,
}

} // verus!
