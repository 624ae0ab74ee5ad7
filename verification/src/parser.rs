//! The grouping parser: the machine of [`crate::grouping`] at work on owned entries.

use crate::catalog::{lemma_view_of_entries, view_all, CourseEntries, CourseEntry, EntryView};
use crate::classify::{MalformedEntry, ParsedCourseEntry, RawCourseEntry, RawEntryView, Token};
use crate::grouping::{
    classified, finish, fits, group, operator_of, parse_records, parse_records_from,
    run_records, step, well_formed, with_sub_group, Memory, Operator, ParseCoursesState,
    ParseError,
};
use crate::laws::{
    leaf_tokens, leaves_of_all, lemma_finish_well_formed, lemma_parsed_records,
    lemma_step_keeps_fit,
};
use vstd::prelude::*;
use vstd::string::StringExecFns;

verus! {

/// Why a listing could not be parsed.
#[derive(Debug, Clone, PartialEq, Eq)]
pub enum ParseCoursesError {
    /// The listing ended in a state in which it may not end.
    InvalidFinish(ParseCoursesState),
    /// A nest whose marker, or one of whose sub-groups, has another operator than the nest.
    DoubleNesting,
    /// The entry may not stand in the state in which it was read.
    InvalidEntry(ParsedCourseEntry, ParseCoursesState),
    /// The parser had been used before.
    ParserExhausted,
    /// A record that could not be classified.
    MalformedEntry(MalformedEntry),
}

impl View for ParseCoursesError {
    type V = ParseError;

    open spec fn view(&self) -> ParseError {
        match self {
            ParseCoursesError::InvalidFinish(state) => ParseError::InvalidFinish(*state),
            ParseCoursesError::DoubleNesting => ParseError::DoubleNesting,
            ParseCoursesError::InvalidEntry(entry, state) => ParseError::InvalidEntry(
                entry@,
                *state,
            ),
            ParseCoursesError::ParserExhausted => ParseError::ParserExhausted,
            ParseCoursesError::MalformedEntry(reason) => ParseError::MalformedEntry(*reason),
        }
    }
}

/// The working memory of the parser.
#[derive(Debug)]
pub struct ParsingState {
    /// The operator of the group being assembled, once a marker has named it.
    pub operator: Option<Operator>,
    /// The entries read since the last group was emitted.
    pub course_buffer: Vec<CourseEntry>,
    /// The entries emitted so far. While a nest is open it is the last of them, and takes
    /// each further sub-group.
    pub entries: Vec<CourseEntry>,
}

impl View for ParsingState {
    type V = Memory;

    open spec fn view(&self) -> Memory {
        Memory {
            operator: self.operator,
            buffer: view_all(self.course_buffer@),
            entries: view_all(self.entries@),
        }
    }
}

/// The group of `children` under `operator`.
fn make_group(operator: Operator, children: Vec<CourseEntry>) -> (r: CourseEntry)
    ensures
        r@ == group(operator, view_all(children@)),
{
    let children = CourseEntries(children);
    proof {
        lemma_view_of_entries(children);
    }
    match operator {
        Operator::And => CourseEntry::And(children),
        Operator::Or => CourseEntry::Or(children),
    }
}

/// The operator of the last of `entries`, where that is a group.
fn last_operator(entries: &Vec<CourseEntry>) -> (r: Option<Operator>)
    ensures
        r == if entries@.len() > 0 {
            operator_of(view_all(entries@).last())
        } else {
            None
        },
{
    let n: usize = entries.len();
    if n == 0 {
        return None;
    }
    match &entries[n - 1] {
        CourseEntry::And(_) => Some(Operator::And),
        CourseEntry::Or(_) => Some(Operator::Or),
        _ => None,
    }
}

/// Adds `child` as the last child of the last of `entries`, a group, in place.
fn push_sub_group(entries: &mut Vec<CourseEntry>, child: CourseEntry)
    requires
        old(entries)@.len() > 0,
        view_all(old(entries)@).last().is_group(),
    ensures
        view_all(final(entries)@) == with_sub_group(view_all(old(entries)@), child@),
{
    let n: usize = entries.len();
    let ghost before = entries@;
    let ghost grown = group(
        operator_of(before.last()@)->0,
        before.last()@.children().push(child@),
    );
    match &mut entries[n - 1] {
        CourseEntry::And(children) => {
            let ghost held = *children;
            children.0.push(child);
            proof {
                lemma_view_of_entries(held);
                lemma_view_of_entries(*children);
                assert(children@ =~= held@.push(child@));
            }
        },
        CourseEntry::Or(children) => {
            let ghost held = *children;
            children.0.push(child);
            proof {
                lemma_view_of_entries(held);
                lemma_view_of_entries(*children);
                assert(children@ =~= held@.push(child@));
            }
        },
        _ => {},
    }
    assert(entries@.len() == before.len());
    assert(entries@.last()@ == grown);
    assert(forall|i: int| 0 <= i < n - 1 ==> entries@[i] == before[i]);
    assert(view_all(entries@) =~= with_sub_group(view_all(before), child@));
}

/// The entry that a marker of `operator` is.
fn marker(operator: Operator) -> (r: ParsedCourseEntry)
    ensures
        r@ == marker_token(operator),
{
    match operator {
        Operator::And => ParsedCourseEntry::And,
        Operator::Or => ParsedCourseEntry::Or,
    }
}

impl ParsingState {
    /// The memory before anything is read.
    pub fn initial() -> (r: ParsingState)
        ensures
            r@ == Memory::initial(),
    {
        let r = ParsingState { operator: None, course_buffer: Vec::new(), entries: Vec::new() };
        assert(r@.buffer =~= Seq::empty());
        assert(r@.entries =~= Seq::empty());
        r
    }

    /// Whether the current operator is `operator`.
    fn has_operator(&self, operator: Operator) -> (r: bool)
        ensures
            r == (self@.operator == Some(operator)),
    {
        is_operator(self.operator, operator)
    }

    /// Adds `leaf` to the buffer.
    fn buffer_leaf(&mut self, leaf: CourseEntry)
        ensures
            final(self)@ == (Memory { buffer: old(self)@.buffer.push(leaf@), ..old(self)@ }),
    {
        self.course_buffer.push(leaf);
        assert(view_all(self.course_buffer@) =~= view_all(old(self).course_buffer@).push(leaf@));
    }

    /// Takes the buffer out as a group under the current operator, and forgets the operator.
    fn take_group(&mut self) -> (r: CourseEntry)
        requires
            old(self)@.operator is Some,
        ensures
            r@ == old(self)@.pending_group(),
            final(self)@ == (Memory {
                operator: None,
                buffer: Seq::empty(),
                entries: old(self)@.entries,
            }),
    {
        let mut children: Vec<CourseEntry> = Vec::new();
        std::mem::swap(&mut children, &mut self.course_buffer);
        let operator = match self.operator {
            Some(operator) => operator,
            None => Operator::And,
        };
        self.operator = None;
        assert(view_all(self.course_buffer@) =~= Seq::empty());
        make_group(operator, children)
    }

    /// Emits the buffer as free entries.
    fn emit_free_entries(&mut self)
        ensures
            final(self)@ == (Memory {
                operator: old(self)@.operator,
                buffer: Seq::empty(),
                entries: old(self)@.entries + old(self)@.buffer,
            }),
    {
        self.entries.append(&mut self.course_buffer);
        assert(view_all(self.course_buffer@) =~= Seq::empty());
        assert(view_all(self.entries@) =~= view_all(old(self).entries@) + view_all(
            old(self).course_buffer@,
        ));
    }

    /// Emits `entry`.
    fn emit(&mut self, entry: CourseEntry)
        ensures
            final(self)@ == (Memory {
                entries: old(self)@.entries.push(entry@),
                ..old(self)@
            }),
    {
        self.entries.push(entry);
        assert(view_all(self.entries@) =~= view_all(old(self).entries@).push(entry@));
    }

    /// Emits `child` as one more sub-group of the open nest.
    fn emit_sub_group(&mut self, child: CourseEntry)
        requires
            old(self)@.entries.len() > 0,
            old(self)@.entries.last().is_group(),
        ensures
            final(self)@ == (Memory {
                entries: with_sub_group(old(self)@.entries, child@),
                ..old(self)@
            }),
    {
        push_sub_group(&mut self.entries, child);
    }
}

/// The leaf of the tree that the label or course `entry` becomes.
fn into_leaf(entry: ParsedCourseEntry) -> (r: CourseEntry)
    requires
        entry@.is_leaf(),
    ensures
        r@ == entry@.leaf(),
{
    match entry {
        ParsedCourseEntry::Label(label) => CourseEntry::Label(label),
        ParsedCourseEntry::Course(course) => CourseEntry::Course(course),
        _ => vstd::pervasive::unreached(),
    }
}

impl ParseCoursesState {
    /// The state in which nothing has been read.
    pub fn init() -> (r: ParseCoursesState)
        ensures
            r == ParseCoursesState::InitialState,
    {
        ParseCoursesState::InitialState
    }

    /// The name of the state.
    pub fn name(&self) -> (r: &'static str)
        ensures
            r@ == state_name(*self),
    {
        match self {
            ParseCoursesState::InitialState => "InitialState",
            ParseCoursesState::CourseDetection => "CourseDetection",
            ParseCoursesState::InitialBlankRead => "InitialBlankRead",
            ParseCoursesState::ReadCourseNoOp => "ReadCourseNoOp",
            ParseCoursesState::OperatorRead => "OperatorRead",
            ParseCoursesState::ReadCourseWithOp => "ReadCourseWithOp",
            ParseCoursesState::TerminatingBlankRead => "TerminatingBlankRead",
            ParseCoursesState::NestingOperatorRead => "NestingOperatorRead",
            ParseCoursesState::NestedInitialBlankRead => "NestedInitialBlankRead",
            ParseCoursesState::NestedReadCourseNoOp => "NestedReadCourseNoOp",
            ParseCoursesState::NestedOperatorRead => "NestedOperatorRead",
            ParseCoursesState::NestedReadCourseWithOp => "NestedReadCourseWithOp",
            ParseCoursesState::NestedTerminatingBlankRead => "NestedTerminatingBlankRead",
        }
    }

    /// Reads one classified entry in this state: changes `memory` as the entry asks and
    /// gives the next state, or leaves `memory` as it is and gives the error.
    pub fn parse(self, memory: &mut ParsingState, entry: ParsedCourseEntry) -> (r: Result<
        ParseCoursesState,
        ParseCoursesError,
    >)
        requires
            fits(self, old(memory)@),
        ensures
            match step(self, old(memory)@, entry@) {
                Ok((next, after)) => r == Ok::<ParseCoursesState, ParseCoursesError>(next)
                    && final(memory)@ == after && fits(next, after),
                Err(e) => r is Err && r->Err_0@ == e && final(memory)@ == old(memory)@,
            },
    {
        proof {
            if step(self, memory@, entry@) is Ok {
                lemma_step_keeps_fit(self, memory@, entry@);
            }
        }
        match entry {
            ParsedCourseEntry::And => self.read_operator(memory, Operator::And),
            ParsedCourseEntry::Or => self.read_operator(memory, Operator::Or),
            ParsedCourseEntry::Blank => self.read_blank(),
            _ => self.read_leaf(memory, entry),
        }
    }

    /// Reads an `And` or `Or` marker.
    fn read_operator(self, memory: &mut ParsingState, operator: Operator) -> (r: Result<
        ParseCoursesState,
        ParseCoursesError,
    >)
        requires
            fits(self, old(memory)@),
        ensures
            match step(self, old(memory)@, marker_token(operator)) {
                Ok((next, after)) => r == Ok::<ParseCoursesState, ParseCoursesError>(next)
                    && final(memory)@ == after,
                Err(e) => r is Err && r->Err_0@ == e && final(memory)@ == old(memory)@,
            },
    {
        match self {
            ParseCoursesState::CourseDetection | ParseCoursesState::ReadCourseNoOp => {
                memory.operator = Some(operator);
                Ok(ParseCoursesState::OperatorRead)
            },
            ParseCoursesState::ReadCourseWithOp => {
                if memory.has_operator(operator) {
                    Ok(ParseCoursesState::OperatorRead)
                } else {
                    Err(ParseCoursesError::InvalidEntry(marker(operator), self))
                }
            },
            ParseCoursesState::TerminatingBlankRead => {
                if memory.has_operator(operator) {
                    let flat = memory.take_group();
                    let mut sub_groups: Vec<CourseEntry> = Vec::new();
                    sub_groups.push(flat);
                    assert(view_all(sub_groups@) =~= seq![flat@]);
                    memory.emit(make_group(operator, sub_groups));
                    Ok(ParseCoursesState::NestingOperatorRead)
                } else {
                    Err(ParseCoursesError::DoubleNesting)
                }
            },
            ParseCoursesState::NestedReadCourseNoOp => {
                if is_operator(last_operator(&memory.entries), operator) {
                    memory.operator = Some(operator);
                    Ok(ParseCoursesState::NestedOperatorRead)
                } else {
                    Err(ParseCoursesError::DoubleNesting)
                }
            },
            ParseCoursesState::NestedTerminatingBlankRead => {
                if is_operator(last_operator(&memory.entries), operator) {
                    let flat = memory.take_group();
                    memory.emit_sub_group(flat);
                    Ok(ParseCoursesState::NestingOperatorRead)
                } else {
                    Err(ParseCoursesError::DoubleNesting)
                }
            },
            _ => Err(ParseCoursesError::InvalidEntry(marker(operator), self)),
        }
    }

    /// Reads a blank. A blank changes the state alone.
    fn read_blank(self) -> (r: Result<ParseCoursesState, ParseCoursesError>)
        ensures
            forall|memory: Memory|
                match #[trigger] step(self, memory, Token::Blank) {
                    Ok((next, after)) => r == Ok::<ParseCoursesState, ParseCoursesError>(next)
                        && after == memory,
                    Err(e) => r is Err && r->Err_0@ == e,
                },
    {
        match self {
            ParseCoursesState::InitialState | ParseCoursesState::CourseDetection => Ok(
                ParseCoursesState::InitialBlankRead,
            ),
            ParseCoursesState::ReadCourseWithOp => Ok(ParseCoursesState::TerminatingBlankRead),
            ParseCoursesState::NestingOperatorRead => Ok(
                ParseCoursesState::NestedInitialBlankRead,
            ),
            ParseCoursesState::NestedReadCourseWithOp => Ok(
                ParseCoursesState::NestedTerminatingBlankRead,
            ),
            _ => Err(ParseCoursesError::InvalidEntry(ParsedCourseEntry::Blank, self)),
        }
    }

    /// Reads a label or a course.
    fn read_leaf(self, memory: &mut ParsingState, entry: ParsedCourseEntry) -> (r: Result<
        ParseCoursesState,
        ParseCoursesError,
    >)
        requires
            fits(self, old(memory)@),
            entry@.is_leaf(),
        ensures
            match step(self, old(memory)@, entry@) {
                Ok((next, after)) => r == Ok::<ParseCoursesState, ParseCoursesError>(next)
                    && final(memory)@ == after,
                Err(e) => r is Err && r->Err_0@ == e && final(memory)@ == old(memory)@,
            },
    {
        let next = match self {
            ParseCoursesState::NestingOperatorRead => {
                return Err(ParseCoursesError::InvalidEntry(entry, self));
            },
            ParseCoursesState::InitialBlankRead => {
                memory.emit_free_entries();
                ParseCoursesState::ReadCourseNoOp
            },
            ParseCoursesState::TerminatingBlankRead => {
                let flat = memory.take_group();
                memory.emit(flat);
                ParseCoursesState::CourseDetection
            },
            ParseCoursesState::NestedTerminatingBlankRead => {
                let flat = memory.take_group();
                memory.emit_sub_group(flat);
                ParseCoursesState::CourseDetection
            },
            ParseCoursesState::InitialState => ParseCoursesState::CourseDetection,
            ParseCoursesState::OperatorRead => ParseCoursesState::ReadCourseWithOp,
            ParseCoursesState::NestedInitialBlankRead => ParseCoursesState::NestedReadCourseNoOp,
            ParseCoursesState::NestedOperatorRead => ParseCoursesState::NestedReadCourseWithOp,
            ParseCoursesState::CourseDetection
            | ParseCoursesState::ReadCourseNoOp
            | ParseCoursesState::ReadCourseWithOp
            | ParseCoursesState::NestedReadCourseNoOp
            | ParseCoursesState::NestedReadCourseWithOp => self,
        };
        let ghost leaf = entry@.leaf();
        memory.buffer_leaf(into_leaf(entry));
        assert(Seq::<EntryView>::empty().push(leaf) =~= seq![leaf]);
        Ok(next)
    }

    /// Ends the listing in this state: the tree that `memory` holds, or the error of a
    /// listing that may not end here.
    pub fn finish(self, memory: ParsingState) -> (r: Result<CourseEntries, ParseCoursesError>)
        requires
            fits(self, memory@),
        ensures
            match finish(self, memory@) {
                Ok(tree) => r is Ok && r->Ok_0@ == tree && well_formed(tree),
                Err(e) => r is Err && r->Err_0@ == e,
            },
    {
        proof {
            if finish(self, memory@) is Ok {
                lemma_finish_well_formed(self, memory@);
            }
        }
        let mut memory = memory;
        match self {
            ParseCoursesState::CourseDetection => {
                memory.emit_free_entries();
            },
            ParseCoursesState::ReadCourseWithOp | ParseCoursesState::TerminatingBlankRead => {
                let flat = memory.take_group();
                memory.emit(flat);
            },
            ParseCoursesState::NestedReadCourseWithOp
            | ParseCoursesState::NestedTerminatingBlankRead => {
                let flat = memory.take_group();
                memory.emit_sub_group(flat);
            },
            _ => {
                return Err(ParseCoursesError::InvalidFinish(self));
            },
        }
        let tree = CourseEntries(memory.entries);
        proof {
            lemma_view_of_entries(tree);
        }
        Ok(tree)
    }
}

/// The name of each state.
pub open spec fn state_name(state: ParseCoursesState) -> Seq<char> {
    match state {
        ParseCoursesState::InitialState => "InitialState"@,
        ParseCoursesState::CourseDetection => "CourseDetection"@,
        ParseCoursesState::InitialBlankRead => "InitialBlankRead"@,
        ParseCoursesState::ReadCourseNoOp => "ReadCourseNoOp"@,
        ParseCoursesState::OperatorRead => "OperatorRead"@,
        ParseCoursesState::ReadCourseWithOp => "ReadCourseWithOp"@,
        ParseCoursesState::TerminatingBlankRead => "TerminatingBlankRead"@,
        ParseCoursesState::NestingOperatorRead => "NestingOperatorRead"@,
        ParseCoursesState::NestedInitialBlankRead => "NestedInitialBlankRead"@,
        ParseCoursesState::NestedReadCourseNoOp => "NestedReadCourseNoOp"@,
        ParseCoursesState::NestedOperatorRead => "NestedOperatorRead"@,
        ParseCoursesState::NestedReadCourseWithOp => "NestedReadCourseWithOp"@,
        ParseCoursesState::NestedTerminatingBlankRead => "NestedTerminatingBlankRead"@,
    }
}

/// The token that a marker of `operator` is.
pub open spec fn marker_token(operator: Operator) -> Token {
    match operator {
        Operator::And => Token::And,
        Operator::Or => Token::Or,
    }
}

/// Whether `current` is `operator`.
fn is_operator(current: Option<Operator>, operator: Operator) -> (r: bool)
    ensures
        r == (current == Some(operator)),
{
    match current {
        Some(current) => current == operator,
        None => false,
    }
}

/// What the records `records` hold, in order.
pub open spec fn record_views(records: Seq<RawCourseEntry>) -> Seq<RawEntryView> {
    Seq::new(records.len(), |i: int| records[i]@)
}

/// An error that the machine has met on the first records of a listing is the error of the
/// whole listing.
pub proof fn lemma_error_ends_run(
    state: ParseCoursesState,
    memory: Memory,
    records: Seq<RawEntryView>,
    read: int,
)
    requires
        0 <= read <= records.len(),
        run_records(state, memory, records.take(read)) is Err,
    ensures
        run_records(state, memory, records) == run_records(state, memory, records.take(read)),
    decreases records.len() - read,
{
    if read < records.len() {
        assert(records.take(read + 1).drop_last() == records.take(read));
        lemma_error_ends_run(state, memory, records, read + 1);
    } else {
        assert(records.take(read) == records);
    }
}

/// A parser that reads the records of one listing and builds the tree of its entries.
pub struct CoursesParser {
    raw_entries: Vec<RawCourseEntry>,
    state: ParseCoursesState,
    parsing_state: ParsingState,
}

impl CoursesParser {
    /// The records that the parser has still to read.
    pub closed spec fn records(&self) -> Seq<RawEntryView> {
        record_views(self.raw_entries@)
    }

    /// The state in which the parser stands.
    pub closed spec fn state(&self) -> ParseCoursesState {
        self.state
    }

    /// The working memory of the parser.
    pub closed spec fn memory(&self) -> Memory {
        self.parsing_state@
    }

    /// Whether the memory of the parser is fit for its state.
    pub open spec fn wf(&self) -> bool {
        fits(self.state(), self.memory())
    }

    /// A parser that has `raw_entries` to read and has read nothing.
    pub fn new(raw_entries: Vec<RawCourseEntry>) -> (r: CoursesParser)
        ensures
            r.wf(),
            r.records() == record_views(raw_entries@),
            r.state() == ParseCoursesState::InitialState,
            r.memory() == Memory::initial(),
    {
        CoursesParser {
            raw_entries,
            state: ParseCoursesState::init(),
            parsing_state: ParsingState::initial(),
        }
    }

    /// Classifies and reads the records of the parser, one after the other, and ends the
    /// listing: its tree, or the first error met.
    #[verifier::loop_isolation(false)]
    pub fn parse(self) -> (r: Result<CourseEntries, ParseCoursesError>)
        requires
            self.wf(),
        ensures
            match parse_records_from(self.state(), self.memory(), self.records()) {
                Ok(tree) => r is Ok && r->Ok_0@ == tree && well_formed(tree),
                Err(e) => r is Err && r->Err_0@ == e,
            },
    {
        let ghost records = self.records();
        let ghost start = self.state;
        let ghost held = self.parsing_state@;
        let ghost all = self.raw_entries@;
        let mut state = self.state;
        let mut memory = self.parsing_state;
        assert(records.take(0) == Seq::<RawEntryView>::empty());
        for raw in rest: self.raw_entries
            invariant
                rest.seq() == all,
                records == record_views(all),
                run_records(start, held, records.take(rest.index())) == Ok::<
                    (ParseCoursesState, Memory),
                    ParseError,
                >((state, memory@)),
                fits(state, memory@),
        {
            proof {
                let n = rest.index();
                assert(records[n] == raw@);
                assert(records.take(n + 1).drop_last() == records.take(n));
                assert(records.take(n + 1).last() == raw@);
            }
            let entry = match ParsedCourseEntry::try_from(raw) {
                Ok(entry) => entry,
                Err(e) => {
                    proof {
                        lemma_error_ends_run(start, held, records, rest.index() + 1);
                    }
                    return Err(ParseCoursesError::MalformedEntry(e));
                },
            };
            match state.parse(&mut memory, entry) {
                Ok(next) => {
                    state = next;
                },
                Err(e) => {
                    proof {
                        lemma_error_ends_run(start, held, records, rest.index() + 1);
                    }
                    return Err(e);
                },
            }
        }
        assert(records.take(records.len() as int) == records);
        state.finish(memory)
    }

    /// Reads one classified entry: the parser moves on as the entry asks, or stays as it is
    /// and gives the error.
    pub fn parse_entry(&mut self, entry: ParsedCourseEntry) -> (r: Result<(), ParseCoursesError>)
        requires
            old(self).wf(),
        ensures
            final(self).wf(),
            final(self).records() == old(self).records(),
            match step(old(self).state(), old(self).memory(), entry@) {
                Ok((next, after)) => r is Ok && final(self).state() == next
                    && final(self).memory() == after,
                Err(e) => r is Err && r->Err_0@ == e && final(self).state() == old(self).state()
                    && final(self).memory() == old(self).memory(),
            },
    {
        match self.state.parse(&mut self.parsing_state, entry) {
            Ok(next) => {
                self.state = next;
                Ok(())
            },
            Err(e) => Err(e),
        }
    }

    /// Ends the listing where the parser stands, whatever records it has still to read.
    pub fn finish(self) -> (r: Result<CourseEntries, ParseCoursesError>)
        requires
            self.wf(),
        ensures
            match finish(self.state(), self.memory()) {
                Ok(tree) => r is Ok && r->Ok_0@ == tree && well_formed(tree),
                Err(e) => r is Err && r->Err_0@ == e,
            },
    {
        self.state.finish(self.parsing_state)
    }
}

/// A parser for one listing that can be asked once: a second call finds it exhausted.
pub struct CourseParser {
    raw_entries: Option<Vec<RawCourseEntry>>,
}

impl CourseParser {
    /// The records that the parser holds until it is asked to parse.
    pub closed spec fn records(&self) -> Option<Seq<RawEntryView>> {
        match self.raw_entries {
            Some(raw_entries) => Some(record_views(raw_entries@)),
            None => None,
        }
    }

    /// A parser that holds `raw_entries`.
    pub fn new(raw_entries: Vec<RawCourseEntry>) -> (r: CourseParser)
        ensures
            r.records() == Some(record_views(raw_entries@)),
    {
        CourseParser { raw_entries: Some(raw_entries) }
    }

    /// Parses the listing that the parser holds, and leaves the parser exhausted.
    ///
    /// The tree of an accepted listing is well formed, and its leaves are the labels and
    /// courses of the listing in their order.
    pub fn parse(&mut self) -> (r: Result<CourseEntries, ParseCoursesError>)
        ensures
            final(self).records() is None,
            match old(self).records() {
                Some(records) => match parse_records(records) {
                    Ok(tree) => r is Ok && r->Ok_0@ == tree && well_formed(tree) && leaves_of_all(
                        tree,
                    ) == leaf_tokens(classified(records)),
                    Err(e) => r is Err && r->Err_0@ == e,
                },
                None => r is Err && r->Err_0@ == ParseError::ParserExhausted,
            },
    {
        proof {
            if let Some(records) = self.records() {
                if parse_records(records) is Ok {
                    lemma_parsed_records(records);
                }
            }
        }
        match self.raw_entries.take() {
            Some(raw_entries) => CoursesParser::new(raw_entries).parse(),
            None => Err(ParseCoursesError::ParserExhausted),
        }
    }
}

/// The error `error` in words.
pub open spec fn error_text(error: ParseError) -> Seq<char> {
    match error {
        ParseError::InvalidFinish(state) => "parse entries terminated at an unexpected state: "@
            + state_name(state),
        ParseError::DoubleNesting => "double nesting detected and is not supported"@,
        ParseError::InvalidEntry(token, _) => "invalid entry found: "@ + token.name(),
        ParseError::ParserExhausted => "parser has exhausted all input"@,
        ParseError::MalformedEntry(reason) => "an error occurred when parsing: "@ + reason.text(),
    }
}

impl ParseCoursesError {
    /// The error in words.
    pub fn message(&self) -> (r: String)
        ensures
            r@ == error_text(self@),
    {
        match self {
            ParseCoursesError::InvalidFinish(state) => String::from_str(
                "parse entries terminated at an unexpected state: ",
            ).concat(state.name()),
            ParseCoursesError::DoubleNesting => String::from_str(
                "double nesting detected and is not supported",
            ),
            ParseCoursesError::InvalidEntry(entry, _) => String::from_str(
                "invalid entry found: ",
            ).concat(entry.name()),
            ParseCoursesError::ParserExhausted => String::from_str(
                "parser has exhausted all input",
            ),
            ParseCoursesError::MalformedEntry(reason) => String::from_str(
                "an error occurred when parsing: ",
            ).concat(reason.message()),
        }
    }
}

} // verus!
