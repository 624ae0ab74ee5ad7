//! The grouping machine as mathematics: its states, its working memory and what each
//! classified entry does to them.
//!
//! A listing writes its groups in line. A blank opens a group, an `And` or `Or` marker
//! between two of its entries names its operator, and a blank closes it. A marker after the
//! closing blank turns the group into the first sub-group of a nest; each further sub-group
//! stands between two blanks, and a marker after its closing blank asks for one more.

use crate::catalog::EntryView;
use crate::classify::{classify, MalformedEntry, RawEntryView, Token};
use vstd::prelude::*;

verus! {

/// The operator of a group.
#[derive(Debug, Clone, Copy, PartialEq, Eq, Structural)]
pub enum Operator {
    And,
    Or,
}

/// Where the machine stands in a listing.
#[derive(Debug, Clone, Copy, PartialEq, Eq, Structural)]
pub enum ParseCoursesState {
    /// Nothing has been read.
    InitialState,
    /// Reading entries that stand in no group.
    CourseDetection,
    /// The blank that opens a group has been read.
    InitialBlankRead,
    /// In a group that has entries and no operator yet.
    ReadCourseNoOp,
    /// The operator marker of a group has just been read.
    OperatorRead,
    /// In a group whose operator is known.
    ReadCourseWithOp,
    /// The blank after a group has been read.
    TerminatingBlankRead,
    /// A marker after the closing blank has made the last group a nest, or asked for one
    /// more sub-group of it.
    NestingOperatorRead,
    /// The blank that opens a sub-group has been read.
    NestedInitialBlankRead,
    /// In a sub-group that has entries and no operator yet.
    NestedReadCourseNoOp,
    /// The operator marker of a sub-group has just been read.
    NestedOperatorRead,
    /// In a sub-group whose operator is known.
    NestedReadCourseWithOp,
    /// The blank after a sub-group has been read.
    NestedTerminatingBlankRead,
}

/// The working memory of the machine.
pub struct Memory {
    /// The operator of the group being assembled, once a marker has named it.
    pub operator: Option<Operator>,
    /// The entries read since the last group was emitted.
    pub buffer: Seq<EntryView>,
    /// The entries emitted so far. While a nest is open it is the last of them.
    pub entries: Seq<EntryView>,
}

/// Why a listing has no tree.
pub enum ParseError {
    /// The entry may not stand where the machine was.
    InvalidEntry(Token, ParseCoursesState),
    /// The listing ended where it may not.
    InvalidFinish(ParseCoursesState),
    /// A nest whose marker, or one of whose sub-groups, has another operator than the nest.
    DoubleNesting,
    /// A record that could not be classified.
    MalformedEntry(MalformedEntry),
    /// The parser had been used before.
    ParserExhausted,
}

/// The group of `children` under the operator `operator`.
pub open spec fn group(operator: Operator, children: Seq<EntryView>) -> EntryView {
    match operator {
        Operator::And => EntryView::And(children),
        Operator::Or => EntryView::Or(children),
    }
}

/// The operator of a group; a leaf has none.
pub open spec fn operator_of(entry: EntryView) -> Option<Operator> {
    match entry {
        EntryView::And(_) => Some(Operator::And),
        EntryView::Or(_) => Some(Operator::Or),
        _ => None,
    }
}

/// The operator that a marker names; a blank or a leaf names none.
pub open spec fn marker_operator(token: Token) -> Option<Operator> {
    match token {
        Token::And => Some(Operator::And),
        Token::Or => Some(Operator::Or),
        _ => None,
    }
}

/// `entries` with `child` added as the last child of its last entry, a group.
pub open spec fn with_sub_group(entries: Seq<EntryView>, child: EntryView) -> Seq<EntryView>
    recommends
        entries.len() > 0,
        entries.last().is_group(),
{
    entries.drop_last().push(
        group(operator_of(entries.last())->0, entries.last().children().push(child)),
    )
}

impl Memory {
    /// The memory before anything is read.
    pub open spec fn initial() -> Memory {
        Memory { operator: None, buffer: Seq::empty(), entries: Seq::empty() }
    }

    /// The memory with `leaf` added to the buffer.
    pub open spec fn buffered(self, leaf: EntryView) -> Memory {
        Memory { buffer: self.buffer.push(leaf), ..self }
    }

    /// The group that the buffer makes under the current operator.
    pub open spec fn pending_group(self) -> EntryView
        recommends
            self.operator is Some,
    {
        group(self.operator->0, self.buffer)
    }

    /// The operator of the nest that is open: of the last entry emitted.
    pub open spec fn nest_operator(self) -> Option<Operator> {
        if self.entries.len() > 0 {
            operator_of(self.entries.last())
        } else {
            None
        }
    }

    /// The memory once the buffer, holding free entries, has been emitted, and `leaf` starts
    /// the next buffer.
    pub open spec fn free_entries_emitted(self, leaf: EntryView) -> Memory {
        Memory { operator: None, buffer: seq![leaf], entries: self.entries + self.buffer }
    }

    /// The memory once the buffer has been emitted as a group, and `buffer` is the next
    /// buffer.
    pub open spec fn group_emitted(self, buffer: Seq<EntryView>) -> Memory {
        Memory { operator: None, buffer, entries: self.entries.push(self.pending_group()) }
    }

    /// The memory once the buffer has been emitted as the first sub-group of a new nest.
    pub open spec fn nest_opened(self) -> Memory {
        Memory {
            operator: None,
            buffer: Seq::empty(),
            entries: self.entries.push(group(self.operator->0, seq![self.pending_group()])),
        }
    }

    /// The memory once the buffer has been emitted as one more sub-group of the open nest,
    /// and `buffer` is the next buffer.
    pub open spec fn sub_group_emitted(self, buffer: Seq<EntryView>) -> Memory {
        Memory {
            operator: None,
            buffer,
            entries: with_sub_group(self.entries, self.pending_group()),
        }
    }
}

/// What reading `token` in `state` with `memory` leads to: the next state and memory, or the
/// error that ends the parse.
pub open spec fn step(state: ParseCoursesState, memory: Memory, token: Token) -> Result<
    (ParseCoursesState, Memory),
    ParseError,
> {
    let invalid = Err(ParseError::InvalidEntry(token, state));
    match state {
        ParseCoursesState::InitialState => match token {
            Token::And | Token::Or => invalid,
            Token::Blank => Ok((ParseCoursesState::InitialBlankRead, memory)),
            _ => Ok((ParseCoursesState::CourseDetection, memory.buffered(token.leaf()))),
        },
        ParseCoursesState::CourseDetection => match token {
            Token::And | Token::Or => Ok(
                (
                    ParseCoursesState::OperatorRead,
                    Memory { operator: marker_operator(token), ..memory },
                ),
            ),
            Token::Blank => Ok((ParseCoursesState::InitialBlankRead, memory)),
            _ => Ok((ParseCoursesState::CourseDetection, memory.buffered(token.leaf()))),
        },
        ParseCoursesState::InitialBlankRead => match token {
            Token::And | Token::Or | Token::Blank => invalid,
            _ => Ok(
                (ParseCoursesState::ReadCourseNoOp, memory.free_entries_emitted(token.leaf())),
            ),
        },
        ParseCoursesState::ReadCourseNoOp => match token {
            Token::And | Token::Or => Ok(
                (
                    ParseCoursesState::OperatorRead,
                    Memory { operator: marker_operator(token), ..memory },
                ),
            ),
            Token::Blank => invalid,
            _ => Ok((ParseCoursesState::ReadCourseNoOp, memory.buffered(token.leaf()))),
        },
        ParseCoursesState::OperatorRead => match token {
            Token::And | Token::Or | Token::Blank => invalid,
            _ => Ok((ParseCoursesState::ReadCourseWithOp, memory.buffered(token.leaf()))),
        },
        ParseCoursesState::ReadCourseWithOp => match token {
            Token::And | Token::Or => if marker_operator(token) == memory.operator {
                Ok((ParseCoursesState::OperatorRead, memory))
            } else {
                invalid
            },
            Token::Blank => Ok((ParseCoursesState::TerminatingBlankRead, memory)),
            _ => Ok((ParseCoursesState::ReadCourseWithOp, memory.buffered(token.leaf()))),
        },
        ParseCoursesState::TerminatingBlankRead => match token {
            Token::And | Token::Or => if marker_operator(token) == memory.operator {
                Ok((ParseCoursesState::NestingOperatorRead, memory.nest_opened()))
            } else {
                Err(ParseError::DoubleNesting)
            },
            Token::Blank => invalid,
            _ => Ok(
                (ParseCoursesState::CourseDetection, memory.group_emitted(seq![token.leaf()])),
            ),
        },
        ParseCoursesState::NestingOperatorRead => match token {
            Token::Blank => Ok((ParseCoursesState::NestedInitialBlankRead, memory)),
            _ => invalid,
        },
        ParseCoursesState::NestedInitialBlankRead => match token {
            Token::And | Token::Or | Token::Blank => invalid,
            _ => Ok((ParseCoursesState::NestedReadCourseNoOp, memory.buffered(token.leaf()))),
        },
        ParseCoursesState::NestedReadCourseNoOp => match token {
            Token::And | Token::Or => if marker_operator(token) == memory.nest_operator() {
                Ok(
                    (
                        ParseCoursesState::NestedOperatorRead,
                        Memory { operator: marker_operator(token), ..memory },
                    ),
                )
            } else {
                Err(ParseError::DoubleNesting)
            },
            Token::Blank => invalid,
            _ => Ok((ParseCoursesState::NestedReadCourseNoOp, memory.buffered(token.leaf()))),
        },
        ParseCoursesState::NestedOperatorRead => match token {
            Token::And | Token::Or | Token::Blank => invalid,
            _ => Ok((ParseCoursesState::NestedReadCourseWithOp, memory.buffered(token.leaf()))),
        },
        ParseCoursesState::NestedReadCourseWithOp => match token {
            Token::And | Token::Or => invalid,
            Token::Blank => Ok((ParseCoursesState::NestedTerminatingBlankRead, memory)),
            _ => Ok((ParseCoursesState::NestedReadCourseWithOp, memory.buffered(token.leaf()))),
        },
        ParseCoursesState::NestedTerminatingBlankRead => match token {
            Token::And | Token::Or => if marker_operator(token) == memory.nest_operator() {
                Ok((ParseCoursesState::NestingOperatorRead, memory.sub_group_emitted(Seq::empty())))
            } else {
                Err(ParseError::DoubleNesting)
            },
            Token::Blank => invalid,
            _ => Ok(
                (
                    ParseCoursesState::CourseDetection,
                    memory.sub_group_emitted(seq![token.leaf()]),
                ),
            ),
        },
    }
}

/// Whether a listing may end in `state`.
pub open spec fn accepts_end(state: ParseCoursesState) -> bool {
    state is CourseDetection || state is ReadCourseWithOp || state is TerminatingBlankRead
        || state is NestedReadCourseWithOp || state is NestedTerminatingBlankRead
}

/// The tree of a listing that ends in `state` with `memory`: what has been emitted, and
/// after it what the buffer still holds, as free entries, as a group or as the last
/// sub-group of the open nest.
pub open spec fn finish(state: ParseCoursesState, memory: Memory) -> Result<
    Seq<EntryView>,
    ParseError,
> {
    match state {
        ParseCoursesState::CourseDetection => Ok(memory.entries + memory.buffer),
        ParseCoursesState::ReadCourseWithOp | ParseCoursesState::TerminatingBlankRead => Ok(
            memory.entries.push(memory.pending_group()),
        ),
        ParseCoursesState::NestedReadCourseWithOp
        | ParseCoursesState::NestedTerminatingBlankRead => Ok(
            with_sub_group(memory.entries, memory.pending_group()),
        ),
        _ => Err(ParseError::InvalidFinish(state)),
    }
}

/// Where the machine stands after reading `tokens`, one after the other, from `state` with
/// `memory`.
pub open spec fn run_from(state: ParseCoursesState, memory: Memory, tokens: Seq<Token>) -> Result<
    (ParseCoursesState, Memory),
    ParseError,
>
    decreases tokens.len(),
{
    if tokens.len() == 0 {
        Ok((state, memory))
    } else {
        match run_from(state, memory, tokens.drop_last()) {
            Ok((reached, held)) => step(reached, held, tokens.last()),
            Err(e) => Err(e),
        }
    }
}

/// Where the machine stands after reading `tokens` from the start.
pub open spec fn run(tokens: Seq<Token>) -> Result<(ParseCoursesState, Memory), ParseError> {
    run_from(ParseCoursesState::InitialState, Memory::initial(), tokens)
}

/// The tree of the listing `tokens`, or the first error that reading it meets.
pub open spec fn parse_tokens(tokens: Seq<Token>) -> Result<Seq<EntryView>, ParseError> {
    match run(tokens) {
        Ok((state, memory)) => finish(state, memory),
        Err(e) => Err(e),
    }
}

/// Where the machine stands after classifying and reading the records `records`, one after
/// the other, from `state` with `memory`. A record that cannot be classified ends the parse
/// as an entry does that may not stand where it does.
pub open spec fn run_records(
    state: ParseCoursesState,
    memory: Memory,
    records: Seq<RawEntryView>,
) -> Result<(ParseCoursesState, Memory), ParseError>
    decreases records.len(),
{
    if records.len() == 0 {
        Ok((state, memory))
    } else {
        match run_records(state, memory, records.drop_last()) {
            Ok((reached, held)) => match classify(records.last()) {
                Ok(token) => step(reached, held, token),
                Err(e) => Err(ParseError::MalformedEntry(e)),
            },
            Err(e) => Err(e),
        }
    }
}

/// The tree of the records `records` once the machine stands in `state` with `memory`.
pub open spec fn parse_records_from(
    state: ParseCoursesState,
    memory: Memory,
    records: Seq<RawEntryView>,
) -> Result<Seq<EntryView>, ParseError> {
    match run_records(state, memory, records) {
        Ok((reached, held)) => finish(reached, held),
        Err(e) => Err(e),
    }
}

/// The tree of the listing whose records are `records`, or the first error that classifying
/// and reading them meets.
pub open spec fn parse_records(records: Seq<RawEntryView>) -> Result<Seq<EntryView>, ParseError> {
    parse_records_from(ParseCoursesState::InitialState, Memory::initial(), records)
}

/// Whether each of `records` can be classified.
pub open spec fn all_classified(records: Seq<RawEntryView>) -> bool {
    forall|i: int| 0 <= i < records.len() ==> classify(#[trigger] records[i]) is Ok
}

/// The tokens that `records` are classified as.
pub open spec fn classified(records: Seq<RawEntryView>) -> Seq<Token>
    recommends
        all_classified(records),
{
    Seq::new(records.len(), |i: int| classify(records[i])->Ok_0)
}

/// Whether every entry of `entries` is a course or a label.
pub open spec fn all_leaves(entries: Seq<EntryView>) -> bool {
    forall|i: int| 0 <= i < entries.len() ==> (#[trigger] entries[i]).is_leaf()
}

/// Whether `entry` is a group of one or more leaves.
pub open spec fn is_flat_group(entry: EntryView) -> bool {
    entry.is_group() && entry.children().len() > 0 && all_leaves(entry.children())
}

/// Whether `entry` is a nest: a group of one or more flat groups, each under the operator of
/// the nest.
pub open spec fn is_nest(entry: EntryView) -> bool {
    &&& entry.is_group()
    &&& entry.children().len() > 0
    &&& forall|i: int|
        0 <= i < entry.children().len() ==> is_flat_group(#[trigger] entry.children()[i])
            && operator_of(entry.children()[i]) == operator_of(entry)
}

/// Whether `entry` is what the machine emits at the top level: a leaf, a flat group or a
/// nest.
pub open spec fn is_top_entry(entry: EntryView) -> bool {
    entry.is_leaf() || is_flat_group(entry) || is_nest(entry)
}

/// Whether every entry of `entries` is a leaf, a flat group or a nest.
pub open spec fn well_formed(entries: Seq<EntryView>) -> bool {
    forall|i: int| 0 <= i < entries.len() ==> is_top_entry(#[trigger] entries[i])
}

/// Whether `memory` is one that the machine can hold in `state`.
///
/// The buffer holds leaves, and what has been emitted is well formed. Beyond that each state
/// knows whether the operator is set, whether the buffer holds anything, and whether the
/// last entry emitted is the open nest.
pub open spec fn fits(state: ParseCoursesState, memory: Memory) -> bool {
    let nest_open = memory.entries.len() > 0 && is_nest(memory.entries.last());
    &&& all_leaves(memory.buffer)
    &&& well_formed(memory.entries)
    &&& match state {
        ParseCoursesState::InitialState => memory == Memory::initial(),
        ParseCoursesState::InitialBlankRead => memory.operator is None,
        ParseCoursesState::CourseDetection | ParseCoursesState::ReadCourseNoOp => {
            memory.operator is None && memory.buffer.len() > 0
        },
        ParseCoursesState::OperatorRead
        | ParseCoursesState::ReadCourseWithOp
        | ParseCoursesState::TerminatingBlankRead => {
            memory.operator is Some && memory.buffer.len() > 0
        },
        ParseCoursesState::NestingOperatorRead | ParseCoursesState::NestedInitialBlankRead => {
            memory.operator is None && memory.buffer.len() == 0 && nest_open
        },
        ParseCoursesState::NestedReadCourseNoOp => {
            memory.operator is None && memory.buffer.len() > 0 && nest_open
        },
        ParseCoursesState::NestedOperatorRead
        | ParseCoursesState::NestedReadCourseWithOp
        | ParseCoursesState::NestedTerminatingBlankRead => {
            memory.operator is Some && memory.operator == memory.nest_operator()
                && memory.buffer.len() > 0 && nest_open
        },
    }
}

} // verus!
