//! What holds of every listing that the grouping machine accepts.

use crate::catalog::EntryView;
use crate::classify::{classify, RawEntryView, Token};
use crate::grouping::{
    accepts_end, all_classified, all_leaves, classified, finish, fits, group, is_flat_group,
    is_nest, is_top_entry, operator_of, parse_records, parse_tokens, run, run_from, run_records,
    step, well_formed, with_sub_group, Memory, ParseCoursesState, ParseError,
};
use vstd::prelude::*;

verus! {

/// Whether every group in the tree `entry` has at least one child.
pub open spec fn groups_have_children(entry: EntryView) -> bool
    decreases entry,
{
    match entry {
        EntryView::And(children) | EntryView::Or(children) => {
            &&& children.len() > 0
            &&& forall|i: int|
                0 <= i < children.len() ==> groups_have_children(#[trigger] children[i])
        },
        _ => true,
    }
}

/// Whether no path from `entry` down to a leaf passes more than `limit` groups.
pub open spec fn nesting_within(entry: EntryView, limit: nat) -> bool
    decreases entry,
{
    match entry {
        EntryView::And(children) | EntryView::Or(children) => {
            &&& limit > 0
            &&& forall|i: int|
                0 <= i < children.len() ==> nesting_within(
                    #[trigger] children[i],
                    (limit - 1) as nat,
                )
        },
        _ => true,
    }
}

/// Whether every group that stands directly in another group of the tree `entry` has the
/// operator of that group.
pub open spec fn sub_groups_share_operator(entry: EntryView) -> bool
    decreases entry,
{
    match entry {
        EntryView::And(children) | EntryView::Or(children) => {
            forall|i: int|
                0 <= i < children.len() ==> {
                    &&& (#[trigger] children[i]).is_group() ==> operator_of(children[i])
                        == operator_of(entry)
                    &&& sub_groups_share_operator(children[i])
                }
        },
        _ => true,
    }
}

/// The three shapes that the machine emits have groups with children, at most two levels of
/// groups, and sub-groups under the operator of their nest.
pub proof fn lemma_top_entry_shape(entry: EntryView)
    requires
        is_top_entry(entry),
    ensures
        groups_have_children(entry),
        nesting_within(entry, 2),
        sub_groups_share_operator(entry),
{
    if entry.is_group() {
        let children = entry.children();
        assert forall|i: int| 0 <= i < children.len() implies groups_have_children(
            #[trigger] children[i],
        ) && nesting_within(children[i], 1) && sub_groups_share_operator(children[i]) && (
        children[i].is_group() ==> operator_of(children[i]) == operator_of(entry)) by {
            let child = children[i];
            if child.is_group() {
                assert(is_nest(entry));
                assert(is_flat_group(child));
                let grandchildren = child.children();
                assert forall|j: int| 0 <= j < grandchildren.len() implies groups_have_children(
                    #[trigger] grandchildren[j],
                ) && nesting_within(grandchildren[j], 0) && sub_groups_share_operator(
                    grandchildren[j],
                ) && !grandchildren[j].is_group() by {
                    assert(grandchildren[j].is_leaf());
                }
            }
        }
    }
}

/// A buffer of leaves stays one when a leaf token is added to it.
proof fn lemma_buffered_leaves(buffer: Seq<EntryView>, token: Token)
    requires
        all_leaves(buffer),
        token.is_leaf(),
    ensures
        all_leaves(buffer.push(token.leaf())),
        all_leaves(seq![token.leaf()]),
{
    assert forall|i: int| 0 <= i < buffer.push(token.leaf()).len() implies (
    #[trigger] buffer.push(token.leaf())[i]).is_leaf() by {
        if i < buffer.len() {
            assert(buffer[i].is_leaf());
        }
    }
}

/// What is well formed stays so when leaves are emitted after it.
proof fn lemma_leaves_emitted(entries: Seq<EntryView>, buffer: Seq<EntryView>)
    requires
        well_formed(entries),
        all_leaves(buffer),
    ensures
        well_formed(entries + buffer),
{
    assert forall|i: int| 0 <= i < (entries + buffer).len() implies is_top_entry(
        #[trigger] (entries + buffer)[i],
    ) by {
        if i < entries.len() {
            assert(is_top_entry(entries[i]));
        } else {
            assert(buffer[i - entries.len()].is_leaf());
        }
    }
}

/// What is well formed stays so when a flat group or a nest is emitted after it.
proof fn lemma_entry_emitted(entries: Seq<EntryView>, entry: EntryView)
    requires
        well_formed(entries),
        is_top_entry(entry),
    ensures
        well_formed(entries.push(entry)),
{
    assert forall|i: int| 0 <= i < entries.push(entry).len() implies is_top_entry(
        #[trigger] entries.push(entry)[i],
    ) by {
        if i < entries.len() {
            assert(is_top_entry(entries[i]));
        }
    }
}

/// A nest stays one, and what holds it well formed, when a flat group under its operator
/// becomes its last sub-group.
proof fn lemma_sub_group_emitted(entries: Seq<EntryView>, child: EntryView)
    requires
        well_formed(entries),
        entries.len() > 0,
        is_nest(entries.last()),
        is_flat_group(child),
        operator_of(child) == operator_of(entries.last()),
    ensures
        well_formed(with_sub_group(entries, child)),
        with_sub_group(entries, child).len() == entries.len(),
        is_nest(with_sub_group(entries, child).last()),
        operator_of(with_sub_group(entries, child).last()) == operator_of(entries.last()),
{
    let nest = entries.last();
    let children = nest.children().push(child);
    let grown = group(operator_of(nest)->0, children);
    assert(grown.children() == children);
    assert forall|i: int| 0 <= i < children.len() implies is_flat_group(#[trigger] children[i])
        && operator_of(children[i]) == operator_of(grown) by {
        if i < nest.children().len() {
            assert(is_flat_group(nest.children()[i]));
        }
    }
    assert(is_nest(grown));
    let after = with_sub_group(entries, child);
    assert(after.last() == grown);
    assert forall|i: int| 0 <= i < after.len() implies is_top_entry(#[trigger] after[i]) by {
        if i < entries.len() - 1 {
            assert(is_top_entry(entries[i]));
        }
    }
}

/// The machine keeps its memory fit for its state.
pub proof fn lemma_step_keeps_fit(state: ParseCoursesState, memory: Memory, token: Token)
    requires
        fits(state, memory),
        step(state, memory, token) is Ok,
    ensures
        fits(step(state, memory, token)->Ok_0.0, step(state, memory, token)->Ok_0.1),
{
    let (next, after) = step(state, memory, token)->Ok_0;
    if token.is_leaf() {
        lemma_buffered_leaves(memory.buffer, token);
    }
    match state {
        ParseCoursesState::InitialBlankRead => {
            lemma_leaves_emitted(memory.entries, memory.buffer);
        },
        ParseCoursesState::TerminatingBlankRead => {
            let flat = memory.pending_group();
            assert(flat.children() == memory.buffer);
            assert(is_flat_group(flat));
            if token.is_leaf() {
                lemma_entry_emitted(memory.entries, flat);
            } else {
                let nest = group(memory.operator->0, seq![flat]);
                assert(nest.children() == seq![flat]);
                assert(is_nest(nest));
                lemma_entry_emitted(memory.entries, nest);
                assert(after.entries.last() == nest);
            }
        },
        ParseCoursesState::NestedTerminatingBlankRead => {
            let flat = memory.pending_group();
            assert(flat.children() == memory.buffer);
            assert(is_flat_group(flat));
            lemma_sub_group_emitted(memory.entries, flat);
        },
        _ => {},
    }
}

/// Wherever the machine starts with a memory fit for its state, whatever it then reads, its
/// memory is fit for its state.
pub proof fn lemma_run_from_fits(state: ParseCoursesState, memory: Memory, tokens: Seq<Token>)
    requires
        fits(state, memory),
        run_from(state, memory, tokens) is Ok,
    ensures
        fits(run_from(state, memory, tokens)->Ok_0.0, run_from(state, memory, tokens)->Ok_0.1),
    decreases tokens.len(),
{
    if tokens.len() > 0 {
        lemma_run_from_fits(state, memory, tokens.drop_last());
        let (reached, held) = run_from(state, memory, tokens.drop_last())->Ok_0;
        lemma_step_keeps_fit(reached, held, tokens.last());
    }
}

/// Whatever the machine has read from the start, its memory is fit for its state.
pub proof fn lemma_run_fits(tokens: Seq<Token>)
    requires
        run(tokens) is Ok,
    ensures
        fits(run(tokens)->Ok_0.0, run(tokens)->Ok_0.1),
{
    lemma_run_from_fits(ParseCoursesState::InitialState, Memory::initial(), tokens);
}

/// A listing has a tree where it ends in one of the five states in which it may end, and
/// nowhere else.
pub proof fn lemma_finish_accepts(state: ParseCoursesState, memory: Memory)
    ensures
        finish(state, memory) is Ok <==> accepts_end(state),
        !accepts_end(state) ==> finish(state, memory) == Err::<Seq<EntryView>, ParseError>(
            ParseError::InvalidFinish(state),
        ),
{
}

/// A listing that ends where it may, with a memory fit for that state, has a well-formed
/// tree.
pub proof fn lemma_finish_well_formed(state: ParseCoursesState, memory: Memory)
    requires
        fits(state, memory),
        finish(state, memory) is Ok,
    ensures
        well_formed(finish(state, memory)->Ok_0),
{
    match state {
        ParseCoursesState::CourseDetection => {
            lemma_leaves_emitted(memory.entries, memory.buffer);
        },
        ParseCoursesState::ReadCourseWithOp | ParseCoursesState::TerminatingBlankRead => {
            let flat = memory.pending_group();
            assert(flat.children() == memory.buffer);
            lemma_entry_emitted(memory.entries, flat);
        },
        ParseCoursesState::NestedReadCourseWithOp
        | ParseCoursesState::NestedTerminatingBlankRead => {
            let flat = memory.pending_group();
            assert(flat.children() == memory.buffer);
            lemma_sub_group_emitted(memory.entries, flat);
        },
        _ => {},
    }
}

/// In the tree of an accepted listing every group has at least one child, no group stands
/// more than two deep, and every group inside another has the operator of that other: each
/// entry at the top is a leaf, a group of leaves, or a nest of such groups under one
/// operator.
pub proof fn lemma_parsed_tree_shape(tokens: Seq<Token>)
    requires
        parse_tokens(tokens) is Ok,
    ensures
        well_formed(parse_tokens(tokens)->Ok_0),
        forall|i: int|
            0 <= i < parse_tokens(tokens)->Ok_0.len() ==> {
                let entry = #[trigger] parse_tokens(tokens)->Ok_0[i];
                &&& groups_have_children(entry)
                &&& nesting_within(entry, 2)
                &&& sub_groups_share_operator(entry)
            },
{
    lemma_run_fits(tokens);
    let (state, memory) = run(tokens)->Ok_0;
    lemma_finish_well_formed(state, memory);
    let tree = parse_tokens(tokens)->Ok_0;
    assert forall|i: int| 0 <= i < tree.len() implies {
        let entry = #[trigger] tree[i];
        &&& groups_have_children(entry)
        &&& nesting_within(entry, 2)
        &&& sub_groups_share_operator(entry)
    } by {
        lemma_top_entry_shape(tree[i]);
    }
}

/// The leaves of the tree `entry`, from left to right.
pub open spec fn leaves(entry: EntryView) -> Seq<EntryView>
    decreases entry,
{
    match entry {
        EntryView::And(children) | EntryView::Or(children) => leaves_of_all(children),
        _ => seq![entry],
    }
}

/// The leaves of the trees `entries`, from left to right.
pub open spec fn leaves_of_all(entries: Seq<EntryView>) -> Seq<EntryView>
    decreases entries,
{
    if entries.len() == 0 {
        Seq::empty()
    } else {
        leaves_of_all(entries.drop_last()) + leaves(entries.last())
    }
}

/// The leaves that the labels and courses among `tokens` become, in order.
pub open spec fn leaf_tokens(tokens: Seq<Token>) -> Seq<EntryView>
    decreases tokens.len(),
{
    if tokens.len() == 0 {
        Seq::empty()
    } else if tokens.last().is_leaf() {
        leaf_tokens(tokens.drop_last()).push(tokens.last().leaf())
    } else {
        leaf_tokens(tokens.drop_last())
    }
}

/// The leaves that `memory` holds: those of what has been emitted, then the buffer.
pub open spec fn held_leaves(memory: Memory) -> Seq<EntryView> {
    leaves_of_all(memory.entries) + leaves_of_all(memory.buffer)
}

/// The leaves of one more tree come after those of the trees before it.
pub proof fn lemma_leaves_push(entries: Seq<EntryView>, entry: EntryView)
    ensures
        leaves_of_all(entries.push(entry)) == leaves_of_all(entries) + leaves(entry),
{
    assert(entries.push(entry).drop_last() == entries);
}

/// The leaves of two rows of trees joined are the leaves of the first, then of the second.
pub proof fn lemma_leaves_concat(a: Seq<EntryView>, b: Seq<EntryView>)
    ensures
        leaves_of_all(a + b) == leaves_of_all(a) + leaves_of_all(b),
    decreases b.len(),
{
    if b.len() == 0 {
        assert(a + b == a);
        assert(leaves_of_all(a) + leaves_of_all(b) == leaves_of_all(a));
    } else {
        assert((a + b).drop_last() == a + b.drop_last());
        assert((a + b).last() == b.last());
        lemma_leaves_concat(a, b.drop_last());
        assert((leaves_of_all(a) + leaves_of_all(b.drop_last())) + leaves(b.last())
            == leaves_of_all(a) + (leaves_of_all(b.drop_last()) + leaves(b.last())));
    }
}

/// A row of leaves is its own row of leaves.
pub proof fn lemma_leaves_of_leaves(entries: Seq<EntryView>)
    requires
        all_leaves(entries),
    ensures
        leaves_of_all(entries) == entries,
    decreases entries.len(),
{
    if entries.len() > 0 {
        assert(entries.last().is_leaf());
        assert forall|i: int| 0 <= i < entries.drop_last().len() implies (
        #[trigger] entries.drop_last()[i]).is_leaf() by {
            assert(entries[i].is_leaf());
        }
        lemma_leaves_of_leaves(entries.drop_last());
        assert(leaves(entries.last()) == seq![entries.last()]);
        assert(entries.drop_last() + seq![entries.last()] == entries);
    }
}

/// A new last sub-group brings its leaves after those that were there.
proof fn lemma_leaves_with_sub_group(entries: Seq<EntryView>, child: EntryView)
    requires
        entries.len() > 0,
        entries.last().is_group(),
    ensures
        leaves_of_all(with_sub_group(entries, child)) == leaves_of_all(entries) + leaves(child),
{
    let before = entries.drop_last();
    let nest = entries.last();
    let grown = group(operator_of(nest)->0, nest.children().push(child));
    lemma_leaves_push(before, grown);
    lemma_leaves_push(nest.children(), child);
    assert(leaves(grown) == leaves_of_all(nest.children()) + leaves(child));
    assert(leaves(nest) == leaves_of_all(nest.children()));
    assert((leaves_of_all(before) + leaves_of_all(nest.children())) + leaves(child)
        == leaves_of_all(before) + (leaves_of_all(nest.children()) + leaves(child)));
}

/// A step of the machine adds the leaf that it reads to the leaves that it holds, and
/// nothing else.
pub proof fn lemma_step_holds_leaves(state: ParseCoursesState, memory: Memory, token: Token)
    requires
        fits(state, memory),
        step(state, memory, token) is Ok,
    ensures
        held_leaves(step(state, memory, token)->Ok_0.1) == if token.is_leaf() {
            held_leaves(memory).push(token.leaf())
        } else {
            held_leaves(memory)
        },
{
    let (next, after) = step(state, memory, token)->Ok_0;
    let emitted = leaves_of_all(memory.entries);
    lemma_leaves_of_leaves(memory.buffer);
    lemma_step_keeps_fit(state, memory, token);
    lemma_leaves_of_leaves(after.buffer);
    if token.is_leaf() {
        assert(leaves(token.leaf()) == seq![token.leaf()]);
        assert(seq![token.leaf()] == Seq::<EntryView>::empty().push(token.leaf()));
    }
    let flat = memory.pending_group();
    if after.entries == memory.entries {
        if token.is_leaf() {
            assert(after.buffer == memory.buffer.push(token.leaf()));
            assert(emitted + memory.buffer.push(token.leaf()) == (emitted + memory.buffer).push(
                token.leaf(),
            ));
        } else {
            assert(after.buffer == memory.buffer);
        }
    } else {
        match state {
            ParseCoursesState::InitialBlankRead => {
                lemma_leaves_concat(memory.entries, memory.buffer);
                assert((emitted + memory.buffer) + seq![token.leaf()] == (emitted
                    + memory.buffer).push(token.leaf()));
            },
            ParseCoursesState::TerminatingBlankRead => {
                assert(leaves(flat) == memory.buffer);
                if token.is_leaf() {
                    lemma_leaves_push(memory.entries, flat);
                    assert((emitted + memory.buffer) + seq![token.leaf()] == (emitted
                        + memory.buffer).push(token.leaf()));
                } else {
                    let nest = group(memory.operator->0, seq![flat]);
                    lemma_leaves_push(memory.entries, nest);
                    lemma_leaves_push(Seq::empty(), flat);
                    assert(seq![flat] == Seq::<EntryView>::empty().push(flat));
                    assert(leaves_of_all(Seq::<EntryView>::empty()) + leaves(flat) == leaves(
                        flat,
                    ));
                    assert(leaves(nest) == memory.buffer);
                    assert(after.buffer == Seq::<EntryView>::empty());
                    assert((emitted + memory.buffer) + Seq::<EntryView>::empty() == emitted
                        + memory.buffer);
                }
            },
            ParseCoursesState::NestedTerminatingBlankRead => {
                assert(leaves(flat) == memory.buffer);
                lemma_leaves_with_sub_group(memory.entries, flat);
                if token.is_leaf() {
                    assert((emitted + memory.buffer) + seq![token.leaf()] == (emitted
                        + memory.buffer).push(token.leaf()));
                } else {
                    assert(after.buffer == Seq::<EntryView>::empty());
                    assert((emitted + memory.buffer) + Seq::<EntryView>::empty() == emitted
                        + memory.buffer);
                }
            },
            _ => {},
        }
    }
}

/// Whatever the machine reads, it adds the leaves among it to those that it held, in order.
pub proof fn lemma_run_from_holds_leaves(
    state: ParseCoursesState,
    memory: Memory,
    tokens: Seq<Token>,
)
    requires
        fits(state, memory),
        run_from(state, memory, tokens) is Ok,
    ensures
        held_leaves(run_from(state, memory, tokens)->Ok_0.1) == held_leaves(memory) + leaf_tokens(
            tokens,
        ),
    decreases tokens.len(),
{
    if tokens.len() == 0 {
        assert(held_leaves(memory) + leaf_tokens(tokens) == held_leaves(memory));
    } else {
        lemma_run_from_holds_leaves(state, memory, tokens.drop_last());
        lemma_run_from_fits(state, memory, tokens.drop_last());
        let (reached, held) = run_from(state, memory, tokens.drop_last())->Ok_0;
        lemma_step_holds_leaves(reached, held, tokens.last());
        if tokens.last().is_leaf() {
            assert((held_leaves(memory) + leaf_tokens(tokens.drop_last())).push(
                tokens.last().leaf(),
            ) == held_leaves(memory) + leaf_tokens(tokens.drop_last()).push(tokens.last().leaf()));
        }
    }
}

/// A listing that ends where it may has as the leaves of its tree those that the machine
/// held at its end.
pub proof fn lemma_finish_keeps_leaves(state: ParseCoursesState, memory: Memory)
    requires
        fits(state, memory),
        finish(state, memory) is Ok,
    ensures
        leaves_of_all(finish(state, memory)->Ok_0) == held_leaves(memory),
{
    let flat = memory.pending_group();
    lemma_leaves_of_leaves(memory.buffer);
    match state {
        ParseCoursesState::CourseDetection => {
            lemma_leaves_concat(memory.entries, memory.buffer);
        },
        ParseCoursesState::ReadCourseWithOp | ParseCoursesState::TerminatingBlankRead => {
            assert(leaves(flat) == memory.buffer);
            lemma_leaves_push(memory.entries, flat);
        },
        ParseCoursesState::NestedReadCourseWithOp
        | ParseCoursesState::NestedTerminatingBlankRead => {
            assert(leaves(flat) == memory.buffer);
            lemma_leaves_with_sub_group(memory.entries, flat);
        },
        _ => {},
    }
}

/// Read from left to right, the leaves of the tree of an accepted listing are the labels and
/// courses of the listing, in the order of the listing.
pub proof fn lemma_parse_keeps_leaves(tokens: Seq<Token>)
    requires
        parse_tokens(tokens) is Ok,
    ensures
        leaves_of_all(parse_tokens(tokens)->Ok_0) == leaf_tokens(tokens),
{
    let start = Memory::initial();
    lemma_run_fits(tokens);
    lemma_run_from_holds_leaves(ParseCoursesState::InitialState, start, tokens);
    let (state, memory) = run(tokens)->Ok_0;
    lemma_finish_keeps_leaves(state, memory);
    assert(held_leaves(start) == Seq::<EntryView>::empty());
    assert(held_leaves(start) + leaf_tokens(tokens) == leaf_tokens(tokens));
}

/// The number of blanks among `tokens`.
pub open spec fn blank_count(tokens: Seq<Token>) -> nat
    decreases tokens.len(),
{
    if tokens.len() == 0 {
        0
    } else if tokens.last() is Blank {
        blank_count(tokens.drop_last()) + 1
    } else {
        blank_count(tokens.drop_last())
    }
}

/// How many of `tokens`, read from the start, bring the machine into `state`.
pub open spec fn arrivals(tokens: Seq<Token>, state: ParseCoursesState) -> nat
    decreases tokens.len(),
{
    if tokens.len() == 0 {
        0
    } else if run(tokens) is Ok && run(tokens)->Ok_0.0 == state {
        arrivals(tokens.drop_last(), state) + 1
    } else {
        arrivals(tokens.drop_last(), state)
    }
}

/// How many groups reading `tokens` opens: how often the machine reads the blank before a
/// group at the top level.
pub open spec fn groups_opened(tokens: Seq<Token>) -> nat {
    arrivals(tokens, ParseCoursesState::InitialBlankRead)
}

/// How many groups at the top level reading `tokens` closes: how often the machine reads the
/// blank after such a group.
pub open spec fn groups_closed(tokens: Seq<Token>) -> nat {
    arrivals(tokens, ParseCoursesState::TerminatingBlankRead)
}

/// How many blanks reading `tokens` meets in a nest, before a sub-group or after one.
pub open spec fn sub_group_separators(tokens: Seq<Token>) -> nat {
    arrivals(tokens, ParseCoursesState::NestedInitialBlankRead) + arrivals(
        tokens,
        ParseCoursesState::NestedTerminatingBlankRead,
    )
}

/// Whether `state` is one of the four in which the machine has just read a blank.
pub open spec fn is_blank_state(state: ParseCoursesState) -> bool {
    state is InitialBlankRead || state is TerminatingBlankRead || state is NestedInitialBlankRead
        || state is NestedTerminatingBlankRead
}

/// A blank, and nothing but a blank, brings the machine into one of the four states in which
/// it has just read a blank.
pub proof fn lemma_blank_states(state: ParseCoursesState, memory: Memory, token: Token)
    requires
        step(state, memory, token) is Ok,
    ensures
        is_blank_state(step(state, memory, token)->Ok_0.0) <==> token is Blank,
{
}

/// Every blank of a listing that the machine reads to its end opens a group, closes a group
/// at the top level, or stands before or after a sub-group of a nest; and nothing else does.
pub proof fn lemma_blanks_accounted_for(tokens: Seq<Token>)
    requires
        run(tokens) is Ok,
    ensures
        blank_count(tokens) == groups_opened(tokens) + groups_closed(tokens)
            + sub_group_separators(tokens),
    decreases tokens.len(),
{
    if tokens.len() > 0 {
        lemma_blanks_accounted_for(tokens.drop_last());
        let (state, memory) = run(tokens.drop_last())->Ok_0;
        lemma_blank_states(state, memory, tokens.last());
    }
}

/// In a listing that the machine reads to its end without closing a group at the top level,
/// there are as many blanks as groups opened and sub-groups set apart.
pub proof fn lemma_blanks_open_or_separate(tokens: Seq<Token>)
    requires
        run(tokens) is Ok,
        groups_closed(tokens) == 0,
    ensures
        blank_count(tokens) == groups_opened(tokens) + sub_group_separators(tokens),
{
    lemma_blanks_accounted_for(tokens);
}

/// A listing whose records the machine reads to their end is a listing of tokens: each of
/// its records can be classified, and the machine stands where reading those tokens leaves
/// it.
pub proof fn lemma_records_are_tokens(records: Seq<RawEntryView>)
    requires
        run_records(ParseCoursesState::InitialState, Memory::initial(), records) is Ok,
    ensures
        all_classified(records),
        run_records(ParseCoursesState::InitialState, Memory::initial(), records) == run(
            classified(records),
        ),
    decreases records.len(),
{
    let start = ParseCoursesState::InitialState;
    let tokens = classified(records);
    if records.len() == 0 {
        assert(tokens == Seq::<Token>::empty());
    } else {
        let before = records.drop_last();
        lemma_records_are_tokens(before);
        assert(classified(before) == tokens.drop_last());
        assert(tokens.last() == classify(records.last())->Ok_0);
        assert forall|i: int| 0 <= i < records.len() implies classify(#[trigger] records[i])
            is Ok by {
            if i < before.len() {
                assert(before[i] == records[i]);
            }
        }
    }
}

/// The tree of an accepted listing of records has the shape, and the leaves, that the tree
/// of its tokens has: every group has a child, no group stands more than two deep, every
/// group inside another has the operator of that other, and the leaves are the labels and
/// courses among the records, in their order.
pub proof fn lemma_parsed_records(records: Seq<RawEntryView>)
    requires
        parse_records(records) is Ok,
    ensures
        all_classified(records),
        parse_records(records) == parse_tokens(classified(records)),
        well_formed(parse_records(records)->Ok_0),
        forall|i: int|
            0 <= i < parse_records(records)->Ok_0.len() ==> {
                let entry = #[trigger] parse_records(records)->Ok_0[i];
                &&& groups_have_children(entry)
                &&& nesting_within(entry, 2)
                &&& sub_groups_share_operator(entry)
            },
        leaves_of_all(parse_records(records)->Ok_0) == leaf_tokens(classified(records)),
{
    lemma_records_are_tokens(records);
    lemma_parsed_tree_shape(classified(records));
    lemma_parse_keeps_leaves(classified(records));
}

} // verus!
