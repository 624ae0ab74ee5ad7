//! Trees written back as listings: every tree that the machine builds is the tree of a
//! listing of its own, read again.

use crate::catalog::{lemma_view_of_entries, view_all, CourseEntries, CourseEntry, EntryView};
use crate::classify::{ParsedCourseEntry, Token};
use crate::grouping::{
    all_leaves, finish, fits, group, is_flat_group, is_nest, operator_of, parse_tokens, run,
    run_from, step, with_sub_group, Memory, Operator, ParseCoursesState, ParseError,
};
use crate::laws::lemma_step_keeps_fit;
use crate::parser::marker_token;
use vstd::prelude::*;

verus! {

/// Whether `entry` is a group as the machine builds it outside a nest or as a sub-group:
/// two or more leaves.
pub open spec fn is_built_group(entry: EntryView) -> bool {
    is_flat_group(entry) && entry.children().len() >= 2
}

/// Whether `entry` is a nest as the machine holds it while it is open: one or more
/// sub-groups under its operator, of two or more leaves each.
pub open spec fn is_open_nest(entry: EntryView) -> bool {
    &&& is_nest(entry)
    &&& forall|i: int|
        0 <= i < entry.children().len() ==> (#[trigger] entry.children()[i]).children().len()
            >= 2
}

/// Whether `entry` is a nest as the machine builds it: two or more sub-groups under its
/// operator, of two or more leaves each.
pub open spec fn is_built_nest(entry: EntryView) -> bool {
    is_open_nest(entry) && entry.children().len() >= 2
}

/// Whether `entry` is what the machine builds at the top level.
pub open spec fn is_built_entry(entry: EntryView) -> bool {
    entry.is_leaf() || is_built_group(entry) || is_built_nest(entry)
}

/// Whether each of `entries` is what the machine builds at the top level.
pub open spec fn all_built(entries: Seq<EntryView>) -> bool {
    forall|i: int| 0 <= i < entries.len() ==> is_built_entry(#[trigger] entries[i])
}

/// Whether `tree` is a tree as the machine builds it: one or more entries, each a leaf, a
/// group of two or more leaves, or a nest of two or more such groups under one operator.
pub open spec fn is_built_tree(tree: Seq<EntryView>) -> bool {
    tree.len() > 0 && all_built(tree)
}

/// Whether `state` is one of those in which a nest is open.
pub open spec fn in_nest(state: ParseCoursesState) -> bool {
    state is NestingOperatorRead || state is NestedInitialBlankRead
        || state is NestedReadCourseNoOp || state is NestedOperatorRead
        || state is NestedReadCourseWithOp || state is NestedTerminatingBlankRead
}

/// Whether `memory` is fit for `state` and holds groups of the sizes that the machine
/// builds.
pub open spec fn fits_tightly(state: ParseCoursesState, memory: Memory) -> bool {
    &&& fits(state, memory)
    &&& if in_nest(state) {
        all_built(memory.entries.drop_last()) && is_open_nest(memory.entries.last())
    } else {
        all_built(memory.entries)
    }
    &&& state is ReadCourseWithOp || state is TerminatingBlankRead
        || state is NestedReadCourseWithOp || state is NestedTerminatingBlankRead
        ==> memory.buffer.len() >= 2
}

/// What is built stays so when one more built entry is emitted after it.
proof fn lemma_built_push(entries: Seq<EntryView>, entry: EntryView)
    requires
        all_built(entries),
        is_built_entry(entry),
    ensures
        all_built(entries.push(entry)),
{
    assert forall|i: int| 0 <= i < entries.push(entry).len() implies is_built_entry(
        #[trigger] entries.push(entry)[i],
    ) by {
        if i < entries.len() {
            assert(is_built_entry(entries[i]));
        }
    }
}

/// What is built stays so when leaves are emitted after it.
proof fn lemma_built_leaves(entries: Seq<EntryView>, buffer: Seq<EntryView>)
    requires
        all_built(entries),
        all_leaves(buffer),
    ensures
        all_built(entries + buffer),
{
    assert forall|i: int| 0 <= i < (entries + buffer).len() implies is_built_entry(
        #[trigger] (entries + buffer)[i],
    ) by {
        if i < entries.len() {
            assert(is_built_entry(entries[i]));
        } else {
            assert(buffer[i - entries.len()].is_leaf());
        }
    }
}

/// An open nest that takes one more built group under its operator is a built nest, and
/// what stood before it stands before it still.
proof fn lemma_built_sub_group(entries: Seq<EntryView>, child: EntryView)
    requires
        entries.len() > 0,
        all_built(entries.drop_last()),
        is_open_nest(entries.last()),
        is_built_group(child),
        operator_of(child) == operator_of(entries.last()),
    ensures
        with_sub_group(entries, child).drop_last() == entries.drop_last(),
        is_built_nest(with_sub_group(entries, child).last()),
        all_built(with_sub_group(entries, child)),
{
    let nest = entries.last();
    let children = nest.children().push(child);
    let grown = group(operator_of(nest)->0, children);
    let after = with_sub_group(entries, child);
    assert(grown.children() == children);
    assert(after.last() == grown);
    assert(after.drop_last() == entries.drop_last());
    assert forall|i: int| 0 <= i < children.len() implies is_flat_group(#[trigger] children[i])
        && operator_of(children[i]) == operator_of(grown) && children[i].children().len()
        >= 2 by {
        if i < nest.children().len() {
            assert(is_flat_group(nest.children()[i]));
            assert(nest.children()[i].children().len() >= 2);
        }
    }
    assert(is_built_nest(grown));
    assert forall|i: int| 0 <= i < after.len() implies is_built_entry(#[trigger] after[i]) by {
        if i < after.len() - 1 {
            assert(after[i] == entries.drop_last()[i]);
        }
    }
}

/// The machine keeps its memory tightly fit for its state.
pub proof fn lemma_step_keeps_tight_fit(state: ParseCoursesState, memory: Memory, token: Token)
    requires
        fits_tightly(state, memory),
        step(state, memory, token) is Ok,
    ensures
        fits_tightly(step(state, memory, token)->Ok_0.0, step(state, memory, token)->Ok_0.1),
{
    let (next, after) = step(state, memory, token)->Ok_0;
    lemma_step_keeps_fit(state, memory, token);
    let flat = memory.pending_group();
    match state {
        ParseCoursesState::InitialBlankRead => {
            lemma_built_leaves(memory.entries, memory.buffer);
        },
        ParseCoursesState::TerminatingBlankRead => {
            assert(flat.children() == memory.buffer);
            assert(is_built_group(flat));
            if token.is_leaf() {
                lemma_built_push(memory.entries, flat);
            } else {
                let nest = group(memory.operator->0, seq![flat]);
                assert(nest.children() == seq![flat]);
                assert(after.entries.last() == nest);
                assert(after.entries.drop_last() == memory.entries);
                assert(is_open_nest(nest));
            }
        },
        ParseCoursesState::NestedTerminatingBlankRead => {
            assert(flat.children() == memory.buffer);
            assert(is_built_group(flat));
            lemma_built_sub_group(memory.entries, flat);
        },
        _ => {},
    }
}

/// Whatever the machine has read from the start, its memory is tightly fit for its state.
pub proof fn lemma_run_fits_tightly(tokens: Seq<Token>)
    requires
        run(tokens) is Ok,
    ensures
        fits_tightly(run(tokens)->Ok_0.0, run(tokens)->Ok_0.1),
    decreases tokens.len(),
{
    if tokens.len() == 0 {
        assert(all_built(Memory::initial().entries));
    } else {
        lemma_run_fits_tightly(tokens.drop_last());
        let (state, memory) = run(tokens.drop_last())->Ok_0;
        lemma_step_keeps_tight_fit(state, memory, tokens.last());
    }
}

/// The tree of an accepted listing is a tree as the machine builds it: it has an entry, its
/// groups hold two or more leaves, and its nests two or more such groups.
pub proof fn lemma_parsed_tree_is_built(tokens: Seq<Token>)
    requires
        parse_tokens(tokens) is Ok,
    ensures
        is_built_tree(parse_tokens(tokens)->Ok_0),
{
    lemma_run_fits_tightly(tokens);
    let (state, memory) = run(tokens)->Ok_0;
    let flat = memory.pending_group();
    assert(flat.children() == memory.buffer);
    match state {
        ParseCoursesState::CourseDetection => {
            lemma_built_leaves(memory.entries, memory.buffer);
        },
        ParseCoursesState::ReadCourseWithOp | ParseCoursesState::TerminatingBlankRead => {
            lemma_built_push(memory.entries, flat);
        },
        ParseCoursesState::NestedReadCourseWithOp
        | ParseCoursesState::NestedTerminatingBlankRead => {
            lemma_built_sub_group(memory.entries, flat);
        },
        _ => {},
    }
}

/// The token that the leaf `entry` is read from.
pub open spec fn leaf_token(entry: EntryView) -> Token
    recommends
        entry.is_leaf(),
{
    match entry {
        EntryView::Label(label) => Token::Label(label),
        EntryView::Course(course) => Token::Course(course),
        _ => arbitrary(),
    }
}

/// The leaves `leaves` of a group under `operator` as a listing writes them: the first
/// leaf, the marker, and the other leaves.
pub open spec fn group_listing(leaves: Seq<EntryView>, operator: Operator) -> Seq<Token>
    recommends
        leaves.len() >= 2,
    decreases leaves.len(),
{
    if leaves.len() < 2 {
        Seq::empty()
    } else if leaves.len() == 2 {
        seq![leaf_token(leaves[0]), marker_token(operator), leaf_token(leaves[1])]
    } else {
        group_listing(leaves.drop_last(), operator).push(leaf_token(leaves.last()))
    }
}

/// The sub-groups `sub_groups` of a nest under `operator` as a listing writes them: each as
/// a group, with a blank, the marker and a blank between each two.
pub open spec fn nest_listing(sub_groups: Seq<EntryView>, operator: Operator) -> Seq<Token>
    decreases sub_groups.len(),
{
    if sub_groups.len() == 0 {
        Seq::empty()
    } else if sub_groups.len() == 1 {
        group_listing(sub_groups[0].children(), operator)
    } else {
        nest_listing(sub_groups.drop_last(), operator) + seq![
            Token::Blank,
            marker_token(operator),
            Token::Blank,
        ] + group_listing(sub_groups.last().children(), operator)
    }
}

/// One entry of the top level as a listing writes it.
pub open spec fn entry_listing(entry: EntryView) -> Seq<Token> {
    match operator_of(entry) {
        None => seq![leaf_token(entry)],
        Some(operator) => if is_flat_group(entry) {
            group_listing(entry.children(), operator)
        } else {
            nest_listing(entry.children(), operator)
        },
    }
}

/// The tree `tree` as a listing: its entries in order, with a blank before each group and
/// after each group that is not the last entry.
pub open spec fn listing_of(tree: Seq<EntryView>) -> Seq<Token>
    decreases tree.len(),
{
    if tree.len() == 0 {
        Seq::empty()
    } else {
        let before = tree.drop_last();
        let blank: Seq<Token> = if tree.last().is_group() || (before.len() > 0
            && before.last().is_group()) {
            seq![Token::Blank]
        } else {
            Seq::empty()
        };
        listing_of(before) + blank + entry_listing(tree.last())
    }
}

/// Whether the machine, in `state` with `memory`, has read a listing of `tree` and no more:
/// it has read nothing and the tree is empty, or it stands after a leaf or in a group, and
/// ending the listing there gives `tree`.
pub open spec fn rests_on(state: ParseCoursesState, memory: Memory, tree: Seq<EntryView>) -> bool {
    if tree.len() == 0 {
        state is InitialState && memory == Memory::initial()
    } else {
        &&& finish(state, memory) == Ok::<Seq<EntryView>, ParseError>(tree)
        &&& memory.operator is Some <==> tree.last().is_group()
        &&& if tree.last().is_leaf() {
            state is CourseDetection
        } else {
            state is ReadCourseWithOp || state is NestedReadCourseWithOp
        }
    }
}

/// Reading one more token is one more step.
pub proof fn lemma_run_push(
    state: ParseCoursesState,
    memory: Memory,
    tokens: Seq<Token>,
    token: Token,
)
    ensures
        run_from(state, memory, tokens.push(token)) == match run_from(state, memory, tokens) {
            Ok((reached, held)) => step(reached, held, token),
            Err(e) => Err(e),
        },
{
    assert(tokens.push(token).drop_last() == tokens);
}

/// Reading two listings one after the other is reading the second from where the first
/// leaves the machine.
pub proof fn lemma_run_concat(
    state: ParseCoursesState,
    memory: Memory,
    first: Seq<Token>,
    second: Seq<Token>,
)
    ensures
        run_from(state, memory, first + second) == match run_from(state, memory, first) {
            Ok((reached, held)) => run_from(reached, held, second),
            Err(e) => Err(e),
        },
    decreases second.len(),
{
    if second.len() == 0 {
        assert(first + second == first);
    } else {
        assert((first + second).drop_last() == first + second.drop_last());
        lemma_run_concat(state, memory, first, second.drop_last());
    }
}

/// Reading one token is one step.
proof fn lemma_run_one(state: ParseCoursesState, memory: Memory, token: Token)
    ensures
        run_from(state, memory, seq![token]) == step(state, memory, token),
{
    assert(seq![token] == Seq::<Token>::empty().push(token));
    lemma_run_push(state, memory, Seq::empty(), token);
}

/// Reading two tokens is two steps.
proof fn lemma_run_two(state: ParseCoursesState, memory: Memory, first: Token, second: Token)
    ensures
        run_from(state, memory, seq![first, second]) == match step(state, memory, first) {
            Ok((reached, held)) => step(reached, held, second),
            Err(e) => Err(e),
        },
{
    assert(seq![first, second] == seq![first].push(second));
    lemma_run_one(state, memory, first);
    lemma_run_push(state, memory, seq![first], second);
}

/// Reading three tokens is three steps.
proof fn lemma_run_three(
    state: ParseCoursesState,
    memory: Memory,
    first: Token,
    second: Token,
    third: Token,
)
    ensures
        run_from(state, memory, seq![first, second, third]) == match step(state, memory, first) {
            Ok((reached, held)) => match step(reached, held, second) {
                Ok((reached, held)) => step(reached, held, third),
                Err(e) => Err(e),
            },
            Err(e) => Err(e),
        },
{
    assert(seq![first, second, third] == seq![first, second].push(third));
    lemma_run_two(state, memory, first, second);
    lemma_run_push(state, memory, seq![first, second], third);
}

/// A group is the group of its children under its operator.
proof fn lemma_group_of_children(entry: EntryView)
    requires
        entry.is_group(),
    ensures
        group(operator_of(entry)->0, entry.children()) == entry,
{
}

/// A leaf written after a tree: the machine rests on the tree with the leaf after it.
proof fn lemma_leaf_written(
    state: ParseCoursesState,
    memory: Memory,
    tree: Seq<EntryView>,
    leaf: EntryView,
)
    requires
        rests_on(state, memory, tree),
        leaf.is_leaf(),
    ensures
        ({
            let blank: Seq<Token> = if tree.len() > 0 && tree.last().is_group() {
                seq![Token::Blank]
            } else {
                Seq::empty()
            };
            let after = run_from(state, memory, blank + seq![leaf_token(leaf)]);
            after is Ok && rests_on(after->Ok_0.0, after->Ok_0.1, tree.push(leaf))
        }),
{
    let token = leaf_token(leaf);
    assert(token.is_leaf() && token.leaf() == leaf);
    if tree.len() > 0 && tree.last().is_group() {
        assert(seq![Token::Blank] + seq![token] == seq![Token::Blank, token]);
        lemma_run_two(state, memory, Token::Blank, token);
        let after = run_from(state, memory, seq![Token::Blank, token])->Ok_0.1;
        assert(after.entries == tree);
        assert(after.entries + after.buffer == tree.push(leaf));
    } else {
        assert(Seq::<Token>::empty() + seq![token] == seq![token]);
        lemma_run_one(state, memory, token);
        let after = run_from(state, memory, seq![token])->Ok_0.1;
        if tree.len() == 0 {
            assert(after.entries + after.buffer == tree.push(leaf));
        } else {
            assert(memory.entries + memory.buffer == tree);
            assert(after.entries + after.buffer == tree.push(leaf));
        }
    }
}

/// A group written after a tree: the machine stands in the group, with the tree emitted.
proof fn lemma_group_written(
    state: ParseCoursesState,
    memory: Memory,
    tree: Seq<EntryView>,
    leaves: Seq<EntryView>,
    operator: Operator,
)
    requires
        rests_on(state, memory, tree),
        all_leaves(leaves),
        leaves.len() >= 2,
    ensures
        run_from(state, memory, seq![Token::Blank] + group_listing(leaves, operator)) == Ok::<
            (ParseCoursesState, Memory),
            ParseError,
        >(
            (
                ParseCoursesState::ReadCourseWithOp,
                Memory { operator: Some(operator), buffer: leaves, entries: tree },
            ),
        ),
    decreases leaves.len(),
{
    let blank = seq![Token::Blank];
    if leaves.len() == 2 {
        let first = leaf_token(leaves[0]);
        let second = leaf_token(leaves[1]);
        let marker = marker_token(operator);
        assert(leaves[0].is_leaf() && leaves[1].is_leaf());
        assert(first.is_leaf() && first.leaf() == leaves[0]);
        assert(second.is_leaf() && second.leaf() == leaves[1]);
        assert(blank + group_listing(leaves, operator) == seq![Token::Blank, first] + seq![
            marker,
            second,
        ]);
        lemma_run_concat(state, memory, seq![Token::Blank, first], seq![marker, second]);
        lemma_run_two(state, memory, Token::Blank, first);
        let (opened, held) = run_from(state, memory, seq![Token::Blank, first])->Ok_0;
        if tree.len() == 0 || tree.last().is_leaf() {
            assert(memory.entries + memory.buffer == tree);
        }
        assert(held.buffer == seq![leaves[0]]);
        assert(held.entries == tree);
        assert(held == Memory { operator: None, buffer: seq![leaves[0]], entries: tree });
        lemma_run_two(opened, held, marker, second);
        assert(seq![leaves[0]].push(leaves[1]) == leaves);
    } else {
        let shorter = leaves.drop_last();
        let last = leaf_token(leaves.last());
        assert(leaves.last().is_leaf());
        assert(last.is_leaf() && last.leaf() == leaves.last());
        assert forall|i: int| 0 <= i < shorter.len() implies (#[trigger] shorter[i]).is_leaf() by {
            assert(leaves[i].is_leaf());
        }
        lemma_group_written(state, memory, tree, shorter, operator);
        assert(blank + group_listing(leaves, operator) == (blank + group_listing(
            shorter,
            operator,
        )).push(last));
        lemma_run_push(state, memory, blank + group_listing(shorter, operator), last);
        assert(shorter.push(leaves.last()) == leaves);
    }
}

/// A sub-group written after the blank that opens it: the machine stands in the sub-group.
proof fn lemma_sub_group_written(
    memory: Memory,
    leaves: Seq<EntryView>,
    operator: Operator,
)
    requires
        memory.operator is None,
        memory.buffer.len() == 0,
        memory.entries.len() > 0,
        operator_of(memory.entries.last()) == Some(operator),
        all_leaves(leaves),
        leaves.len() >= 2,
    ensures
        run_from(
            ParseCoursesState::NestedInitialBlankRead,
            memory,
            group_listing(leaves, operator),
        ) == Ok::<(ParseCoursesState, Memory), ParseError>(
            (
                ParseCoursesState::NestedReadCourseWithOp,
                Memory { operator: Some(operator), buffer: leaves, entries: memory.entries },
            ),
        ),
    decreases leaves.len(),
{
    let start = ParseCoursesState::NestedInitialBlankRead;
    if leaves.len() == 2 {
        let first = leaf_token(leaves[0]);
        let second = leaf_token(leaves[1]);
        let marker = marker_token(operator);
        assert(leaves[0].is_leaf() && leaves[1].is_leaf());
        assert(first.is_leaf() && first.leaf() == leaves[0]);
        assert(second.is_leaf() && second.leaf() == leaves[1]);
        lemma_run_three(start, memory, first, marker, second);
        assert(memory.buffer == Seq::<EntryView>::empty());
        assert(Seq::<EntryView>::empty().push(leaves[0]).push(leaves[1]) == leaves);
    } else {
        let shorter = leaves.drop_last();
        let last = leaf_token(leaves.last());
        assert(leaves.last().is_leaf());
        assert(last.is_leaf() && last.leaf() == leaves.last());
        assert forall|i: int| 0 <= i < shorter.len() implies (#[trigger] shorter[i]).is_leaf() by {
            assert(leaves[i].is_leaf());
        }
        lemma_sub_group_written(memory, shorter, operator);
        lemma_run_push(start, memory, group_listing(shorter, operator), last);
        assert(shorter.push(leaves.last()) == leaves);
    }
}

/// Where the machine stands once the sub-groups `sub_groups` of a nest under `operator`
/// have been written after `tree`: in the one sub-group, as in a group, or in the last of
/// several, with the others emitted as the open nest.
pub open spec fn in_last_sub_group(
    tree: Seq<EntryView>,
    sub_groups: Seq<EntryView>,
    operator: Operator,
) -> (ParseCoursesState, Memory) {
    if sub_groups.len() == 1 {
        (
            ParseCoursesState::ReadCourseWithOp,
            Memory { operator: Some(operator), buffer: sub_groups[0].children(), entries: tree },
        )
    } else {
        (
            ParseCoursesState::NestedReadCourseWithOp,
            Memory {
                operator: Some(operator),
                buffer: sub_groups.last().children(),
                entries: tree.push(group(operator, sub_groups.drop_last())),
            },
        )
    }
}

/// The sub-groups of a nest written after a tree: the machine stands in the last of them.
proof fn lemma_nest_written(
    state: ParseCoursesState,
    memory: Memory,
    tree: Seq<EntryView>,
    sub_groups: Seq<EntryView>,
    operator: Operator,
)
    requires
        rests_on(state, memory, tree),
        sub_groups.len() >= 1,
        forall|i: int|
            0 <= i < sub_groups.len() ==> is_built_group(#[trigger] sub_groups[i]) && operator_of(
                sub_groups[i],
            ) == Some(operator),
    ensures
        run_from(state, memory, seq![Token::Blank] + nest_listing(sub_groups, operator)) == Ok::<
            (ParseCoursesState, Memory),
            ParseError,
        >(in_last_sub_group(tree, sub_groups, operator)),
    decreases sub_groups.len(),
{
    let blank = seq![Token::Blank];
    let last = sub_groups.last();
    assert(is_built_group(last));
    if sub_groups.len() == 1 {
        assert(is_built_group(sub_groups[0]));
        lemma_group_written(state, memory, tree, sub_groups[0].children(), operator);
    } else {
        let others = sub_groups.drop_last();
        let marker = marker_token(operator);
        let between = seq![Token::Blank, marker, Token::Blank];
        let body = group_listing(last.children(), operator);
        assert forall|i: int| 0 <= i < others.len() implies is_built_group(#[trigger] others[i])
            && operator_of(others[i]) == Some(operator) by {
            assert(others[i] == sub_groups[i]);
        }
        lemma_nest_written(state, memory, tree, others, operator);
        let written = blank + nest_listing(others, operator);
        assert(blank + nest_listing(sub_groups, operator) == (written + between) + body);
        lemma_run_concat(state, memory, written + between, body);
        lemma_run_concat(state, memory, written, between);
        let (reached, held) = in_last_sub_group(tree, others, operator);
        lemma_run_three(reached, held, Token::Blank, marker, Token::Blank);
        let opened = run_from(reached, held, between);
        let emitted = tree.push(group(operator, others));
        let previous = others.last();
        assert(is_built_group(previous));
        lemma_group_of_children(previous);
        if others.len() == 1 {
            assert(others == seq![previous]);
            assert(opened == Ok::<(ParseCoursesState, Memory), ParseError>(
                (
                    ParseCoursesState::NestedInitialBlankRead,
                    Memory { operator: None, buffer: Seq::empty(), entries: emitted },
                ),
            ));
        } else {
            let open = tree.push(group(operator, others.drop_last()));
            assert(open.drop_last() == tree);
            assert(others.drop_last().push(previous) == others);
            assert(with_sub_group(open, previous) == emitted);
            assert(opened == Ok::<(ParseCoursesState, Memory), ParseError>(
                (
                    ParseCoursesState::NestedInitialBlankRead,
                    Memory { operator: None, buffer: Seq::empty(), entries: emitted },
                ),
            ));
        }
        lemma_sub_group_written(
            Memory { operator: None, buffer: Seq::empty(), entries: emitted },
            last.children(),
            operator,
        );
    }
}

/// The machine reads the listing of a built tree to its end, and rests on the tree.
pub proof fn lemma_listing_read(tree: Seq<EntryView>)
    requires
        all_built(tree),
    ensures
        run(listing_of(tree)) is Ok,
        rests_on(run(listing_of(tree))->Ok_0.0, run(listing_of(tree))->Ok_0.1, tree),
    decreases tree.len(),
{
    let start = ParseCoursesState::InitialState;
    let initial = Memory::initial();
    if tree.len() > 0 {
        let before = tree.drop_last();
        let entry = tree.last();
        assert forall|i: int| 0 <= i < before.len() implies is_built_entry(#[trigger] before[i]) by {
            assert(before[i] == tree[i]);
        }
        assert(is_built_entry(entry));
        lemma_listing_read(before);
        let (state, memory) = run(listing_of(before))->Ok_0;
        let blank: Seq<Token> = if entry.is_group() || (before.len() > 0
            && before.last().is_group()) {
            seq![Token::Blank]
        } else {
            Seq::empty()
        };
        assert(listing_of(tree) == listing_of(before) + (blank + entry_listing(entry)));
        lemma_run_concat(start, initial, listing_of(before), blank + entry_listing(entry));
        assert(before.push(entry) == tree);
        if entry.is_leaf() {
            lemma_leaf_written(state, memory, before, entry);
        } else {
            let operator = operator_of(entry)->0;
            lemma_group_of_children(entry);
            if is_flat_group(entry) {
                lemma_group_written(state, memory, before, entry.children(), operator);
            } else {
                let sub_groups = entry.children();
                assert(is_built_nest(entry));
                assert forall|i: int| 0 <= i < sub_groups.len() implies is_built_group(
                    #[trigger] sub_groups[i],
                ) && operator_of(sub_groups[i]) == Some(operator) by {
                    assert(is_flat_group(sub_groups[i]));
                }
                lemma_nest_written(state, memory, before, sub_groups, operator);
                let open = before.push(group(operator, sub_groups.drop_last()));
                let last = sub_groups.last();
                assert(is_built_group(last));
                lemma_group_of_children(last);
                assert(open.drop_last() == before);
                assert(sub_groups.drop_last().push(last) == sub_groups);
                assert(with_sub_group(open, last) == tree);
            }
        }
    }
}

/// A tree as the machine builds it is the tree of its own listing.
pub proof fn lemma_listing_parses_back(tree: Seq<EntryView>)
    requires
        is_built_tree(tree),
    ensures
        parse_tokens(listing_of(tree)) == Ok::<Seq<EntryView>, ParseError>(tree),
{
    lemma_listing_read(tree);
}

/// The tree of an accepted listing, written back as a listing and parsed again, is the same
/// tree.
pub proof fn lemma_round_trip(tokens: Seq<Token>)
    requires
        parse_tokens(tokens) is Ok,
    ensures
        parse_tokens(listing_of(parse_tokens(tokens)->Ok_0)) == parse_tokens(tokens),
{
    lemma_parsed_tree_is_built(tokens);
    lemma_listing_parses_back(parse_tokens(tokens)->Ok_0);
}

/// What the classified entries `entries` hold, in order.
pub open spec fn token_views(entries: Seq<ParsedCourseEntry>) -> Seq<Token> {
    Seq::new(entries.len(), |i: int| entries[i]@)
}

/// Adds `entry` to `listing`.
fn write_entry(listing: &mut Vec<ParsedCourseEntry>, entry: ParsedCourseEntry)
    ensures
        token_views(final(listing)@) == token_views(old(listing)@).push(entry@),
{
    listing.push(entry);
    assert(token_views(listing@) =~= token_views(old(listing)@).push(entry@));
}

/// Adds the token of the leaf `leaf` to `listing`.
fn write_leaf(listing: &mut Vec<ParsedCourseEntry>, leaf: &CourseEntry)
    requires
        leaf@.is_leaf(),
    ensures
        token_views(final(listing)@) == token_views(old(listing)@).push(leaf_token(leaf@)),
{
    match leaf {
        CourseEntry::Label(label) => write_entry(listing, ParsedCourseEntry::Label(label.clone())),
        CourseEntry::Course(course) => write_entry(
            listing,
            ParsedCourseEntry::Course(course.clone()),
        ),
        _ => {},
    }
}

/// Adds the marker of `operator` to `listing`.
fn write_marker(listing: &mut Vec<ParsedCourseEntry>, operator: Operator)
    ensures
        token_views(final(listing)@) == token_views(old(listing)@).push(marker_token(operator)),
{
    match operator {
        Operator::And => write_entry(listing, ParsedCourseEntry::And),
        Operator::Or => write_entry(listing, ParsedCourseEntry::Or),
    }
}

/// Adds the leaves `leaves` of a group under `operator` to `listing`.
fn write_group(listing: &mut Vec<ParsedCourseEntry>, leaves: &CourseEntries, operator: Operator)
    requires
        all_leaves(leaves@),
        leaves@.len() >= 2,
    ensures
        token_views(final(listing)@) == token_views(old(listing)@) + group_listing(
            leaves@,
            operator,
        ),
{
    let ghost written = token_views(listing@);
    proof {
        lemma_view_of_entries(*leaves);
        assert(leaves@[0].is_leaf() && leaves@[1].is_leaf());
    }
    write_leaf(listing, &leaves.0[0]);
    write_marker(listing, operator);
    write_leaf(listing, &leaves.0[1]);
    let mut i: usize = 2;
    proof {
        let two = leaves@.take(2);
        assert(two[0] == leaves@[0] && two[1] == leaves@[1]);
        assert(token_views(listing@) == written + group_listing(two, operator));
    }
    while i < leaves.0.len()
        invariant
            2 <= i <= leaves.0.len(),
            leaves@ == view_all(leaves.0@),
            all_leaves(leaves@),
            token_views(listing@) == written + group_listing(leaves@.take(i as int), operator),
        decreases leaves.0.len() - i,
    {
        proof {
            assert(leaves@[i as int].is_leaf());
            assert(leaves@.take(i + 1).drop_last() == leaves@.take(i as int));
            assert(leaves@.take(i + 1).last() == leaves@[i as int]);
        }
        write_leaf(listing, &leaves.0[i]);
        i = i + 1;
    }
    assert(leaves@.take(i as int) == leaves@);
}

/// Adds the sub-groups `sub_groups` of a nest under `operator` to `listing`.
fn write_nest(
    listing: &mut Vec<ParsedCourseEntry>,
    sub_groups: &CourseEntries,
    operator: Operator,
)
    requires
        sub_groups@.len() >= 1,
        forall|i: int| 0 <= i < sub_groups@.len() ==> is_built_group(#[trigger] sub_groups@[i]),
    ensures
        token_views(final(listing)@) == token_views(old(listing)@) + nest_listing(
            sub_groups@,
            operator,
        ),
{
    let ghost written = token_views(listing@);
    proof {
        lemma_view_of_entries(*sub_groups);
        assert(sub_groups@.take(0) == Seq::<EntryView>::empty());
        assert(written + nest_listing(sub_groups@.take(0), operator) == written);
    }
    let mut i: usize = 0;
    while i < sub_groups.0.len()
        invariant
            i <= sub_groups.0.len(),
            sub_groups@ == view_all(sub_groups.0@),
            forall|k: int| 0 <= k < sub_groups@.len() ==> is_built_group(#[trigger] sub_groups@[k]),
            token_views(listing@) == written + nest_listing(sub_groups@.take(i as int), operator),
        decreases sub_groups.0.len() - i,
    {
        let ghost before = token_views(listing@);
        let ghost read = sub_groups@.take(i as int);
        let ghost next = sub_groups@.take(i + 1);
        proof {
            assert(is_built_group(sub_groups@[i as int]));
            assert(next.drop_last() == read);
            assert(next.last() == sub_groups@[i as int]);
            if i == 0 {
                assert(next[0] == sub_groups@[0]);
            }
        }
        if i > 0 {
            write_entry(listing, ParsedCourseEntry::Blank);
            write_marker(listing, operator);
            write_entry(listing, ParsedCourseEntry::Blank);
            assert(token_views(listing@) == before + seq![
                Token::Blank,
                marker_token(operator),
                Token::Blank,
            ]);
        }
        match &sub_groups.0[i] {
            CourseEntry::And(leaves) | CourseEntry::Or(leaves) => {
                write_group(listing, leaves, operator);
            },
            _ => {},
        }
        proof {
            let body = group_listing(sub_groups@[i as int].children(), operator);
            if i > 0 {
                let between = seq![Token::Blank, marker_token(operator), Token::Blank];
                assert(((written + nest_listing(read, operator)) + between) + body == written + ((
                nest_listing(read, operator) + between) + body));
            } else {
                assert(nest_listing(read, operator) == Seq::<Token>::empty());
                assert(written + Seq::<Token>::empty() + body == written + body);
            }
        }
        i = i + 1;
    }
    assert(sub_groups@.take(i as int) == sub_groups@);
}

/// Whether `entry` is a group.
fn is_group(entry: &CourseEntry) -> (r: bool)
    ensures
        r == entry@.is_group(),
{
    match entry {
        CourseEntry::And(_) | CourseEntry::Or(_) => true,
        _ => false,
    }
}

/// Writes one entry of the top level to `listing`.
fn write_top_entry(listing: &mut Vec<ParsedCourseEntry>, entry: &CourseEntry)
    requires
        is_built_entry(entry@),
    ensures
        token_views(final(listing)@) == token_views(old(listing)@) + entry_listing(entry@),
{
    let ghost written = token_views(listing@);
    let (children, operator) = match entry {
        CourseEntry::And(children) => (children, Operator::And),
        CourseEntry::Or(children) => (children, Operator::Or),
        leaf => {
            write_leaf(listing, leaf);
            assert(written.push(leaf_token(entry@)) == written + seq![leaf_token(entry@)]);
            return ;
        },
    };
    proof {
        lemma_view_of_entries(*children);
    }
    if children.0.len() > 0 && !is_group(&children.0[0]) {
        proof {
            assert(children@[0].is_leaf());
            if !is_flat_group(entry@) {
                assert(is_flat_group(entry@.children()[0]));
            }
        }
        write_group(listing, children, operator);
    } else {
        proof {
            if is_flat_group(entry@) {
                assert(entry@.children()[0].is_leaf());
            }
            assert forall|i: int| 0 <= i < children@.len() implies is_built_group(
                #[trigger] children@[i],
            ) by {
                assert(is_flat_group(entry@.children()[i]));
                assert(entry@.children()[i].children().len() >= 2);
            }
        }
        write_nest(listing, children, operator);
    }
}

/// Whether `entry` is a leaf.
fn is_leaf(entry: &CourseEntry) -> (r: bool)
    ensures
        r == entry@.is_leaf(),
{
    !is_group(entry)
}

/// Whether `entry` is a group under `operator`.
fn is_group_under(entry: &CourseEntry, operator: Operator) -> (r: bool)
    ensures
        r == (operator_of(entry@) == Some(operator)),
{
    match entry {
        CourseEntry::And(_) => operator == Operator::And,
        CourseEntry::Or(_) => operator == Operator::Or,
        _ => false,
    }
}

/// Whether `entry` is a group of two or more leaves.
fn check_built_group(entry: &CourseEntry) -> (r: bool)
    ensures
        r == is_built_group(entry@),
{
    let children = match entry {
        CourseEntry::And(children) | CourseEntry::Or(children) => children,
        _ => {
            return false;
        },
    };
    proof {
        lemma_view_of_entries(*children);
    }
    if children.0.len() < 2 {
        return false;
    }
    let mut i: usize = 0;
    while i < children.0.len()
        invariant
            i <= children.0.len(),
            children@ == view_all(children.0@),
            entry@.children() == children@,
            entry@.is_group(),
            children@.len() >= 2,
            forall|k: int| 0 <= k < i ==> (#[trigger] children@[k]).is_leaf(),
        decreases children.0.len() - i,
    {
        if !is_leaf(&children.0[i]) {
            assert(!children@[i as int].is_leaf());
            return false;
        }
        i = i + 1;
    }
    true
}

/// Whether `entry` is what the parser builds at the top level: a leaf, a group of two or
/// more leaves, or a nest of two or more such groups under its operator.
fn check_built_entry(entry: &CourseEntry) -> (r: bool)
    ensures
        r == is_built_entry(entry@),
{
    let (children, operator) = match entry {
        CourseEntry::And(children) => (children, Operator::And),
        CourseEntry::Or(children) => (children, Operator::Or),
        _ => {
            return true;
        },
    };
    if check_built_group(entry) {
        return true;
    }
    proof {
        lemma_view_of_entries(*children);
    }
    if children.0.len() < 2 {
        return false;
    }
    let mut i: usize = 0;
    while i < children.0.len()
        invariant
            i <= children.0.len(),
            children@ == view_all(children.0@),
            entry@.children() == children@,
            entry@.is_group(),
            operator_of(entry@) == Some(operator),
            children@.len() >= 2,
            !is_built_group(entry@),
            forall|k: int|
                0 <= k < i ==> is_built_group(#[trigger] children@[k]) && operator_of(
                    children@[k],
                ) == Some(operator),
        decreases children.0.len() - i,
    {
        if !(check_built_group(&children.0[i]) && is_group_under(&children.0[i], operator)) {
            proof {
                let child = children@[i as int];
                assert(!(is_flat_group(child) && child.children().len() >= 2 && operator_of(child)
                    == operator_of(entry@)));
            }
            return false;
        }
        i = i + 1;
    }
    proof {
        assert forall|k: int| 0 <= k < entry@.children().len() implies is_flat_group(
            #[trigger] entry@.children()[k],
        ) && operator_of(entry@.children()[k]) == operator_of(entry@)
            && entry@.children()[k].children().len() >= 2 by {
            assert(is_built_group(children@[k]));
        }
    }
    true
}

impl CourseEntries {
    /// Whether each entry of the tree is what the parser builds at the top level.
    pub fn is_built(&self) -> (r: bool)
        ensures
            r == all_built(self@),
    {
        proof {
            lemma_view_of_entries(*self);
        }
        let mut i: usize = 0;
        while i < self.0.len()
            invariant
                i <= self.0.len(),
                self@ == view_all(self.0@),
                forall|k: int| 0 <= k < i ==> is_built_entry(#[trigger] self@[k]),
            decreases self.0.len() - i,
        {
            if !check_built_entry(&self.0[i]) {
                assert(!is_built_entry(self@[i as int]));
                return false;
            }
            i = i + 1;
        }
        true
    }

    /// The tree written back as a listing: its entries in order, with a blank before each
    /// group and after each group that is not the last entry. A tree of another shape than
    /// the parser builds has no listing.
    ///
    /// Parsing the listing of a tree that has an entry gives that tree again.
    pub fn to_listing(&self) -> (r: Option<Vec<ParsedCourseEntry>>)
        ensures
            match r {
                Some(listing) => {
                    &&& all_built(self@)
                    &&& token_views(listing@) == listing_of(self@)
                    &&& self@.len() > 0 ==> parse_tokens(token_views(listing@)) == Ok::<
                        Seq<EntryView>,
                        ParseError,
                    >(self@)
                },
                None => !all_built(self@),
            },
    {
        if !self.is_built() {
            return None;
        }
        let mut listing: Vec<ParsedCourseEntry> = Vec::new();
        let mut i: usize = 0;
        proof {
            lemma_view_of_entries(*self);
            assert(self@.take(0) == Seq::<EntryView>::empty());
            assert(token_views(listing@) == listing_of(self@.take(0)));
            if self@.len() > 0 {
                lemma_listing_parses_back(self@);
            }
        }
        while i < self.0.len()
            invariant
                i <= self.0.len(),
                self@ == view_all(self.0@),
                all_built(self@),
                token_views(listing@) == listing_of(self@.take(i as int)),
            decreases self.0.len() - i,
        {
            let ghost written = token_views(listing@);
            let ghost read = self@.take(i as int);
            let ghost next = self@.take(i + 1);
            proof {
                assert(is_built_entry(self@[i as int]));
                assert(next.drop_last() == read);
                assert(next.last() == self@[i as int]);
                if i > 0 {
                    assert(read.last() == self@[i - 1]);
                }
            }
            if is_group(&self.0[i]) || (i > 0 && is_group(&self.0[i - 1])) {
                write_entry(&mut listing, ParsedCourseEntry::Blank);
                assert(written.push(Token::Blank) == written + seq![Token::Blank]);
            } else {
                assert(written == written + Seq::<Token>::empty());
            }
            write_top_entry(&mut listing, &self.0[i]);
            i = i + 1;
        }
        assert(self@.take(i as int) == self@);
        Some(listing)
    }
}

} // verus!
