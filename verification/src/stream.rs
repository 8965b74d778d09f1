//! What holds of every compiled stream.
use crate::context::NameTable;
use crate::instruction::child_offset_word;
use crate::instruction::instruction_word;
use crate::instruction::lemma_word_fields;
use crate::instruction::word_operand;
use crate::instruction::word_tag;
use crate::instruction::DECORATOR_ID;
use crate::instruction::EXECUTOR_ID;
use crate::instruction::FALLBACK_ID;
use crate::instruction::NODE_SIZE;
use crate::instruction::OPERAND_MAX;
use crate::instruction::PARALLEL_ID;
use crate::instruction::SEQUENCE_ID;
use crate::registry::lemma_lookup_found;
use crate::registry::lookup;
use crate::flatten::control_words;
use crate::flatten::emit_node;
use crate::flatten::emit_stack;
use crate::flatten::emitted_nodes;
use crate::flatten::emitted_in;
use crate::flatten::flatten;
use crate::flatten::header_words;
use crate::flatten::leaf_words;
use crate::flatten::lemma_emit_length;
use crate::flatten::then_words;
use crate::identifier::Identifier;
use crate::tree::BehaviourNode;
use crate::tree::TreeCompilationError;
use vstd::prelude::*;

verus! {

/// The node in place `slot` of `code` is sound, where `code` starts at
/// position `base` of a stream: its tag is one of the five; a leaf holds the
/// handle of a registered leaf callable and no offset; a decorator holds the
/// handle of a registered decorator; a control node counts at least one
/// child; and the offset of a decorator or control node is the position
/// right behind the node.
pub open spec fn node_is_sound(code: Seq<u32>, names: NameTable, slot: int, base: int) -> bool {
    let word = code[NODE_SIZE * slot];
    let offset = code[NODE_SIZE * slot + 1];
    let tag = word_tag(word);
    let operand = word_operand(word);
    if tag == EXECUTOR_ID {
        operand < names.executors.len() && offset == 0
    } else if tag == DECORATOR_ID {
        operand < names.decorators.len() && offset == child_offset_word(base + NODE_SIZE * slot)
    } else {
        &&& tag == SEQUENCE_ID || tag == FALLBACK_ID || tag == PARALLEL_ID
        &&& operand > 0
        &&& offset == child_offset_word(base + NODE_SIZE * slot)
    }
}

/// `code` is a whole number of nodes, each of them sound.
pub open spec fn stream_is_sound(code: Seq<u32>, names: NameTable, base: int) -> bool {
    &&& code.len() % NODE_SIZE as nat == 0
    &&& forall|slot: int|
        0 <= slot < code.len() / NODE_SIZE as nat ==> #[trigger] node_is_sound(
            code,
            names,
            slot,
            base,
        )
}

/// Two sound streams, one behind the other, are a sound stream.
pub proof fn lemma_sound_streams_join(
    first: Seq<u32>,
    second: Seq<u32>,
    names: NameTable,
    base: int,
)
    requires
        stream_is_sound(first, names, base),
        stream_is_sound(second, names, base + first.len()),
    ensures
        stream_is_sound(first + second, names, base),
{
    let all = first + second;
    let nodes_before = first.len() as int / 2;
    assert forall|slot: int|
        0 <= slot < all.len() / NODE_SIZE as nat implies #[trigger] node_is_sound(
        all,
        names,
        slot,
        base,
    ) by {
        if slot < nodes_before {
            assert(node_is_sound(first, names, slot, base));
        } else {
            let inner = slot - nodes_before;
            assert(node_is_sound(second, names, inner, base + first.len()));
        }
    }
}

/// The header of a decorator or control node is sound where it stands.
proof fn lemma_header_is_sound(tag: u8, operand: nat, names: NameTable, start: int)
    requires
        operand <= OPERAND_MAX,
        tag == DECORATOR_ID ==> operand < names.decorators.len(),
        tag != DECORATOR_ID ==> (tag == SEQUENCE_ID || tag == FALLBACK_ID || tag == PARALLEL_ID)
            && operand > 0,
    ensures
        stream_is_sound(header_words(tag, operand, start), names, start),
{
    lemma_word_fields(tag, operand as u32);
}

/// The words of a leaf are sound wherever they stand.
proof fn lemma_leaf_is_sound(operand: nat, names: NameTable, start: int)
    requires
        operand <= OPERAND_MAX,
        operand < names.executors.len(),
    ensures
        stream_is_sound(leaf_words(EXECUTOR_ID, operand), names, start),
{
    lemma_word_fields(EXECUTOR_ID, operand as u32);
}

/// The words of a subtree are a sound stream where they stand: every handle
/// in them names an entry of the registry it was resolved against.
pub proof fn lemma_emit_node_sound(node: BehaviourNode, names: NameTable, start: int)
    ensures
        emit_node(node, names, start) matches Ok(words) ==> stream_is_sound(words, names, start),
    decreases node, 0nat,
{
    match node {
        BehaviourNode::Root(_) => {},
        BehaviourNode::Sequence { children } => {
            lemma_control_sound(SEQUENCE_ID, children@, names, start);
        },
        BehaviourNode::Fallback { children } => {
            lemma_control_sound(FALLBACK_ID, children@, names, start);
        },
        BehaviourNode::Parallel { children } => {
            lemma_control_sound(PARALLEL_ID, children@, names, start);
        },
        BehaviourNode::Decorator { name, child } => {
            lemma_lookup_found(names.decorators, name@);
            match lookup(names.decorators, name@) {
                None => {},
                Some(handle) => {
                    if handle <= OPERAND_MAX {
                        lemma_emit_node_sound(*child, names, start + NODE_SIZE);
                        match emit_node(*child, names, start + NODE_SIZE) {
                            Err(_) => {},
                            Ok(inner) => {
                                lemma_header_is_sound(DECORATOR_ID, handle, names, start);
                                lemma_sound_streams_join(
                                    header_words(DECORATOR_ID, handle, start),
                                    inner,
                                    names,
                                    start,
                                );
                            },
                        }
                    }
                },
            }
        },
        BehaviourNode::Executor(name) => {
            lemma_lookup_found(names.executors, name@);
            match lookup(names.executors, name@) {
                None => {},
                Some(handle) => {
                    if handle <= OPERAND_MAX {
                        lemma_leaf_is_sound(handle, names, start);
                    }
                },
            }
        },
    }
}

/// The words of a control node with these children are sound where they
/// stand.
proof fn lemma_control_sound(tag: u8, children: Seq<BehaviourNode>, names: NameTable, start: int)
    requires
        tag == SEQUENCE_ID || tag == FALLBACK_ID || tag == PARALLEL_ID,
    ensures
        control_words(
            tag,
            children.len(),
            start,
            emit_stack(children, names, start + NODE_SIZE),
        ) matches Ok(words) ==> stream_is_sound(words, names, start),
    decreases children, 2nat,
{
    let count = children.len();
    if 0 < count <= OPERAND_MAX {
        lemma_emit_stack_sound(children, names, start + NODE_SIZE);
        match emit_stack(children, names, start + NODE_SIZE) {
            Err(_) => {},
            Ok(inner) => {
                lemma_header_is_sound(tag, count, names, start);
                lemma_sound_streams_join(header_words(tag, count, start), inner, names, start);
            },
        }
    }
}

/// The words of a work list are a sound stream where they stand.
pub proof fn lemma_emit_stack_sound(nodes: Seq<BehaviourNode>, names: NameTable, start: int)
    ensures
        emit_stack(nodes, names, start) matches Ok(words) ==> stream_is_sound(words, names, start),
    decreases nodes, 1nat,
{
    if nodes.len() > 0 {
        lemma_emit_node_sound(nodes.last(), names, start);
        match emit_node(nodes.last(), names, start) {
            Err(_) => {},
            Ok(first) => {
                lemma_emit_stack_sound(nodes.drop_last(), names, start + first.len());
                match emit_stack(nodes.drop_last(), names, start + first.len()) {
                    Err(_) => {},
                    Ok(rest) => {
                        lemma_sound_streams_join(first, rest, names, start);
                    },
                }
            },
        }
    }
}

/// Every compiled stream is sound: it can be walked node by node, and every
/// handle in it names an entry of the context it was compiled against.
pub proof fn lemma_flatten_sound(node: BehaviourNode, names: NameTable)
    ensures
        flatten(node, names) matches Ok(words) ==> stream_is_sound(words, names, 0),
{
    lemma_emit_node_sound(node, names, 0);
}

/// `node` is a control node without children.
pub open spec fn is_empty_control(node: BehaviourNode) -> bool {
    match node {
        BehaviourNode::Sequence { children } => children@.len() == 0,
        BehaviourNode::Fallback { children } => children@.len() == 0,
        BehaviourNode::Parallel { children } => children@.len() == 0,
        _ => false,
    }
}

/// `node` is a leaf whose name is registered under a handle that fits the
/// operand.
pub open spec fn is_registered_leaf(node: BehaviourNode, names: NameTable) -> bool {
    match node {
        BehaviourNode::Executor(name) => match lookup(names.executors, name@) {
            Some(handle) => handle <= OPERAND_MAX,
            None => false,
        },
        _ => false,
    }
}

/// A control node without children takes no place in the stream, so a tree
/// that holds nothing else has no nodes, whatever is registered.
pub proof fn lemma_empty_control_has_no_nodes(node: BehaviourNode, names: NameTable)
    requires
        is_empty_control(node),
    ensures
        emit_node(node, names, 0) == Ok::<Seq<u32>, TreeCompilationError>(Seq::empty()),
        emitted_nodes(node) == 0,
        flatten(node, names) == Err::<Seq<u32>, TreeCompilationError>(
            TreeCompilationError::NoNodes,
        ),
{
}

/// A tree has no nodes exactly when flattening it meets no error and
/// nothing in it takes a place in the stream.
pub proof fn lemma_no_nodes(node: BehaviourNode, names: NameTable)
    ensures
        flatten(node, names) == Err::<Seq<u32>, TreeCompilationError>(
            TreeCompilationError::NoNodes,
        ) <==> emit_node(node, names, 0) is Ok && emitted_nodes(node) == 0,
        flatten(node, names) matches Ok(words) ==> words.len() == NODE_SIZE * emitted_nodes(node)
            && emitted_nodes(node) > 0,
{
    lemma_emit_length(node, names, 0);
    lemma_emit_never_no_nodes(node, names, 0);
}

/// Flattening a subtree never reports that there are no nodes: only the
/// whole stream can be empty.
pub proof fn lemma_emit_never_no_nodes(node: BehaviourNode, names: NameTable, start: int)
    ensures
        emit_node(node, names, start) != Err::<Seq<u32>, TreeCompilationError>(
            TreeCompilationError::NoNodes,
        ),
    decreases node, 0nat,
{
    match node {
        BehaviourNode::Root(_) => {},
        BehaviourNode::Sequence { children } => {
            lemma_emit_stack_never_no_nodes(children@, names, start + NODE_SIZE);
        },
        BehaviourNode::Fallback { children } => {
            lemma_emit_stack_never_no_nodes(children@, names, start + NODE_SIZE);
        },
        BehaviourNode::Parallel { children } => {
            lemma_emit_stack_never_no_nodes(children@, names, start + NODE_SIZE);
        },
        BehaviourNode::Decorator { name, child } => {
            lemma_emit_never_no_nodes(*child, names, start + NODE_SIZE);
        },
        BehaviourNode::Executor(_) => {},
    }
}

/// Flattening a work list never reports that there are no nodes.
pub proof fn lemma_emit_stack_never_no_nodes(
    nodes: Seq<BehaviourNode>,
    names: NameTable,
    start: int,
)
    ensures
        emit_stack(nodes, names, start) != Err::<Seq<u32>, TreeCompilationError>(
            TreeCompilationError::NoNodes,
        ),
    decreases nodes, 1nat,
{
    if nodes.len() > 0 {
        lemma_emit_never_no_nodes(nodes.last(), names, start);
        match emit_node(nodes.last(), names, start) {
            Err(_) => {},
            Ok(first) => {
                lemma_emit_stack_never_no_nodes(nodes.drop_last(), names, start + first.len());
            },
        }
    }
}

/// A leaf whose name is registered under a handle that fits the operand is
/// a stream of its own: its tag with the handle, and zero.
pub proof fn lemma_flatten_executor(name: Identifier, names: NameTable)
    requires
        is_registered_leaf(BehaviourNode::Executor(name), names),
    ensures
        flatten(BehaviourNode::Executor(name), names) == Ok::<Seq<u32>, TreeCompilationError>(
            seq![
                instruction_word(EXECUTOR_ID, lookup(names.executors, name@).unwrap() as u32),
                0u32,
            ],
        ),
        emitted_nodes(BehaviourNode::Executor(name)) == 1,
{
}

/// A leaf whose name is not registered fails with that very name.
pub proof fn lemma_flatten_unknown_executor(name: Identifier, names: NameTable)
    requires
        !names.executors.contains(name@),
    ensures
        flatten(BehaviourNode::Executor(name), names) == Err::<Seq<u32>, TreeCompilationError>(
            TreeCompilationError::UnknownExecutor(name),
        ),
{
}

/// A decorator whose name is not registered fails with that very name,
/// whatever its child is.
pub proof fn lemma_flatten_unknown_decorator(
    name: Identifier,
    child: Box<BehaviourNode>,
    names: NameTable,
)
    requires
        !names.decorators.contains(name@),
    ensures
        flatten(BehaviourNode::Decorator { name, child }, names) == Err::<
            Seq<u32>,
            TreeCompilationError,
        >(TreeCompilationError::UnknownDecorator(name)),
{
}

/// A decorator over a subtree is its own two words, with offset 2, and then
/// the subtree as it is flattened from position 2.
pub proof fn lemma_flatten_decorator(name: Identifier, child: Box<BehaviourNode>, names: NameTable)
    requires
        lookup(names.decorators, name@) matches Some(handle) && handle <= OPERAND_MAX,
    ensures
        emit_node(BehaviourNode::Decorator { name, child }, names, 0) == then_words(
            seq![
                instruction_word(DECORATOR_ID, lookup(names.decorators, name@).unwrap() as u32),
                2u32,
            ],
            emit_node(*child, names, 2),
        ),
        emitted_nodes(BehaviourNode::Decorator { name, child }) == 1 + emitted_nodes(*child),
{
    let handle = lookup(names.decorators, name@).unwrap();
}

/// The three kinds of control node give the same stream but for the tag in
/// the first word, and fail alike. The first word counts the children and
/// the second is the offset of the position right behind the node.
pub proof fn lemma_control_kinds_differ_in_tag(
    children: Vec<BehaviourNode>,
    names: NameTable,
    start: int,
)
    ensures
        emit_node(BehaviourNode::Sequence { children }, names, start) matches Ok(words)
            ==> children@.len() > 0 ==> {
            &&& emit_node(BehaviourNode::Fallback { children }, names, start) == Ok::<
                Seq<u32>,
                TreeCompilationError,
            >(words.update(0, instruction_word(FALLBACK_ID, children@.len() as u32)))
            &&& emit_node(BehaviourNode::Parallel { children }, names, start) == Ok::<
                Seq<u32>,
                TreeCompilationError,
            >(words.update(0, instruction_word(PARALLEL_ID, children@.len() as u32)))
            &&& words[0] == instruction_word(SEQUENCE_ID, children@.len() as u32)
            &&& words[1] == child_offset_word(start)
        },
        emit_node(BehaviourNode::Sequence { children }, names, start) matches Err(error) ==> {
            &&& emit_node(BehaviourNode::Fallback { children }, names, start) == Err::<
                Seq<u32>,
                TreeCompilationError,
            >(error)
            &&& emit_node(BehaviourNode::Parallel { children }, names, start) == Err::<
                Seq<u32>,
                TreeCompilationError,
            >(error)
        },
{
    let count = children@.len();
    if 0 < count <= OPERAND_MAX {
        match emit_stack(children@, names, start + NODE_SIZE) {
            Err(_) => {},
            Ok(inner) => {
                let words = header_words(SEQUENCE_ID, count, start) + inner;
                assert(words.update(0, instruction_word(FALLBACK_ID, count as u32))
                    =~= header_words(FALLBACK_ID, count, start) + inner);
                assert(words.update(0, instruction_word(PARALLEL_ID, count as u32))
                    =~= header_words(PARALLEL_ID, count, start) + inner);
            },
        }
    }
}

/// The two words of the node in place `slot` of `code`.
pub open spec fn node_words(code: Seq<u32>, slot: int) -> Seq<u32> {
    code.subrange(NODE_SIZE * slot, NODE_SIZE * slot + NODE_SIZE)
}

/// The words of a registered leaf: its tag with its handle, and zero.
pub open spec fn registered_leaf_words(node: BehaviourNode, names: NameTable) -> Seq<u32> {
    match node {
        BehaviourNode::Executor(name) => leaf_words(
            EXECUTOR_ID,
            lookup(names.executors, name@).unwrap(),
        ),
        _ => Seq::empty(),
    }
}

/// A work list of registered leaves gives the two words of each leaf, from
/// the last leaf to the first, and so do the children of a control node
/// behind its header.
pub proof fn lemma_emit_leaves(nodes: Seq<BehaviourNode>, names: NameTable, start: int)
    requires
        forall|i: int| 0 <= i < nodes.len() ==> is_registered_leaf(#[trigger] nodes[i], names),
    ensures
        emit_stack(nodes, names, start) matches Ok(words) && words.len() == NODE_SIZE * nodes.len()
            && forall|slot: int|
            0 <= slot < nodes.len() ==> #[trigger] node_words(words, slot) == registered_leaf_words(
                nodes[nodes.len() - 1 - slot],
                names,
            ),
        emitted_in(nodes) == nodes.len(),
    decreases nodes.len(),
{
    if nodes.len() > 0 {
        let top = nodes.last();
        let below = nodes.drop_last();
        let first = registered_leaf_words(top, names);
        assert(emit_node(top, names, start) == Ok::<Seq<u32>, TreeCompilationError>(first));
        assert(emitted_nodes(top) == 1);
        lemma_emit_leaves(below, names, start + first.len());
        let rest = emit_stack(below, names, start + first.len())->Ok_0;
        let words = first + rest;
        assert forall|slot: int| 0 <= slot < nodes.len() implies #[trigger] node_words(words, slot)
            == registered_leaf_words(nodes[nodes.len() - 1 - slot], names) by {
            if slot == 0 {
                assert(node_words(words, slot) =~= first);
            } else {
                assert(node_words(words, slot) =~= node_words(rest, slot - 1));
                assert(below[below.len() - 1 - (slot - 1)] == nodes[nodes.len() - 1 - slot]);
            }
        }
    }
}

} // verus!
