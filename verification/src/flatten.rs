//! The stream that a tree flattens to, as a function of the tree.
use crate::context::NameTable;
use crate::instruction::child_offset_word;
use crate::instruction::instruction_word;
use crate::instruction::DECORATOR_ID;
use crate::instruction::EXECUTOR_ID;
use crate::instruction::FALLBACK_ID;
use crate::instruction::NODE_SIZE;
use crate::instruction::OPERAND_MAX;
use crate::instruction::PARALLEL_ID;
use crate::instruction::SEQUENCE_ID;
use crate::registry::lookup;
use crate::tree::BehaviourNode;
use crate::tree::TreeCompilationError;
use vstd::prelude::*;

verus! {

/// What flattening gives: the words, or the first error met.
pub type Emitted = Result<Seq<u32>, TreeCompilationError>;

/// `first` followed by the words of `rest`, where `rest` has any.
pub open spec fn then_words(first: Seq<u32>, rest: Emitted) -> Emitted {
    match rest {
        Ok(words) => Ok(first + words),
        Err(error) => Err(error),
    }
}

/// The two words of a node with children: its tag with `operand`, and the
/// offset of its children when its own first word stands at `start`.
pub open spec fn header_words(tag: u8, operand: nat, start: int) -> Seq<u32> {
    seq![instruction_word(tag, operand as u32), child_offset_word(start)]
}

/// The two words of a leaf: its tag with `operand`, and zero.
pub open spec fn leaf_words(tag: u8, operand: nat) -> Seq<u32> {
    seq![instruction_word(tag, operand as u32), 0u32]
}

/// The words of a control node with `count` children, whose children give
/// `children` when flattened right after its header. A node without
/// children gives no words.
pub open spec fn control_words(tag: u8, count: nat, start: int, children: Emitted) -> Emitted {
    if count == 0 {
        Ok(Seq::empty())
    } else if count > OPERAND_MAX {
        Err(TreeCompilationError::TooManyChildNodes)
    } else {
        then_words(header_words(tag, count, start), children)
    }
}

/// The words of the subtree at `node`, when its first word stands at
/// `start`: the node itself, then its children from the last to the first,
/// each followed by its own subtree.
pub open spec fn emit_node(node: BehaviourNode, names: NameTable, start: int) -> Emitted
    decreases node, 0nat,
{
    match node {
        BehaviourNode::Root(_) => Err(TreeCompilationError::RootNodeInTree),
        BehaviourNode::Sequence { children } => control_words(
            SEQUENCE_ID,
            children@.len(),
            start,
            emit_stack(children@, names, start + NODE_SIZE),
        ),
        BehaviourNode::Fallback { children } => control_words(
            FALLBACK_ID,
            children@.len(),
            start,
            emit_stack(children@, names, start + NODE_SIZE),
        ),
        BehaviourNode::Parallel { children } => control_words(
            PARALLEL_ID,
            children@.len(),
            start,
            emit_stack(children@, names, start + NODE_SIZE),
        ),
        BehaviourNode::Decorator { name, child } => match lookup(names.decorators, name@) {
            None => Err(TreeCompilationError::UnknownDecorator(name)),
            Some(handle) => if handle > OPERAND_MAX {
                Err(
                    TreeCompilationError::UnencodableRegistryHandle {
                        id: name,
                        registry_index: handle as usize,
                    },
                )
            } else {
                then_words(
                    header_words(DECORATOR_ID, handle, start),
                    emit_node(*child, names, start + NODE_SIZE),
                )
            },
        },
        BehaviourNode::Executor(name) => match lookup(names.executors, name@) {
            None => Err(TreeCompilationError::UnknownExecutor(name)),
            Some(handle) => if handle > OPERAND_MAX {
                Err(
                    TreeCompilationError::UnencodableRegistryHandle {
                        id: name,
                        registry_index: handle as usize,
                    },
                )
            } else {
                Ok(leaf_words(EXECUTOR_ID, handle))
            },
        },
    }
}

/// The words of a work list whose next word stands at `start`: the subtree
/// of the last node, then the rest of the list in the same way.
pub open spec fn emit_stack(nodes: Seq<BehaviourNode>, names: NameTable, start: int) -> Emitted
    decreases nodes, 1nat,
{
    if nodes.len() == 0 {
        Ok(Seq::empty())
    } else {
        match emit_node(nodes.last(), names, start) {
            Err(error) => Err(error),
            Ok(first) => then_words(
                first,
                emit_stack(nodes.drop_last(), names, start + first.len()),
            ),
        }
    }
}

/// The stream of a tree whose root holds `node`.
pub open spec fn flatten(node: BehaviourNode, names: NameTable) -> Emitted {
    match emit_node(node, names, 0) {
        Err(error) => Err(error),
        Ok(words) => if words.len() == 0 {
            Err(TreeCompilationError::NoNodes)
        } else {
            Ok(words)
        },
    }
}

/// The number of nodes of the subtree at `node` that take a place in the
/// stream: all but control nodes without children.
pub open spec fn emitted_nodes(node: BehaviourNode) -> nat
    decreases node, 0nat,
{
    match node {
        BehaviourNode::Root(_) => 0,
        BehaviourNode::Sequence { children } => emitted_control(
            children@.len(),
            emitted_in(children@),
        ),
        BehaviourNode::Fallback { children } => emitted_control(
            children@.len(),
            emitted_in(children@),
        ),
        BehaviourNode::Parallel { children } => emitted_control(
            children@.len(),
            emitted_in(children@),
        ),
        BehaviourNode::Decorator { name, child } => 1 + emitted_nodes(*child),
        BehaviourNode::Executor(_) => 1,
    }
}

/// The number of emitted nodes of a control node with `count` children
/// that hold `below` emitted nodes together.
pub open spec fn emitted_control(count: nat, below: nat) -> nat {
    if count == 0 {
        0
    } else {
        1 + below
    }
}

/// The number of emitted nodes of all the subtrees at `nodes`.
pub open spec fn emitted_in(nodes: Seq<BehaviourNode>) -> nat
    decreases nodes, 1nat,
{
    if nodes.len() == 0 {
        0
    } else {
        emitted_nodes(nodes.last()) + emitted_in(nodes.drop_last())
    }
}

/// The number of nodes of the subtree at `node`, the node included.
pub open spec fn tree_size(node: BehaviourNode) -> nat
    decreases node, 0nat,
{
    match node {
        BehaviourNode::Root(child) => 1 + tree_size(*child),
        BehaviourNode::Sequence { children } => 1 + forest_size(children@),
        BehaviourNode::Fallback { children } => 1 + forest_size(children@),
        BehaviourNode::Parallel { children } => 1 + forest_size(children@),
        BehaviourNode::Decorator { name, child } => 1 + tree_size(*child),
        BehaviourNode::Executor(_) => 1,
    }
}

/// The number of nodes of all the subtrees at `nodes`.
pub open spec fn forest_size(nodes: Seq<BehaviourNode>) -> nat
    decreases nodes, 1nat,
{
    if nodes.len() == 0 {
        0
    } else {
        tree_size(nodes.last()) + forest_size(nodes.drop_last())
    }
}

/// A work list of one node gives the words of that node.
pub proof fn lemma_emit_single(node: BehaviourNode, names: NameTable, start: int)
    ensures
        emit_stack(seq![node], names, start) == emit_node(node, names, start),
        emitted_in(seq![node]) == emitted_nodes(node),
        forest_size(seq![node]) == tree_size(node),
{
    let rest = seq![node].drop_last();
    assert(rest =~= Seq::<BehaviourNode>::empty());
    assert(emitted_in(rest) == 0 && forest_size(rest) == 0);
    if let Ok(words) = emit_node(node, names, start) {
        assert(emit_stack(rest, names, start + words.len()) == Ok::<Seq<u32>, TreeCompilationError>(
            Seq::empty(),
        ));
        assert(words + Seq::<u32>::empty() =~= words);
    }
}

/// Nodes put on top of a work list are flattened first, and the list below
/// them follows where their words end.
pub proof fn lemma_emit_append(
    below: Seq<BehaviourNode>,
    above: Seq<BehaviourNode>,
    names: NameTable,
    start: int,
)
    ensures
        emit_stack(below + above, names, start) == match emit_stack(above, names, start) {
            Err(error) => Err(error),
            Ok(first) => then_words(first, emit_stack(below, names, start + first.len())),
        },
        emitted_in(below + above) == emitted_in(below) + emitted_in(above),
        forest_size(below + above) == forest_size(below) + forest_size(above),
    decreases above.len(),
{
    if above.len() == 0 {
        assert(below + above =~= below);
        lemma_then_words_regroup(
            Seq::empty(),
            Seq::empty(),
            Seq::empty(),
            emit_stack(below, names, start),
        );
    } else {
        assert((below + above).drop_last() =~= below + above.drop_last());
        let next = match emit_node(above.last(), names, start) {
            Ok(head) => start + head.len(),
            Err(_) => start,
        };
        lemma_emit_append(below, above.drop_last(), names, next);
        if let Ok(head) = emit_node(above.last(), names, start) {
            if let Ok(middle) = emit_stack(above.drop_last(), names, next) {
                lemma_then_words_regroup(
                    head,
                    middle,
                    Seq::empty(),
                    emit_stack(below, names, next + middle.len()),
                );
            }
        }
    }
}

/// Every emitted node takes two words.
pub proof fn lemma_emit_length(node: BehaviourNode, names: NameTable, start: int)
    ensures
        emit_node(node, names, start) matches Ok(words) ==> words.len() == NODE_SIZE
            * emitted_nodes(node),
    decreases node, 0nat,
{
    match node {
        BehaviourNode::Root(_) => {},
        BehaviourNode::Sequence { children } => {
            lemma_emit_stack_length(children@, names, start + NODE_SIZE);
        },
        BehaviourNode::Fallback { children } => {
            lemma_emit_stack_length(children@, names, start + NODE_SIZE);
        },
        BehaviourNode::Parallel { children } => {
            lemma_emit_stack_length(children@, names, start + NODE_SIZE);
        },
        BehaviourNode::Decorator { name, child } => {
            lemma_emit_length(*child, names, start + NODE_SIZE);
        },
        BehaviourNode::Executor(_) => {},
    }
}

/// Every emitted node of a work list takes two words.
pub proof fn lemma_emit_stack_length(nodes: Seq<BehaviourNode>, names: NameTable, start: int)
    ensures
        emit_stack(nodes, names, start) matches Ok(words) ==> words.len() == NODE_SIZE * emitted_in(
            nodes,
        ),
    decreases nodes, 1nat,
{
    if nodes.len() > 0 {
        lemma_emit_length(nodes.last(), names, start);
        match emit_node(nodes.last(), names, start) {
            Err(_) => {},
            Ok(first) => {
                lemma_emit_stack_length(nodes.drop_last(), names, start + first.len());
            },
        }
    }
}

/// Words may be grouped either way: what stands before the rest of a
/// stream can be split anywhere.
pub proof fn lemma_then_words_regroup(
    code: Seq<u32>,
    header: Seq<u32>,
    inner: Seq<u32>,
    rest: Emitted,
)
    ensures
        then_words(code, then_words(header + inner, rest)) == then_words(
            code + header,
            then_words(inner, rest),
        ),
        then_words(code, then_words(header, rest)) == then_words(code + header, rest),
        then_words(Seq::empty(), rest) == rest,
{
    match rest {
        Ok(tail) => {
            assert(code + ((header + inner) + tail) =~= (code + header) + (inner + tail));
            assert(code + (header + tail) =~= (code + header) + tail);
        },
        Err(_) => {},
    }
}

} // verus!
