//! Authored trees and their compilation into an instruction stream.
use crate::context::BehaviourContext;
use crate::context::ContextRef;
use crate::context::NameTable;
use crate::flatten::control_words;
use crate::flatten::emit_node;
use crate::flatten::emit_stack;
use crate::flatten::emitted_in;
use crate::flatten::emitted_nodes;
use crate::flatten::flatten;
use crate::flatten::forest_size;
use crate::flatten::header_words;
use crate::flatten::leaf_words;
use crate::flatten::lemma_emit_append;
use crate::flatten::lemma_emit_single;
use crate::flatten::lemma_then_words_regroup;
use crate::flatten::then_words;
use crate::flatten::tree_size;
use crate::flatten::Emitted;
use crate::identifier::Identifier;
use crate::instruction::child_offset;
use crate::instruction::encode;
use crate::instruction::instruction_word;
use crate::instruction::DECORATOR_ID;
use crate::instruction::EXECUTOR_ID;
use crate::instruction::FALLBACK_ID;
use crate::instruction::NODE_SIZE;
use crate::instruction::OPERAND_MAX;
use crate::instruction::PARALLEL_ID;
use crate::instruction::SEQUENCE_ID;
use crate::registry::RegistryHandle;
use crate::stream::lemma_flatten_sound;
use crate::stream::stream_is_sound;
use std::rc::Rc;
use vstd::prelude::*;

verus! {

/// A node of an authored tree.
pub enum BehaviourNode {
    /// The top of a tree. It marks the tree and takes no place in the stream.
    Root(Box<BehaviourNode>),
    /// Runs its children in order until one fails.
    Sequence { children: Vec<BehaviourNode> },
    /// Runs its children in order until one succeeds.
    Fallback { children: Vec<BehaviourNode> },
    /// Runs its children side by side.
    Parallel { children: Vec<BehaviourNode> },
    /// Passes the outcome of its child through a named decorator.
    Decorator { name: Identifier, child: Box<BehaviourNode> },
    /// Runs a named leaf callable.
    Executor(Identifier),
}

/// Why a tree could not be compiled.
#[derive(Debug, PartialEq, Eq)]
pub enum TreeCompilationError {
    /// Nothing in the tree takes a place in the stream.
    NoNodes,
    /// The node handed to the compiler is not a root.
    InitialNonRootNode,
    /// A root stands below the top of the tree.
    RootNodeInTree,
    /// No decorator is registered under the name.
    UnknownDecorator(Identifier),
    /// No leaf callable is registered under the name.
    UnknownExecutor(Identifier),
    /// The handle registered under the name does not fit the operand bits.
    UnencodableRegistryHandle { id: Identifier, registry_index: usize },
    /// A node has more children than the operand bits can count.
    TooManyChildNodes,
    /// No owner holds the context any more.
    NonExistentContext,
}

/// The mathematical value of a compiled tree.
pub struct BehaviourTreeView {
    /// The instruction stream.
    pub code: Seq<u32>,
    /// The number of nodes in the stream.
    pub node_count: nat,
}

/// A compiled tree: the instruction stream, the number of nodes in it, and
/// a share in the context whose handles the stream holds.
pub struct BehaviourTree<E, D> {
    code: Vec<u32>,
    context: Rc<BehaviourContext<E, D>>,
    node_count: usize,
}

impl<E, D> View for BehaviourTree<E, D> {
    type V = BehaviourTreeView;

    closed spec fn view(&self) -> BehaviourTreeView {
        BehaviourTreeView { code: self.code@, node_count: self.node_count as nat }
    }
}

impl<E, D> BehaviourTree<E, D> {
    /// The context that the tree was compiled against.
    pub closed spec fn shared_context(&self) -> BehaviourContext<E, D> {
        *self.context
    }

    /// The stream holds at least one node, two words for each, and is sound
    /// for the context that the tree shares.
    #[verifier::type_invariant]
    spec fn well_formed(&self) -> bool {
        &&& self.node_count > 0
        &&& self.code@.len() == NODE_SIZE * self.node_count
        &&& stream_is_sound(self.code@, self.shared_context().names(), 0)
    }

    /// The instruction stream.
    pub fn code(&self) -> (code: &Vec<u32>)
        ensures
            code@ == self@.code,
            code@.len() == NODE_SIZE * self@.node_count,
            stream_is_sound(code@, self.shared_context().names(), 0),
    {
        proof {
            use_type_invariant(self);
        }
        &self.code
    }

    /// The context that the tree was compiled against.
    pub fn context(&self) -> (context: &BehaviourContext<E, D>)
        ensures
            *context == self.shared_context(),
            stream_is_sound(self@.code, context.names(), 0),
    {
        proof {
            use_type_invariant(self);
        }
        &*self.context
    }

    /// The number of nodes in the stream.
    pub fn node_count(&self) -> (count: usize)
        ensures
            count == self@.node_count,
            count > 0,
            NODE_SIZE * count == self@.code.len(),
    {
        proof {
            use_type_invariant(self);
        }
        self.node_count
    }
}

/// What the traversal gives in the end, when `code` has been emitted and
/// `nodes` is the work list.
spec fn outcome(code: Seq<u32>, nodes: Seq<BehaviourNode>, names: NameTable) -> Emitted {
    then_words(code, emit_stack(nodes, names, code.len() as int))
}

/// Taking the top node off the work list: the traversal fails as the node
/// does, or goes on behind the words of its subtree.
proof fn lemma_take_top(
    code: Seq<u32>,
    below: Seq<BehaviourNode>,
    top: BehaviourNode,
    names: NameTable,
)
    ensures
        outcome(code, below.push(top), names) == match emit_node(top, names, code.len() as int) {
            Err(error) => Err(error),
            Ok(first) => outcome(code + first, below, names),
        },
        emitted_in(below.push(top)) == emitted_in(below) + emitted_nodes(top),
        forest_size(below.push(top)) == forest_size(below) + tree_size(top),
{
    let nodes = below.push(top);
    assert(nodes.drop_last() =~= below);
    match emit_node(top, names, code.len() as int) {
        Err(_) => {},
        Ok(first) => {
            lemma_then_words_regroup(
                code,
                first,
                Seq::empty(),
                emit_stack(below, names, (code.len() + first.len()) as int),
            );
        },
    }
}

/// Emitting the header of a node and putting its children on the work list:
/// the traversal goes on as it would behind the header and the words of the
/// children.
proof fn lemma_put_children(
    code: Seq<u32>,
    below: Seq<BehaviourNode>,
    header: Seq<u32>,
    children: Seq<BehaviourNode>,
    names: NameTable,
)
    requires
        header.len() == NODE_SIZE,
    ensures
        outcome(code + header, below + children, names) == match then_words(
            header,
            emit_stack(children, names, code.len() + NODE_SIZE),
        ) {
            Err(error) => Err(error),
            Ok(first) => outcome(code + first, below, names),
        },
        emitted_in(below + children) == emitted_in(below) + emitted_in(children),
        forest_size(below + children) == forest_size(below) + forest_size(children),
{
    let start = code.len() + NODE_SIZE;
    lemma_emit_append(below, children, names, start);
    match emit_stack(children, names, start) {
        Err(_) => {},
        Ok(inner) => {
            let rest = emit_stack(below, names, start + inner.len());
            lemma_then_words_regroup(code, header, inner, rest);
            lemma_then_words_regroup(code, header + inner, Seq::empty(), rest);
        },
    }
}

/// `res` is what compiling a tree whose root holds `node` gives, when
/// `context` is what became of the reference to the context: without a
/// context the compilation fails; with one, the result is the stream that
/// the tree flattens to under the names of that context, with the number of
/// nodes in it and a share in that context, or the error that flattening
/// meets.
pub open spec fn compiles_to<E, D>(
    node: BehaviourNode,
    context: Option<Rc<BehaviourContext<E, D>>>,
    res: Result<BehaviourTree<E, D>, TreeCompilationError>,
) -> bool {
    match context {
        None => res == Err::<BehaviourTree<E, D>, TreeCompilationError>(
            TreeCompilationError::NonExistentContext,
        ),
        Some(live) => match flatten(node, live.names()) {
            Err(error) => res == Err::<BehaviourTree<E, D>, TreeCompilationError>(error),
            Ok(words) => {
                &&& res matches Ok(tree)
                &&& tree@.code == words
                &&& tree@.node_count == emitted_nodes(node)
                &&& tree.shared_context() == *live
            },
        },
    }
}

/// The first word of a decorator named `name`, given the handle that the
/// name resolved to, if it did.
pub fn decorator_word(name: Identifier, handle: Option<RegistryHandle>) -> (word: Result<
    u32,
    TreeCompilationError,
>)
    ensures
        word == match handle {
            None => Err(TreeCompilationError::UnknownDecorator(name)),
            Some(handle) => if handle.index() > OPERAND_MAX {
                Err(
                    TreeCompilationError::UnencodableRegistryHandle {
                        id: name,
                        registry_index: handle.index() as usize,
                    },
                )
            } else {
                Ok(instruction_word(DECORATOR_ID, handle.index() as u32))
            },
        },
{
    let handle_value = match handle {
        Some(handle) => handle.value(),
        None => {
            return Err(TreeCompilationError::UnknownDecorator(name));
        },
    };
    match encode(DECORATOR_ID, handle_value) {
        Some(word) => Ok(word),
        None => Err(
            TreeCompilationError::UnencodableRegistryHandle {
                id: name,
                registry_index: handle_value,
            },
        ),
    }
}

/// The first word of a leaf named `name`, given the handle that the name
/// resolved to, if it did.
pub fn executor_word(name: Identifier, handle: Option<RegistryHandle>) -> (word: Result<
    u32,
    TreeCompilationError,
>)
    ensures
        word == match handle {
            None => Err(TreeCompilationError::UnknownExecutor(name)),
            Some(handle) => if handle.index() > OPERAND_MAX {
                Err(
                    TreeCompilationError::UnencodableRegistryHandle {
                        id: name,
                        registry_index: handle.index() as usize,
                    },
                )
            } else {
                Ok(instruction_word(EXECUTOR_ID, handle.index() as u32))
            },
        },
{
    let handle_value = match handle {
        Some(handle) => handle.value(),
        None => {
            return Err(TreeCompilationError::UnknownExecutor(name));
        },
    };
    match encode(EXECUTOR_ID, handle_value) {
        Some(word) => Ok(word),
        None => Err(
            TreeCompilationError::UnencodableRegistryHandle {
                id: name,
                registry_index: handle_value,
            },
        ),
    }
}

impl BehaviourNode {
    /// Compiles a tree against the context that `ctx` refers to.
    ///
    /// A node that is not a root is refused before anything else. For a root,
    /// the result is what [`BehaviourNode::compile_inner`] gives for the node
    /// below it and for what became of the reference: the context, if an
    /// owner still holds it.
    pub fn compile<E, D>(self, ctx: ContextRef<E, D>) -> (res: Result<
        BehaviourTree<E, D>,
        TreeCompilationError,
    >)
        ensures
            self !is Root ==> res == Err::<BehaviourTree<E, D>, TreeCompilationError>(
                TreeCompilationError::InitialNonRootNode,
            ),
            self matches BehaviourNode::Root(child) ==> exists|
                context: Option<Rc<BehaviourContext<E, D>>>,
            | compiles_to(*child, context, res),
    {
        match self {
            BehaviourNode::Root(child) => (*child).compile_inner(ctx.upgrade()),
            _ => Err(TreeCompilationError::InitialNonRootNode),
        }
    }

    /// Flattens the tree whose root holds `self`, given what became of the
    /// reference to the context.
    ///
    /// The nodes wait on a work list that gives back the node put on it
    /// last, so a node is followed in the stream by its last child and all
    /// that is below that child, then by the child before it, and so on.
    pub fn compile_inner<E, D>(self, context: Option<Rc<BehaviourContext<E, D>>>) -> (res: Result<
        BehaviourTree<E, D>,
        TreeCompilationError,
    >)
        ensures
            compiles_to(self, context, res),
    {
        let ctx = match context {
            Some(ctx) => ctx,
            None => {
                return Err(TreeCompilationError::NonExistentContext);
            },
        };
        let ghost names = ctx.names();
        let mut nodes: Vec<BehaviourNode> = Vec::new();
        let mut code: Vec<u32> = Vec::new();
        let mut node_count: usize = 0;
        nodes.push(self);
        proof {
            lemma_take_top(code@, Seq::empty(), self, names);
            lemma_emit_single(self, names, 0);
        }
        loop
            invariant
                context == Some(ctx),
                names == ctx.names(),
                outcome(code@, nodes@, names) == emit_node(self, names, 0),
                code@.len() == NODE_SIZE * node_count,
                node_count + emitted_in(nodes@) == emitted_nodes(self),
            ensures
                nodes@.len() == 0,
            decreases forest_size(nodes@),
        {
            let ghost emitted = code@;
            let ghost waiting = nodes@;
            let node = match nodes.pop() {
                Some(node) => node,
                None => {
                    break ;
                },
            };
            proof {
                assert(waiting =~= nodes@.push(node));
                lemma_take_top(emitted, nodes@, node, names);
            }
            let ghost below = nodes@;
            match node {
                BehaviourNode::Root(_) => {
                    return Err(TreeCompilationError::RootNodeInTree);
                },
                BehaviourNode::Sequence { children } => {
                    proof {
                        lemma_put_control(emitted, below, SEQUENCE_ID, children@, names);
                    }
                    match Self::emit_control(SEQUENCE_ID, children, &mut code, &mut nodes) {
                        Ok(count) => {
                            assert(code@.len() == code.len());
                            node_count += count;
                        },
                        Err(error) => {
                            return Err(error);
                        },
                    }
                },
                BehaviourNode::Fallback { children } => {
                    proof {
                        lemma_put_control(emitted, below, FALLBACK_ID, children@, names);
                    }
                    match Self::emit_control(FALLBACK_ID, children, &mut code, &mut nodes) {
                        Ok(count) => {
                            assert(code@.len() == code.len());
                            node_count += count;
                        },
                        Err(error) => {
                            return Err(error);
                        },
                    }
                },
                BehaviourNode::Parallel { children } => {
                    proof {
                        lemma_put_control(emitted, below, PARALLEL_ID, children@, names);
                    }
                    match Self::emit_control(PARALLEL_ID, children, &mut code, &mut nodes) {
                        Ok(count) => {
                            assert(code@.len() == code.len());
                            node_count += count;
                        },
                        Err(error) => {
                            return Err(error);
                        },
                    }
                },
                BehaviourNode::Decorator { name, child } => {
                    let handle = ctx.get_decorator_handle(&name);
                    let header = match decorator_word(name, handle) {
                        Ok(header) => header,
                        Err(error) => {
                            return Err(error);
                        },
                    };
                    let offset = child_offset(code.len());
                    code.push(header);
                    code.push(offset);
                    nodes.push(*child);
                    node_count += 1;
                    proof {
                        let words = header_words(
                            DECORATOR_ID,
                            handle.unwrap().index(),
                            emitted.len() as int,
                        );
                        let children = Seq::<BehaviourNode>::empty().push(*child);
                        assert(code@ =~= emitted + words);
                        assert(nodes@ =~= below + children);
                        lemma_emit_single(*child, names, emitted.len() + NODE_SIZE);
                        lemma_put_children(emitted, below, words, children, names);
                    }
                },
                BehaviourNode::Executor(id) => {
                    let handle = ctx.get_executor_handle(&id);
                    let header = match executor_word(id, handle) {
                        Ok(header) => header,
                        Err(error) => {
                            return Err(error);
                        },
                    };
                    code.push(header);
                    code.push(0);
                    assert(code@.len() == code.len());
                    node_count += 1;
                    proof {
                        assert(code@ =~= emitted + leaf_words(
                            EXECUTOR_ID,
                            handle.unwrap().index(),
                        ));
                    }
                },
            }
        }
        proof {
            lemma_flatten_sound(self, names);
        }
        if node_count > 0 {
            Ok(BehaviourTree { code, context: ctx, node_count })
        } else {
            Err(TreeCompilationError::NoNodes)
        }
    }

    /// Puts the header of a control node with these children at the end of
    /// the stream and the children on top of the work list, and gives the
    /// number of nodes emitted: one, or none for a node without children,
    /// which leaves both as they are.
    fn emit_control(
        tag: u8,
        children: Vec<BehaviourNode>,
        code: &mut Vec<u32>,
        nodes: &mut Vec<BehaviourNode>,
    ) -> (emitted: Result<usize, TreeCompilationError>)
        ensures
            children@.len() == 0 ==> emitted == Ok::<usize, TreeCompilationError>(0) && final(code)@
                == old(code)@ && final(nodes)@ == old(nodes)@,
            children@.len() > OPERAND_MAX ==> emitted == Err::<usize, TreeCompilationError>(
                TreeCompilationError::TooManyChildNodes,
            ),
            0 < children@.len() <= OPERAND_MAX ==> emitted == Ok::<usize, TreeCompilationError>(1)
                && final(code)@ == old(code)@ + header_words(
                tag,
                children@.len(),
                old(code)@.len() as int,
            ) && final(nodes)@ == old(nodes)@ + children@,
    {
        let mut children = children;
        if children.len() == 0 {
            return Ok(0);
        }
        let header = match encode(tag, children.len()) {
            Some(header) => header,
            None => {
                return Err(TreeCompilationError::TooManyChildNodes);
            },
        };
        let offset = child_offset(code.len());
        code.push(header);
        code.push(offset);
        nodes.append(&mut children);
        Ok(1)
    }
}

/// Emitting a control node: without children the traversal goes on as it
/// was; with children that the operand can count it goes on behind the
/// header, with the children on the work list.
proof fn lemma_put_control(
    code: Seq<u32>,
    below: Seq<BehaviourNode>,
    tag: u8,
    children: Seq<BehaviourNode>,
    names: NameTable,
)
    ensures
        children.len() == 0 ==> control_words(
            tag,
            children.len(),
            code.len() as int,
            emit_stack(children, names, code.len() + NODE_SIZE),
        ) == Ok::<Seq<u32>, TreeCompilationError>(Seq::empty()) && code + Seq::<u32>::empty()
            == code,
        0 < children.len() <= OPERAND_MAX ==> outcome(
            code + header_words(tag, children.len(), code.len() as int),
            below + children,
            names,
        ) == match control_words(
            tag,
            children.len(),
            code.len() as int,
            emit_stack(children, names, code.len() + NODE_SIZE),
        ) {
            Err(error) => Err(error),
            Ok(first) => outcome(code + first, below, names),
        },
        emitted_in(below + children) == emitted_in(below) + emitted_in(children),
        forest_size(below + children) == forest_size(below) + forest_size(children),
{
    lemma_put_children(
        code,
        below,
        header_words(tag, children.len(), code.len() as int),
        children,
        names,
    );
}

} // verus!
