use std::rc::Rc;

use behaviour_tree::context::BehaviourContext;
use behaviour_tree::context::ContextRef;
use behaviour_tree::identifier::Identifier;
use behaviour_tree::instruction::operand_of;
use behaviour_tree::instruction::tag_of;
use behaviour_tree::instruction::DECORATOR_ID;
use behaviour_tree::instruction::EXECUTOR_ID;
use behaviour_tree::instruction::FALLBACK_ID;
use behaviour_tree::instruction::PARALLEL_ID;
use behaviour_tree::instruction::SEQUENCE_ID;
use behaviour_tree::registry::RegistryHandle;
use behaviour_tree::state::TreeResult;
use behaviour_tree::tree::decorator_word;
use behaviour_tree::tree::executor_word;
use behaviour_tree::tree::BehaviourNode as Subject;
use behaviour_tree::tree::TreeCompilationError;

type VecType = u32;
type Context = BehaviourContext<fn(()) -> TreeResult, fn(TreeResult, ()) -> TreeResult>;

fn executor(_: ()) -> TreeResult {
    TreeResult::Success
}

fn decorator(_: TreeResult, _1: ()) -> TreeResult {
    TreeResult::Success
}

fn failing(_: ()) -> TreeResult {
    TreeResult::Failure
}

fn leaf(name: &str) -> Subject {
    Subject::Executor(name.into())
}

fn context_with(executors: &[&str], decorators: &[&str]) -> Rc<Context> {
    let mut context = Context::new();
    for name in executors {
        context.register_executor(&(*name).into(), executor).unwrap();
    }
    for name in decorators {
        context.register_decorator(&(*name).into(), decorator).unwrap();
    }
    Rc::new(context)
}

#[test]
fn compile_fails_first_node_control_sequence() {
    let ctx: Rc<Context> = Rc::new(BehaviourContext::new());
    let subject = Subject::Sequence {
        children: Vec::new(),
    };
    assert!(subject
        .compile(ContextRef::downgrade(&ctx))
        .is_err_and(|err| err == TreeCompilationError::InitialNonRootNode));
}

#[test]
fn compile_fails_first_node_control_fallback() {
    let ctx: Rc<Context> = Rc::new(BehaviourContext::new());
    let subject = Subject::Fallback {
        children: Vec::new(),
    };
    assert!(subject.compile(ContextRef::downgrade(&ctx)).is_err());
}

#[test]
fn compile_fails_first_node_control_parallel() {
    let ctx: Rc<Context> = Rc::new(BehaviourContext::new());
    let subject = Subject::Parallel {
        children: Vec::new(),
    };
    assert!(subject
        .compile(ContextRef::downgrade(&ctx))
        .is_err_and(|err| err == TreeCompilationError::InitialNonRootNode));
}

#[test]
fn compile_fails_first_node_control_decorator() {
    let ctx: Rc<Context> = Rc::new(BehaviourContext::new());
    let subject = Subject::Decorator {
        name: "test".into(),
        child: Box::new(Subject::Executor("".into())),
    };
    assert!(subject
        .compile(ContextRef::downgrade(&ctx))
        .is_err_and(|err| err == TreeCompilationError::InitialNonRootNode));
}

#[test]
fn compile_fails_first_node_execute() {
    let ctx: Rc<Context> = Rc::new(BehaviourContext::new());
    let subject = Subject::Executor("".into());
    assert!(subject
        .compile(ContextRef::downgrade(&ctx))
        .is_err_and(|err| err == TreeCompilationError::InitialNonRootNode));
}

#[test]
fn compile_fails_no_nodes_control_sequence() {
    let ctx: Rc<Context> = Rc::new(BehaviourContext::new());
    let subject = Subject::Root(Box::new(Subject::Sequence {
        children: Vec::new(),
    }));
    assert!(subject
        .compile(ContextRef::downgrade(&ctx))
        .is_err_and(|err| err == TreeCompilationError::NoNodes));
}

#[test]
fn compile_fails_no_nodes_control_fallback() {
    let ctx: Rc<Context> = Rc::new(BehaviourContext::new());
    let subject = Subject::Root(Box::new(Subject::Fallback {
        children: Vec::new(),
    }));
    assert!(subject
        .compile(ContextRef::downgrade(&ctx))
        .is_err_and(|err| err == TreeCompilationError::NoNodes));
}

#[test]
fn compile_fails_no_nodes_control_parallel() {
    let ctx: Rc<Context> = Rc::new(BehaviourContext::new());
    let subject = Subject::Root(Box::new(Subject::Parallel {
        children: Vec::new(),
    }));
    assert!(subject
        .compile(ContextRef::downgrade(&ctx))
        .is_err_and(|err| err == TreeCompilationError::NoNodes));
}

#[test]
fn compile_fails_unknown_decorator_control_decorator() {
    let ctx: Rc<Context> = Rc::new(BehaviourContext::new());
    let subject = Subject::Root(Box::new(Subject::Decorator {
        name: "decorator".into(),
        child: Box::new(Subject::Executor("".into())),
    }));
    assert!(subject
        .compile(ContextRef::downgrade(&ctx))
        .is_err_and(|err| err == TreeCompilationError::UnknownDecorator("decorator".into())));
}

#[test]
fn compile_fails_unknown_handler_executor() {
    let ctx: Rc<Context> = Rc::new(BehaviourContext::new());
    let subject = Subject::Root(Box::new(Subject::Executor("executor".into())));
    assert!(subject
        .compile(ContextRef::downgrade(&ctx))
        .is_err_and(|err| err == TreeCompilationError::UnknownExecutor("executor".into())));
}

#[test]
fn compile_success_executor() {
    let mut context = Context::new();
    context
        .register_executor(&"exec".into(), executor)
        .unwrap();
    let ctx: Rc<Context> = Rc::new(context);

    let subject = Subject::Root(Box::new(Subject::Executor("exec".into())));
    let res = subject.compile(ContextRef::downgrade(&ctx));
    assert!(res.is_ok());

    if let Ok(tree) = res {
        assert_eq!(tree.node_count(), 1);
        assert_eq!(*tree.code(), vec![(EXECUTOR_ID as VecType) << 24, 0]);
    }
}

#[test]
fn compile_success_decorator() {
    let mut context = Context::new();
    context
        .register_decorator(&"decorate".into(), decorator)
        .unwrap();
    context
        .register_executor(&"exec".into(), executor)
        .unwrap();
    let ctx: Rc<Context> = Rc::new(context);

    let subject = Subject::Root(Box::new(Subject::Decorator {
        name: "decorate".into(),
        child: Box::new(Subject::Executor("exec".into())),
    }));
    let res = subject.compile(ContextRef::downgrade(&ctx));
    assert!(res.is_ok());

    if let Ok(tree) = res {
        assert_eq!(tree.node_count(), 2);
        assert_eq!(
            *tree.code(),
            vec![
                (DECORATOR_ID as VecType) << 24,
                2,
                (EXECUTOR_ID as VecType) << 24,
                0
            ]
        );
    }
}

#[test]
fn compile_success_parallel() {
    let mut context = Context::new();
    context
        .register_executor(&"exec".into(), executor)
        .unwrap();
    let ctx: Rc<Context> = Rc::new(context);

    let subject = Subject::Root(Box::new(Subject::Parallel {
        children: vec![Subject::Executor("exec".into())],
    }));
    let res = subject.compile(ContextRef::downgrade(&ctx));
    assert!(res.is_ok());

    if let Ok(tree) = res {
        assert_eq!(tree.node_count(), 2);
        assert_eq!(
            *tree.code(),
            vec![
                ((PARALLEL_ID as VecType) << 24) | 1,
                2,
                (EXECUTOR_ID as VecType) << 24,
                0
            ]
        );
    }
}

#[test]
fn compile_success_parallel_multiple_children() {
    let mut context = Context::new();
    context
        .register_executor(&"exec".into(), executor)
        .unwrap();
    let ctx: Rc<Context> = Rc::new(context);

    let subject = Subject::Root(Box::new(Subject::Parallel {
        children: vec![
            Subject::Executor("exec".into()),
            Subject::Executor("exec".into()),
        ],
    }));
    let res = subject.compile(ContextRef::downgrade(&ctx));
    assert!(res.is_ok());

    if let Ok(tree) = res {
        assert_eq!(tree.node_count(), 3);
        assert_eq!(
            *tree.code(),
            vec![
                ((PARALLEL_ID as VecType) << 24) | 2,
                2,
                (EXECUTOR_ID as VecType) << 24,
                0,
                (EXECUTOR_ID as VecType) << 24,
                0
            ]
        );
    }
}

#[test]
fn compile_success_fallback() {
    let mut context = Context::new();
    context
        .register_executor(&"exec".into(), executor)
        .unwrap();
    let ctx: Rc<Context> = Rc::new(context);

    let subject = Subject::Root(Box::new(Subject::Fallback {
        children: vec![Subject::Executor("exec".into())],
    }));
    let res = subject.compile(ContextRef::downgrade(&ctx));
    assert!(res.is_ok());

    if let Ok(tree) = res {
        assert_eq!(tree.node_count(), 2);
        assert_eq!(
            *tree.code(),
            vec![
                ((FALLBACK_ID as VecType) << 24) | 1,
                2,
                (EXECUTOR_ID as VecType) << 24,
                0
            ]
        );
    }
}

#[test]
fn compile_success_fallback_multiple_children() {
    let mut context = Context::new();
    context
        .register_executor(&"exec".into(), executor)
        .unwrap();
    let ctx: Rc<Context> = Rc::new(context);

    let subject = Subject::Root(Box::new(Subject::Fallback {
        children: vec![
            Subject::Executor("exec".into()),
            Subject::Executor("exec".into()),
        ],
    }));
    let res = subject.compile(ContextRef::downgrade(&ctx));
    assert!(res.is_ok());

    if let Ok(tree) = res {
        assert_eq!(tree.node_count(), 3);
        assert_eq!(
            *tree.code(),
            vec![
                ((FALLBACK_ID as VecType) << 24) | 2,
                2,
                (EXECUTOR_ID as VecType) << 24,
                0,
                (EXECUTOR_ID as VecType) << 24,
                0
            ]
        );
    }
}

#[test]
fn compile_success_sequence() {
    let mut context = Context::new();
    context
        .register_decorator(&"decorate".into(), decorator)
        .unwrap();
    context
        .register_executor(&"exec".into(), executor)
        .unwrap();
    let ctx: Rc<Context> = Rc::new(context);

    let subject = Subject::Root(Box::new(Subject::Sequence {
        children: vec![Subject::Executor("exec".into())],
    }));
    let res = subject.compile(ContextRef::downgrade(&ctx));
    assert!(res.is_ok());

    if let Ok(tree) = res {
        assert_eq!(tree.node_count(), 2);
    }
}

#[test]
fn compile_success_sequence_multiple_children() {
    let mut context = Context::new();
    context
        .register_decorator(&"decorate".into(), decorator)
        .unwrap();
    context
        .register_executor(&"exec".into(), executor)
        .unwrap();
    let ctx: Rc<Context> = Rc::new(context);

    let subject = Subject::Root(Box::new(Subject::Sequence {
        children: vec![
            Subject::Executor("exec".into()),
            Subject::Executor("exec".into()),
        ],
    }));
    let res = subject.compile(ContextRef::downgrade(&ctx));
    assert!(res.is_ok());

    if let Ok(tree) = res {
        assert_eq!(tree.node_count(), 3);
        assert_eq!(
            *tree.code(),
            vec![
                ((SEQUENCE_ID as VecType) << 24) | 2,
                2,
                (EXECUTOR_ID as VecType) << 24,
                0,
                (EXECUTOR_ID as VecType) << 24,
                0
            ]
        );
    }
}

#[test]
fn control_variants_differ_in_the_tag_only() {
    let ctx = context_with(&["exec"], &[]);
    let trees = [
        (SEQUENCE_ID, Subject::Sequence { children: vec![leaf("exec")] }),
        (FALLBACK_ID, Subject::Fallback { children: vec![leaf("exec")] }),
        (PARALLEL_ID, Subject::Parallel { children: vec![leaf("exec")] }),
    ];
    for (tag, node) in trees {
        let tree = Subject::Root(Box::new(node))
            .compile(ContextRef::downgrade(&ctx))
            .unwrap();
        let code = tree.code();
        assert_eq!(tree.node_count(), 2);
        assert_eq!(code.len(), 4);
        assert_eq!(tag_of(code[0]), tag);
        assert_eq!(operand_of(code[0]), 1);
        assert_eq!(code[1], 2);
        assert_eq!(code[2..], [(EXECUTOR_ID as u32) << 24, 0]);
    }
}

#[test]
fn compile_fails_when_the_owner_is_gone() {
    let ctx = context_with(&["exec"], &[]);
    let reference = ContextRef::downgrade(&ctx);
    drop(ctx);

    let subject = Subject::Root(Box::new(leaf("exec")));
    assert!(subject
        .compile(reference)
        .is_err_and(|err| err == TreeCompilationError::NonExistentContext));
}

#[test]
fn compile_inner_fails_without_a_context() {
    let context: Option<Rc<Context>> = None;
    let res = leaf("exec").compile_inner(context);
    assert!(res.is_err_and(|err| err == TreeCompilationError::NonExistentContext));
}

#[test]
fn a_non_root_is_refused_before_the_context_is_looked_at() {
    let ctx = context_with(&[], &[]);
    let reference = ContextRef::downgrade(&ctx);
    drop(ctx);

    assert!(leaf("exec")
        .compile(reference)
        .is_err_and(|err| err == TreeCompilationError::InitialNonRootNode));
}

#[test]
fn compile_fails_on_a_missing_executor_with_its_identifier() {
    let ctx = context_with(&["exec"], &[]);
    let subject = Subject::Root(Box::new(leaf("missing")));
    let res = subject.compile(ContextRef::downgrade(&ctx));

    match res {
        Err(TreeCompilationError::UnknownExecutor(id)) => {
            assert_eq!(id.scope(), "game");
            assert_eq!(id.id(), "missing");
        }
        _ => panic!("expected an unknown executor"),
    }
}

#[test]
fn compile_fails_on_a_root_below_the_top() {
    let ctx = context_with(&["exec"], &[]);
    let subject = Subject::Root(Box::new(Subject::Root(Box::new(leaf("exec")))));
    assert!(subject
        .compile(ContextRef::downgrade(&ctx))
        .is_err_and(|err| err == TreeCompilationError::RootNodeInTree));

    let nested = Subject::Root(Box::new(Subject::Sequence {
        children: vec![Subject::Root(Box::new(leaf("exec"))), leaf("exec")],
    }));
    assert!(nested
        .compile(ContextRef::downgrade(&ctx))
        .is_err_and(|err| err == TreeCompilationError::RootNodeInTree));
}

#[test]
fn the_first_error_in_emission_order_is_reported() {
    let ctx = context_with(&["exec"], &[]);
    let subject = Subject::Root(Box::new(Subject::Sequence {
        children: vec![Subject::Root(Box::new(leaf("exec"))), leaf("missing")],
    }));
    assert!(subject
        .compile(ContextRef::downgrade(&ctx))
        .is_err_and(|err| err == TreeCompilationError::UnknownExecutor("missing".into())));
}

#[test]
fn handles_are_the_operands() {
    let ctx = context_with(&["zero", "one", "two"], &["first", "second"]);
    let subject = Subject::Root(Box::new(Subject::Decorator {
        name: "second".into(),
        child: Box::new(leaf("two")),
    }));
    let tree = subject.compile(ContextRef::downgrade(&ctx)).unwrap();

    assert_eq!(tree.node_count(), 2);
    assert_eq!(
        *tree.code(),
        vec![
            ((DECORATOR_ID as u32) << 24) | 1,
            2,
            ((EXECUTOR_ID as u32) << 24) | 2,
            0
        ]
    );
}

#[test]
fn children_are_emitted_from_the_last_to_the_first() {
    let ctx = context_with(&["a", "b", "c"], &[]);
    let subject = Subject::Root(Box::new(Subject::Sequence {
        children: vec![leaf("a"), leaf("b"), leaf("c")],
    }));
    let tree = subject.compile(ContextRef::downgrade(&ctx)).unwrap();

    assert_eq!(tree.node_count(), 4);
    assert_eq!(
        *tree.code(),
        vec![
            ((SEQUENCE_ID as u32) << 24) | 3,
            2,
            ((EXECUTOR_ID as u32) << 24) | 2,
            0,
            ((EXECUTOR_ID as u32) << 24) | 1,
            0,
            (EXECUTOR_ID as u32) << 24,
            0
        ]
    );
}

#[test]
fn every_offset_points_right_behind_its_node() {
    let ctx = context_with(&["a", "b"], &["d"]);
    let subject = Subject::Root(Box::new(Subject::Sequence {
        children: vec![
            leaf("a"),
            Subject::Fallback {
                children: vec![
                    Subject::Decorator { name: "d".into(), child: Box::new(leaf("b")) },
                    leaf("a"),
                ],
            },
        ],
    }));
    let tree = subject.compile(ContextRef::downgrade(&ctx)).unwrap();

    assert_eq!(tree.node_count(), 6);
    assert_eq!(
        *tree.code(),
        vec![
            ((SEQUENCE_ID as u32) << 24) | 2,
            2,
            ((FALLBACK_ID as u32) << 24) | 2,
            4,
            (EXECUTOR_ID as u32) << 24,
            0,
            (DECORATOR_ID as u32) << 24,
            8,
            ((EXECUTOR_ID as u32) << 24) | 1,
            0,
            (EXECUTOR_ID as u32) << 24,
            0
        ]
    );
}

#[test]
fn empty_control_nodes_are_pruned() {
    let ctx = context_with(&["exec"], &[]);
    let subject = Subject::Root(Box::new(Subject::Sequence {
        children: vec![
            Subject::Parallel { children: Vec::new() },
            leaf("exec"),
            Subject::Fallback { children: Vec::new() },
        ],
    }));
    let tree = subject.compile(ContextRef::downgrade(&ctx)).unwrap();

    assert_eq!(tree.node_count(), 2);
    assert_eq!(
        *tree.code(),
        vec![((SEQUENCE_ID as u32) << 24) | 3, 2, (EXECUTOR_ID as u32) << 24, 0]
    );
}

#[test]
fn compile_inner_takes_the_node_below_the_root() {
    let ctx = context_with(&["exec"], &[]);
    let tree = leaf("exec").compile_inner(Some(ctx.clone())).unwrap();
    assert_eq!(tree.node_count(), 1);
    assert_eq!(*tree.code(), vec![(EXECUTOR_ID as u32) << 24, 0]);

    let root = Subject::Root(Box::new(leaf("exec")));
    assert!(root
        .compile_inner(Some(ctx))
        .is_err_and(|err| err == TreeCompilationError::RootNodeInTree));
}

#[test]
fn a_tree_of_empty_control_nodes_has_no_nodes() {
    let ctx = context_with(&["exec"], &[]);
    let pruned = Subject::Fallback {
        children: vec![
            Subject::Sequence { children: Vec::new() },
            Subject::Parallel { children: vec![Subject::Fallback { children: Vec::new() }] },
        ],
    };
    let res = Subject::Root(Box::new(pruned)).compile(ContextRef::downgrade(&ctx));

    match res {
        Ok(tree) => {
            assert_eq!(tree.node_count(), 2);
            assert_eq!(
                *tree.code(),
                vec![((FALLBACK_ID as u32) << 24) | 2, 2, ((PARALLEL_ID as u32) << 24) | 1, 4]
            );
        }
        Err(_) => panic!("control nodes with children take their place"),
    }

    let empty = Subject::Fallback { children: Vec::new() };
    assert!(empty
        .compile_inner(Some(ctx))
        .is_err_and(|err| err == TreeCompilationError::NoNodes));
}

#[test]
fn the_stream_has_two_words_for_each_node() {
    let ctx = context_with(&["exec"], &["dec"]);
    let mut node = leaf("exec");
    for depth in 0..50 {
        node = if depth % 2 == 0 {
            Subject::Decorator { name: "dec".into(), child: Box::new(node) }
        } else {
            Subject::Parallel { children: vec![leaf("exec"), node, leaf("exec")] }
        };
    }
    let tree = Subject::Root(Box::new(node))
        .compile(ContextRef::downgrade(&ctx))
        .unwrap();

    assert_eq!(tree.node_count(), 1 + 25 + 25 * 3);
    assert_eq!(tree.code().len(), 2 * tree.node_count());
}

#[test]
fn a_deep_tree_compiles_without_recursion() {
    let ctx = context_with(&["exec"], &["dec"]);
    let depth = 200_000;
    let mut node = leaf("exec");
    for _ in 0..depth {
        node = Subject::Sequence { children: vec![node] };
    }
    let tree = Subject::Root(Box::new(node))
        .compile(ContextRef::downgrade(&ctx))
        .unwrap();

    assert_eq!(tree.node_count(), depth + 1);
    let code = tree.code();
    for position in 0..depth {
        assert_eq!(code[2 * position], ((SEQUENCE_ID as u32) << 24) | 1);
        assert_eq!(code[2 * position + 1] as usize, 2 * position + 2);
    }
    assert_eq!(code[2 * depth..], [(EXECUTOR_ID as u32) << 24, 0]);
}

#[test]
fn the_tree_keeps_the_context_alive() {
    let ctx = context_with(&["exec"], &[]);
    let tree = Subject::Root(Box::new(leaf("exec")))
        .compile(ContextRef::downgrade(&ctx))
        .unwrap();
    let reference = ContextRef::downgrade(&ctx);
    drop(ctx);

    let handle = tree.context().get_executor_handle(&"exec".into()).unwrap();
    assert_eq!(handle.value() as u32, operand_of(tree.code()[0]));
    assert_eq!(tree.context().call_executor(&handle, ()), TreeResult::Success);

    let second = Subject::Root(Box::new(leaf("exec"))).compile(reference).unwrap();
    assert_eq!(second.code(), tree.code());
}

#[test]
fn compiled_handles_call_what_was_registered() {
    let mut context = Context::new();
    context.register_executor(&"fails".into(), failing).unwrap();
    context.register_executor(&"succeeds".into(), executor).unwrap();
    let ctx = Rc::new(context);
    let tree = Subject::Root(Box::new(Subject::Sequence {
        children: vec![leaf("fails"), leaf("succeeds")],
    }))
    .compile(ContextRef::downgrade(&ctx))
    .unwrap();

    let code = tree.code();
    let first = RegistryHandle::new(operand_of(code[2]) as usize);
    let second = RegistryHandle::new(operand_of(code[4]) as usize);
    assert_eq!(tag_of(code[2]), EXECUTOR_ID);
    assert_eq!(tag_of(code[4]), EXECUTOR_ID);
    assert_eq!(tree.context().call_executor(&first, ()), TreeResult::Success);
    assert_eq!(tree.context().call_executor(&second, ()), TreeResult::Failure);
}

#[test]
fn compile_fails_on_more_children_than_the_operand_counts() {
    let ctx = context_with(&[], &[]);
    let mut children = Vec::new();
    children.resize_with(0x100_0000, || Subject::Sequence { children: Vec::new() });
    let subject = Subject::Root(Box::new(Subject::Parallel { children }));
    let res = subject.compile(ContextRef::downgrade(&ctx));

    assert!(res.is_err_and(|err| err == TreeCompilationError::TooManyChildNodes));
}

#[test]
fn a_handle_beyond_the_operand_is_refused_with_name_and_position() {
    assert_eq!(
        executor_word("exec".into(), Some(RegistryHandle::new(0x0100_0000))),
        Err(TreeCompilationError::UnencodableRegistryHandle {
            id: "exec".into(),
            registry_index: 0x0100_0000,
        })
    );
    assert_eq!(
        decorator_word("scope:dec".into(), Some(RegistryHandle::new(usize::MAX))),
        Err(TreeCompilationError::UnencodableRegistryHandle {
            id: Identifier::from("scope:dec"),
            registry_index: usize::MAX,
        })
    );
}

#[test]
fn the_largest_handle_fills_the_operand() {

    assert_eq!(
        executor_word("exec".into(), Some(RegistryHandle::new(0x00FF_FFFF))),
        Ok(0x05FF_FFFF)
    );
    assert_eq!(
        decorator_word("dec".into(), Some(RegistryHandle::new(0xF000))),
        Ok(0x0400_F000)
    );
    assert_eq!(executor_word("exec".into(), Some(RegistryHandle::new(7))), Ok(0x0500_0007));
}

#[test]
fn a_name_without_a_handle_is_unknown() {

    assert_eq!(
        executor_word("exec".into(), None),
        Err(TreeCompilationError::UnknownExecutor("exec".into()))
    );
    assert_eq!(
        decorator_word("dec".into(), None),
        Err(TreeCompilationError::UnknownDecorator("dec".into()))
    );
}

#[test]
fn a_count_of_four_thousand_children_compiles() {
    let ctx = context_with(&[], &[]);
    let mut children = Vec::new();
    children.resize_with(0x1000, || Subject::Sequence { children: Vec::new() });
    children.push(Subject::Executor("exec".into()));
    let subject = Subject::Root(Box::new(Subject::Parallel { children }));
    let res = subject.compile(ContextRef::downgrade(&ctx));

    assert!(res.is_err_and(|err| err == TreeCompilationError::UnknownExecutor("exec".into())));

    let ctx = context_with(&["exec"], &[]);
    let mut children = Vec::new();
    children.resize_with(0x1000, || Subject::Executor("exec".into()));
    let tree = Subject::Root(Box::new(Subject::Fallback { children }))
        .compile(ContextRef::downgrade(&ctx))
        .unwrap();
    assert_eq!(tree.node_count(), 0x1001);
    assert_eq!(tree.code()[0], ((FALLBACK_ID as u32) << 24) | 0x1000);
}

#[test]
fn every_node_of_a_stream_is_sound() {
    let executors = ["a", "b", "c"];
    let decorators = ["d", "e"];
    let ctx = context_with(&executors, &decorators);
    let subject = Subject::Root(Box::new(Subject::Parallel {
        children: vec![
            Subject::Decorator {
                name: "e".into(),
                child: Box::new(Subject::Sequence { children: vec![leaf("c"), leaf("a")] }),
            },
            Subject::Fallback { children: Vec::new() },
            Subject::Fallback {
                children: vec![leaf("b"), Subject::Sequence { children: Vec::new() }],
            },
            Subject::Decorator { name: "d".into(), child: Box::new(leaf("b")) },
        ],
    }));
    let tree = subject.compile(ContextRef::downgrade(&ctx)).unwrap();
    let code = tree.code();

    assert_eq!(tree.node_count(), 9);
    assert_eq!(code.len(), 18);
    for slot in 0..tree.node_count() {
        let tag = tag_of(code[2 * slot]);
        let operand = operand_of(code[2 * slot]) as usize;
        let offset = code[2 * slot + 1] as usize;
        if tag == EXECUTOR_ID {
            assert!(operand < executors.len());
            assert_eq!(offset, 0);
        } else if tag == DECORATOR_ID {
            assert!(operand < decorators.len());
            assert_eq!(offset, 2 * slot + 2);
        } else {
            assert!(tag == SEQUENCE_ID || tag == FALLBACK_ID || tag == PARALLEL_ID);
            assert!(operand > 0);
            assert_eq!(offset, 2 * slot + 2);
        }
    }
}
