//! The callables that a tree's leaves and decorators name.
use crate::identifier::Identifier;
use crate::identifier::IdentifierView;
use crate::registry::is_first_match;
use crate::registry::lookup;
use crate::registry::Registry;
use crate::registry::RegistryHandle;
use crate::registry::RegistryInsertError;
use std::rc::Rc;
use std::rc::Weak;
use vstd::prelude::*;

verus! {

/// A callable that takes `Args` and gives `ReturnType`.
pub trait NodeHandler<Args, ReturnType>: Fn(Args) -> ReturnType {}

/// The names that a context resolves, each kind in registration order.
pub struct NameTable {
    pub executors: Seq<IdentifierView>,
    pub decorators: Seq<IdentifierView>,
}

/// A registry of leaf callables of type `E` and one of decorator callables
/// of type `D`, both keyed by identifier.
pub struct BehaviourContext<E, D> {
    executors: Registry<E>,
    decorators: Registry<D>,
}

impl<E, D> BehaviourContext<E, D> {
    /// The registry of leaf callables.
    pub closed spec fn executors(&self) -> Registry<E> {
        self.executors
    }

    /// The registry of decorator callables.
    pub closed spec fn decorators(&self) -> Registry<D> {
        self.decorators
    }

    /// The names of both registries.
    pub open spec fn names(&self) -> NameTable {
        NameTable { executors: self.executors().keys(), decorators: self.decorators().keys() }
    }

    /// Both registries are well formed.
    pub open spec fn wf(&self) -> bool {
        self.executors().wf() && self.decorators().wf()
    }

    /// A context with nothing registered.
    pub fn new() -> (context: Self)
        ensures
            context.names().executors == Seq::<IdentifierView>::empty(),
            context.names().decorators == Seq::<IdentifierView>::empty(),
            context.executors().values() == Seq::<E>::empty(),
            context.decorators().values() == Seq::<D>::empty(),
            context.wf(),
    {
        Self { executors: Registry::new(), decorators: Registry::new() }
    }

    /// A context with nothing registered and room reserved in each registry.
    pub fn with_capacity(handler_capacity: usize, decorator_capacity: usize) -> (context: Self)
        ensures
            context.names().executors == Seq::<IdentifierView>::empty(),
            context.names().decorators == Seq::<IdentifierView>::empty(),
            context.executors().values() == Seq::<E>::empty(),
            context.decorators().values() == Seq::<D>::empty(),
            context.wf(),
    {
        Self {
            executors: Registry::with_capacity(handler_capacity),
            decorators: Registry::with_capacity(decorator_capacity),
        }
    }

    /// Registers the leaf callable `handle` under `id`.
    pub fn register_executor(&mut self, id: &Identifier, handle: E) -> (res: Result<
        (),
        RegistryInsertError,
    >)
        ensures
            final(self).decorators() == old(self).decorators(),
            old(self).names().executors.contains(id@) ==> res == Err::<(), RegistryInsertError>(
                RegistryInsertError::EntryAlreadyExists,
            ) && *final(self) == *old(self),
            !old(self).names().executors.contains(id@) ==> res == Ok::<(), RegistryInsertError>(())
                && final(self).names().executors == old(self).names().executors.push(id@)
                && final(self).executors().values() == old(self).executors().values().push(handle),
            old(self).wf() ==> final(self).wf(),
    {
        self.executors.insert(id, handle)
    }

    /// Registers the decorator callable `decorator` under `id`.
    pub fn register_decorator(&mut self, id: &Identifier, decorator: D) -> (res: Result<
        (),
        RegistryInsertError,
    >)
        ensures
            final(self).executors() == old(self).executors(),
            old(self).names().decorators.contains(id@) ==> res == Err::<(), RegistryInsertError>(
                RegistryInsertError::EntryAlreadyExists,
            ) && *final(self) == *old(self),
            !old(self).names().decorators.contains(id@) ==> res == Ok::<(), RegistryInsertError>(())
                && final(self).names().decorators == old(self).names().decorators.push(id@)
                && final(self).decorators().values() == old(self).decorators().values().push(
                decorator,
            ),
            old(self).wf() ==> final(self).wf(),
    {
        self.decorators.insert(id, decorator)
    }

    /// The handle of the leaf callable registered under `id`.
    pub fn get_executor_handle(&self, id: &Identifier) -> (handle: Option<RegistryHandle>)
        ensures
            handle is Some <==> self.names().executors.contains(id@),
            handle matches Some(h) ==> is_first_match(
                self.names().executors,
                id@,
                h.index() as int,
            ),
            match handle {
                Some(h) => lookup(self.names().executors, id@) == Some(h.index()),
                None => lookup(self.names().executors, id@) is None,
            },
    {
        self.executors.get_handle(id)
    }

    /// The handle of the decorator callable registered under `id`.
    pub fn get_decorator_handle(&self, id: &Identifier) -> (handle: Option<RegistryHandle>)
        ensures
            handle is Some <==> self.names().decorators.contains(id@),
            handle matches Some(h) ==> is_first_match(
                self.names().decorators,
                id@,
                h.index() as int,
            ),
            match handle {
                Some(h) => lookup(self.names().decorators, id@) == Some(h.index()),
                None => lookup(self.names().decorators, id@) is None,
            },
    {
        self.decorators.get_handle(id)
    }

    /// Calls the leaf callable that `handle` names.
    pub fn call_executor<Args, ReturnType>(&self, handle: &RegistryHandle, args: Args) -> (outcome:
        ReturnType) where E: Fn(Args) -> ReturnType
        requires
            handle.index() < self.executors().values().len(),
            call_requires(self.executors().values()[handle.index() as int], (args,)),
        ensures
            call_ensures(self.executors().values()[handle.index() as int], (args,), outcome),
    {
        match self.executors.get(handle) {
            Some(executor) => executor(args),
            None => vstd::pervasive::unreached(),
        }
    }

    /// Calls the decorator callable that `handle` names on a child's outcome.
    pub fn call_decorator<Args, ReturnType>(
        &self,
        handle: &RegistryHandle,
        args: Args,
        result: ReturnType,
    ) -> (outcome: ReturnType) where D: Fn(ReturnType, Args) -> ReturnType
        requires
            handle.index() < self.decorators().values().len(),
            call_requires(self.decorators().values()[handle.index() as int], (result, args)),
        ensures
            call_ensures(
                self.decorators().values()[handle.index() as int],
                (result, args),
                outcome,
            ),
    {
        match self.decorators.get(handle) {
            Some(decorator) => decorator(result, args),
            None => vstd::pervasive::unreached(),
        }
    }

    /// Empties both registries. Handles resolved before no longer name anything.
    pub fn clear(&mut self)
        ensures
            final(self).names().executors == Seq::<IdentifierView>::empty(),
            final(self).names().decorators == Seq::<IdentifierView>::empty(),
            final(self).executors().values() == Seq::<E>::empty(),
            final(self).decorators().values() == Seq::<D>::empty(),
            final(self).wf(),
    {
        self.executors.clear();
        self.decorators.clear();
    }
}

/// A reference to a shared context that does not keep it alive: a
/// `std::rc::Weak`, which the verifier cannot look into.
#[verifier::external_body]
#[verifier::reject_recursive_types(E)]
#[verifier::reject_recursive_types(D)]
pub struct ContextRef<E, D> {
    inner: Weak<BehaviourContext<E, D>>,
}

impl<E, D> ContextRef<E, D> {
    /// `Rc::downgrade`: a reference to `context` that does not own it.
    /// Nothing is claimed of the reference.
    #[verifier::external_body]
    pub fn downgrade(context: &Rc<BehaviourContext<E, D>>) -> (reference: Self) {
        Self { inner: Rc::downgrade(context) }
    }

    /// `Weak::upgrade`: a share in the context, if an owner still holds it.
    /// Nothing is claimed of the outcome: whether an owner is left depends
    /// on what the rest of the program has done.
    #[verifier::external_body]
    pub(crate) fn upgrade(&self) -> (context: Option<Rc<BehaviourContext<E, D>>>) {
        self.inner.upgrade()
    }
}

} // verus!
