//! What a middleware is handed, and how the store keeps a registered one.
use crate::reduce::clones_exactly;
use vstd::prelude::*;

verus! {

/// What a middleware is handed on each invocation: the action in flight and
/// read access to the state as it stands before that action is reduced.
///
/// The context borrows both; it cannot change either.
pub struct MiddlewareContext<'a, State, Action> {
    /// The action being dispatched.
    pub action: &'a Action,
    /// The store's state, not yet advanced by `action`.
    pub state: &'a State,
}

impl<'a, State, Action> MiddlewareContext<'a, State, Action> {
    /// The context that shows `state` and carries `action`.
    pub open spec fn over(state: State, action: Action) -> Self {
        MiddlewareContext { action: &action, state: &state }
    }

    /// Returns a clone of the state that this context shows. Every call reads
    /// the state anew.
    pub fn get_state(&self) -> (snapshot: State) where State: Clone
        ensures
            cloned(*self.state, snapshot),
            clones_exactly::<State>() ==> snapshot == *self.state,
    {
        let snapshot = self.state.clone();
        assert(cloned(*self.state, snapshot));
        snapshot
    }
}

/// Something that can be invoked with a context. Closures of the right shape
/// are handlers; the store keeps them behind this trait.
trait Handler<State, Action> {
    /// Whether the handler may be invoked with `context`.
    spec fn admits(&self, context: MiddlewareContext<State, Action>) -> bool;

    /// Whether an invocation with `context` can have returned.
    spec fn completes(&self, context: MiddlewareContext<State, Action>) -> bool;

    fn handle(&self, context: MiddlewareContext<State, Action>)
        requires
            self.admits(context),
        ensures
            self.completes(context),
    ;
}

impl<State, Action, F> Handler<State, Action> for F where
    F: Fn(MiddlewareContext<State, Action>) -> (),
 {
    spec fn admits(&self, context: MiddlewareContext<State, Action>) -> bool {
        call_requires(*self, (context,))
    }

    spec fn completes(&self, context: MiddlewareContext<State, Action>) -> bool {
        call_ensures(*self, (context,), ())
    }

    fn handle(&self, context: MiddlewareContext<State, Action>) {
        self(context)
    }
}

/// A middleware as the store holds it once it is registered.
///
/// A registered middleware accepts every context, so it can be invoked on any
/// dispatch without further conditions.
#[verifier::reject_recursive_types(State)]
#[verifier::reject_recursive_types(Action)]
pub struct MiddlewareEntry<State, Action> {
    handler: Box<dyn Handler<State, Action>>,
}

impl<State, Action> MiddlewareEntry<State, Action> {
    #[verifier::type_invariant]
    spec fn admits_every_context(&self) -> bool {
        forall|context: MiddlewareContext<State, Action>| #[trigger] self.handler.admits(context)
    }

    /// Whether an invocation of this middleware with `context` can have
    /// returned: the postcondition of the registered callback, on `context`.
    pub closed spec fn completes(&self, context: MiddlewareContext<State, Action>) -> bool {
        self.handler.completes(context)
    }

    /// Whether this entry stands for `middleware`: it completes on exactly the
    /// contexts on which `middleware` can return.
    pub open spec fn wraps<M: Fn(MiddlewareContext<State, Action>) -> ()>(
        &self,
        middleware: M,
    ) -> bool {
        forall|context: MiddlewareContext<State, Action>|
            (#[trigger] self.completes(context)) == call_ensures(middleware, (context,), ())
    }

    /// Takes `middleware` into an entry that the store can keep.
    pub(crate) fn new<M>(middleware: M) -> (entry: Self) where
        M: 'static + Fn(MiddlewareContext<State, Action>) -> (),

        requires
            forall|context: MiddlewareContext<State, Action>| #[trigger]
                call_requires(middleware, (context,)),
        ensures
            entry.wraps(middleware),
    {
        let handler: Box<dyn Handler<State, Action>> = Box::new(middleware);
        MiddlewareEntry { handler }
    }

    /// Invokes the middleware with `context`.
    pub(crate) fn invoke(&self, context: MiddlewareContext<State, Action>)
        ensures
            self.completes(context),
    {
        proof {
            use_type_invariant(self);
        }
        self.handler.handle(context);
    }
}

} // verus!
