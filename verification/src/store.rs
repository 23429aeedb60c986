//! The store: one state value, a chain of middleware, and dispatch.
use crate::middleware::{MiddlewareContext, MiddlewareEntry};
use crate::reduce::{clones_exactly, lemma_reduce_all_first, reduce_all, Reduce};
use vstd::prelude::*;

verus! {

/// What a store is to its callers: the state it holds and the middleware
/// registered with it, the one registered first at index 0.
#[verifier::reject_recursive_types(State)]
#[verifier::reject_recursive_types(Action)]
pub struct StoreView<State, Action> {
    pub state: State,
    pub chain: Seq<MiddlewareEntry<State, Action>>,
}

impl<State: Reduce<Action>, Action> StoreView<State, Action> {
    /// The context that a dispatch of `action` hands to each middleware: it
    /// shows the state as it is before the dispatch.
    pub open spec fn context<'a>(self, action: Action) -> MiddlewareContext<'a, State, Action> {
        MiddlewareContext::over(self.state, action)
    }

    /// Every middleware from position `index` on has completed an invocation
    /// with the context of `action`.
    pub open spec fn notified_from(self, index: int, action: Action) -> bool {
        forall|i: int|
            index <= i < self.chain.len() && 0 <= i ==> (#[trigger] self.chain[i]).completes(
                self.context(action),
            )
    }

    /// Every middleware of the chain has completed an invocation with the
    /// context of `action`.
    pub open spec fn notified(self, action: Action) -> bool {
        self.notified_from(0, action)
    }

    /// The store after `action` is dispatched: the state is reduced once, the
    /// chain stays.
    pub open spec fn dispatched(self, action: Action) -> Self {
        StoreView { state: self.state.reduced(&action), chain: self.chain }
    }

    /// The store after each of `actions` is dispatched, the first one first.
    pub open spec fn dispatched_all(self, actions: Seq<Action>) -> Self
        decreases actions.len(),
    {
        if actions.len() == 0 {
            self
        } else {
            self.dispatched(actions[0]).dispatched_all(actions.skip(1))
        }
    }

    /// `next` is this store with `middleware` registered: the same state, the
    /// same chain, and one more entry at its end that stands for `middleware`.
    pub open spec fn registers<M: Fn(MiddlewareContext<State, Action>) -> ()>(
        self,
        middleware: M,
        next: Self,
    ) -> bool {
        &&& next.state == self.state
        &&& next.chain.len() == self.chain.len() + 1
        &&& next.chain.drop_last() == self.chain
        &&& next.chain.last().wraps(middleware)
    }
}

/// A state container: it holds one state value and an ordered chain of
/// middleware, and changes the state only by `dispatch`.
#[verifier::reject_recursive_types(State)]
#[verifier::reject_recursive_types(Action)]
pub struct Store<State, Action> {
    state: State,
    middleware: Vec<MiddlewareEntry<State, Action>>,
}

impl<State, Action> View for Store<State, Action> {
    type V = StoreView<State, Action>;

    closed spec fn view(&self) -> StoreView<State, Action> {
        StoreView { state: self.state, chain: self.middleware@ }
    }
}

impl<State, Action> Store<State, Action> where State: Clone + Reduce<Action> {
    /// A store that holds `state` and has no middleware.
    pub fn new(state: State) -> (store: Self)
        ensures
            store@.state == state,
            store@.chain.len() == 0,
    {
        Store { state, middleware: Vec::new() }
    }

    /// Registers `middleware` behind those already registered and hands the
    /// store back. The middleware has to accept every context.
    pub fn add_middleware<Middleware>(self, middleware: Middleware) -> (store: Self) where
        Middleware: 'static + Fn(MiddlewareContext<State, Action>) -> (),

        requires
            forall|context: MiddlewareContext<State, Action>| #[trigger]
                call_requires(middleware, (context,)),
        ensures
            self@.registers(middleware, store@),
    {
        let Store { state, middleware: mut chain } = self;
        chain.push(MiddlewareEntry::new(middleware));
        let store = Store { state, middleware: chain };
        assert(store@.chain.drop_last() =~= self@.chain);
        store
    }

    /// Hands `action` to every middleware, in the order of registration, each
    /// with a context that shows the state as it is before this call; then
    /// replaces the state by its reduction under `action`.
    pub fn dispatch(&mut self, action: &Action)
        ensures
            final(self)@ == old(self)@.dispatched(*action),
            old(self)@.notified(*action),
    {
        self.dispatch_index(action, 0);
    }

    /// The walk behind `dispatch`, begun at position `index` of the chain: the
    /// middleware from there on are invoked, then the state is reduced. An
    /// `index` beyond the chain leaves only the reduction.
    fn dispatch_index(&mut self, action: &Action, index: usize)
        ensures
            final(self)@ == old(self)@.dispatched(*action),
            old(self)@.notified_from(index as int, *action),
    {
        let mut cursor: usize = index;
        while cursor < self.middleware.len()
            invariant
                *self == *old(self),
                index <= cursor,
                forall|i: int|
                    index <= i < cursor && i < self.middleware@.len() ==> (
                    #[trigger] self.middleware@[i]).completes(self@.context(*action)),
            decreases self.middleware.len() - cursor,
        {
            let context = MiddlewareContext { action, state: &self.state };
            self.middleware[cursor].invoke(context);
            cursor += 1;
        }
        self.state = self.state.reduce(action);
    }

    /// Returns a clone of the state as the last dispatch left it, or of the
    /// initial state if there was none. The store stays as it is.
    pub fn get_state(&self) -> (state: State)
        ensures
            cloned(self@.state, state),
            clones_exactly::<State>() ==> state == self@.state,
    {
        let state = self.state.clone();
        assert(cloned(self.state, state));
        state
    }
}

impl<State, Action> Default for Store<State, Action> where
    State: Default + Clone + Reduce<Action>,
 {
    /// A store that holds the state type's default value and has no
    /// middleware.
    fn default() -> (store: Self)
        ensures
            State::default.ensures((), store@.state),
            store@.chain.len() == 0,
    {
        Store::new(State::default())
    }
}

/// Reading twice with no dispatch in between reads the same state: both
/// results are clones of it, and where cloning is exact they are equal to it
/// and to each other.
pub proof fn lemma_reads_agree<State: Clone + Reduce<Action>, Action>(
    store: StoreView<State, Action>,
    first: State,
    second: State,
)
    requires
        clones_exactly::<State>(),
        cloned(store.state, first),
        cloned(store.state, second),
    ensures
        first == store.state,
        second == store.state,
        first == second,
{
}

/// Dispatching one more action after a sequence is one more dispatch on the
/// store that the sequence left.
pub proof fn lemma_dispatched_all_push<State: Reduce<Action>, Action>(
    store: StoreView<State, Action>,
    actions: Seq<Action>,
    action: Action,
)
    ensures
        store.dispatched_all(actions.push(action)) == store.dispatched_all(actions).dispatched(
            action,
        ),
    decreases actions.len(),
{
    let longer = actions.push(action);
    if actions.len() == 0 {
        assert(longer.skip(1) =~= actions);
        assert(store.dispatched(action).dispatched_all(longer.skip(1)) == store.dispatched(action));
    } else {
        assert(longer.skip(1) =~= actions.skip(1).push(action));
        lemma_dispatched_all_push(store.dispatched(actions[0]), actions.skip(1), action);
    }
}

/// After a sequence of actions is dispatched in order, the state is the left
/// fold of the reduction over the initial state and the actions, whatever
/// middleware is registered; and the chain is as it was.
pub proof fn lemma_dispatched_all_folds<State: Reduce<Action>, Action>(
    store: StoreView<State, Action>,
    actions: Seq<Action>,
)
    ensures
        store.dispatched_all(actions).state == reduce_all(store.state, actions),
        store.dispatched_all(actions).chain == store.chain,
    decreases actions.len(),
{
    if actions.len() > 0 {
        lemma_dispatched_all_folds(store.dispatched(actions[0]), actions.skip(1));
        lemma_reduce_all_first(store.state, actions);
    }
}

/// Middleware do not bear on the state: two stores that start from the same
/// state reach the same state under the same actions, whatever their chains
/// hold.
pub proof fn lemma_chain_does_not_bear_on_state<State: Reduce<Action>, Action>(
    one: StoreView<State, Action>,
    other: StoreView<State, Action>,
    actions: Seq<Action>,
)
    requires
        one.state == other.state,
    ensures
        one.dispatched_all(actions).state == other.dispatched_all(actions).state,
{
    lemma_dispatched_all_folds(one, actions);
    lemma_dispatched_all_folds(other, actions);
}

/// In a run of dispatches, the context of the dispatch at position `k` shows
/// the state that the dispatches before it produced, not yet advanced by the
/// action at `k`, and carries that action. So what that dispatch says of its
/// middleware, it says of that state; and the state advances only with the
/// reduction that ends the dispatch.
pub proof fn lemma_context_shows_state_before<State: Reduce<Action>, Action>(
    store: StoreView<State, Action>,
    actions: Seq<Action>,
    k: int,
)
    requires
        0 <= k < actions.len(),
    ensures
        *store.dispatched_all(actions.take(k)).context(actions[k]).state == reduce_all(
            store.state,
            actions.take(k),
        ),
        *store.dispatched_all(actions.take(k)).context(actions[k]).action == actions[k],
        store.dispatched_all(actions.take(k)).notified(actions[k]) <==> forall|i: int|
            0 <= i < store.chain.len() ==> (#[trigger] store.chain[i]).completes(
                MiddlewareContext::over(reduce_all(store.state, actions.take(k)), actions[k]),
            ),
        store.dispatched_all(actions.take(k + 1)) == store.dispatched_all(
            actions.take(k),
        ).dispatched(actions[k]),
{
    lemma_dispatched_all_folds(store, actions.take(k));
    assert(actions.take(k + 1) =~= actions.take(k).push(actions[k]));
    lemma_dispatched_all_push(store, actions.take(k), actions[k]);
}

/// Registration order is chain order: of two middleware registered one after
/// the other, the first stands directly before the second at the end of the
/// chain, and the entries that were there before keep their places.
pub proof fn lemma_registration_keeps_order<State, Action, First, Second>(
    store: StoreView<State, Action>,
    first: First,
    with_first: StoreView<State, Action>,
    second: Second,
    with_both: StoreView<State, Action>,
) where
    State: Reduce<Action>,
    First: Fn(MiddlewareContext<State, Action>) -> (),
    Second: Fn(MiddlewareContext<State, Action>) -> (),

    requires
        store.registers(first, with_first),
        with_first.registers(second, with_both),
    ensures
        with_both.state == store.state,
        with_both.chain.len() == store.chain.len() + 2,
        with_both.chain.take(store.chain.len() as int) == store.chain,
        with_both.chain[store.chain.len() as int].wraps(first),
        with_both.chain[store.chain.len() as int + 1].wraps(second),
{
    let n = store.chain.len() as int;
    assert(with_first.chain == with_both.chain.drop_last());
    assert(with_both.chain.take(n) =~= with_both.chain.drop_last().drop_last());
    assert(with_both.chain[n] == with_first.chain.last());
}

} // verus!
