//! What the store asks of a state type: that it can be reduced by actions, and
//! what it means for its clones to be exact.
use vstd::prelude::*;

verus! {

/// A state that actions of type `Action` advance.
///
/// Reduction is a function of the state and the action alone: `reduced` says
/// which state follows, and `reduce` computes exactly that state. It has no
/// precondition, so it has to handle every action.
pub trait Reduce<Action>: Sized {
    /// The state that follows `self` under `action`.
    ///
    /// An implementation that is verified has to say what it is, or `reduce`
    /// cannot be shown to meet its contract. The default leaves it unspecified,
    /// so that code outside the verifier can implement the trait by `reduce`
    /// alone.
    open spec fn reduced(&self, action: &Action) -> Self {
        arbitrary()
    }

    /// Computes the state that follows `self` under `action`, and leaves `self`
    /// as it is.
    fn reduce(&self, action: &Action) -> (next: Self)
        ensures
            next == self.reduced(action),
    ;
}

/// The state reached from `state` by reducing with each of `actions` in turn,
/// the first action first: the left fold of `reduced` over `actions`.
pub open spec fn reduce_all<State: Reduce<Action>, Action>(
    state: State,
    actions: Seq<Action>,
) -> State {
    actions.fold_left(state, |reached: State, action: Action| reached.reduced(&action))
}

/// Reducing with a sequence is reducing with its first action and then with the
/// rest.
pub proof fn lemma_reduce_all_first<State: Reduce<Action>, Action>(
    state: State,
    actions: Seq<Action>,
)
    requires
        actions.len() > 0,
    ensures
        reduce_all(state, actions) == reduce_all(state.reduced(&actions[0]), actions.skip(1)),
{
    let step = |reached: State, action: Action| reached.reduced(&action);
    actions.lemma_fold_left_alt(state, step);
    actions.skip(1).lemma_fold_left_alt(state.reduced(&actions[0]), step);
    assert(actions.subrange(1, actions.len() as int) =~= actions.skip(1));
}

/// Whether cloning a `State` yields the very value that was cloned.
pub open spec fn clones_exactly<State: Clone>() -> bool {
    forall|source: State, copy: State| #[trigger] cloned(source, copy) ==> copy == source
}

} // verus!
