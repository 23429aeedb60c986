//! A single-threaded state container in the reducer style.
//!
//! A [`store::Store`] owns one state value. The state advances only when an
//! action is dispatched: the store hands the action to every registered
//! middleware, in registration order, and then replaces the state by what the
//! state's [`reduce::Reduce`] implementation makes of it.
pub mod middleware;
pub mod reduce;
pub mod store;
