//! Keeps the two selection slots ("primary" and "clipboard") of several
//! display sessions identical.
//!
//! The library holds the decisions of the synchroniser and leaves the
//! waiting, reading and writing to its caller:
//!
//! - `gate`: the two-state value that separates a propagation window from
//!   ordinary watching;
//! - `watcher`: whether a captured snapshot is forwarded or dropped as an
//!   echo;
//! - `propagator`: the steps of one propagation round, in order;
//! - `discovery`: the names of the displays;
//! - `session`, `round`, `coordinator`: an in-memory set of displays on
//!   which rounds are played, with what each round comes to.

pub mod coordinator;
pub mod discovery;
pub mod event;
pub mod gate;
pub mod propagator;
pub mod round;
pub mod session;
pub mod watcher;
