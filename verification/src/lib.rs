//! A happy-eyeballs style connection racer: one dial attempt per resolved
//! endpoint, a winner-take-first arbiter, and exact termination accounting.
//!
//! The library holds the decision logic of the race: planning one attempt per
//! endpoint, arbitrating which established connection is the winner, what to
//! do with every later outcome, and when the race is over. The surrounding
//! program performs the actual resolution, thread spawning, connecting and
//! byte shuffling, and feeds each attempt's terminal outcome back here as an
//! event.

pub mod endpoint;
pub mod http;
pub mod race;
