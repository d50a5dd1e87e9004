//! Solving: boards with candidates, actions found by techniques, and the
//! techniques themselves.

pub mod strategy;
pub mod error;
pub mod change;
pub mod board;
pub mod action;
pub mod effects;
pub mod changer;
pub mod candidates;
pub mod validator;
pub mod cancelable;
pub mod algorithms;
pub mod solver;
pub mod reporter;
pub mod consistency;
