//! A focus-enforcement library: a block-list editor for the system hosts
//! file, a time-boxed, password-gated lock guard, and a process sweep.

pub mod text;
pub mod hosts;
pub mod lock;
pub mod gate;
pub mod process;
pub mod focus;
pub mod stats;
pub mod hosts_lemmas;
