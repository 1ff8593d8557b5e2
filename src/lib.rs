//! The MD5 compression function: folds 64-byte message blocks into a
//! 128-bit running state. `model` states what each round, each block and a
//! sequence of blocks compute; `soft` and `sched` are two backends, each
//! proved to compute exactly that.

pub mod consts;
pub mod model;
pub mod sched;
pub mod soft;
