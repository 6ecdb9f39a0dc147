//! A small in-memory order server core: a store of tables holding orders,
//! a router that maps parsed requests onto store operations, renderers for
//! the HTML fragments the server returns, and the accounting that a worker
//! pool's shutdown relies on.

pub mod client;
pub mod numfmt;
pub mod order;
pub mod pool;
pub mod render;
pub mod router;
pub mod store;
pub mod timefmt;
