//! Decision logic of a ZeroMQ I/O worker: socket bookkeeping, read assembly,
//! write queues, poll planning, and the replies handed back to callers.

pub mod frames;
pub mod laws;
pub mod model;
pub mod order;
pub mod poll;
pub mod reply;
pub mod util;
pub mod worker;
