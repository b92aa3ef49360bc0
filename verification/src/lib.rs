//! A single-threaded, stackful green-thread runtime, specified and verified
//! at the level of its scheduling logic.
//!
//! The crate models the core of the runtime as plain data: the per-thread
//! context records with their reference counts and lifecycle, the executor's
//! FIFO run queue, the cross-thread wakeup queue, the reactor's submission
//! protocol, and the stack and allocation arithmetic.  Every scheduling
//! decision is an ordinary function with a contract; the operating-system
//! shell (memory mapping, the register save/restore primitive, the kernel
//! ring) drives these functions from outside the verified boundary.

pub mod builder;
pub mod context;
pub mod executor;
pub mod fs;
pub mod future;
pub mod mutex;
pub mod reactor;
pub mod registers;
pub mod runtime;
pub mod shared_queue;
pub mod stack;
pub mod thread;

pub use context::Context;
pub use context::Lifecycle;
pub use context::Status;
pub use context::ThreadId;
pub use registers::Registers;
pub use stack::Stack;
