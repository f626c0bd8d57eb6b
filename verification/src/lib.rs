//! Host-side services for an embedded, single-threaded script engine.
//!
//! The engine expects its host to supply two things it does not implement
//! itself: a queue of deferred jobs (the microtask queue behind promise
//! semantics) and an on-demand, memoizing loader for script modules. Both
//! live here as verified state machines; the host's event loop performs the
//! engine calls (invoking a callable, compiling a source file) and feeds the
//! outcomes back in.

pub mod microtasks;
pub mod modules;
pub mod print;
