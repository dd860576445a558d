//! Core of a host/guest scripting runtime: the native-call marshaling codec
//! with a typed return protocol and dynamic buffer growth, a self-describing
//! wire format for structured payloads, an event registry with scope-based
//! source filtering, a reference-counted callback-handle registry, and a
//! single-threaded cooperative scheduler with a software timer.
pub mod codec;
pub mod events;
pub mod invoker;
pub mod natives;
pub mod refreg;
pub mod runtime;
pub mod sched;
pub mod wire;
