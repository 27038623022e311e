//! Windows TraceLogging (ETW) event encoding, with its layout rules proved.
//!
//! The library computes everything that an event provider hands to the
//! operating system: the provider traits blob, the event metadata blob, the
//! event data descriptors with their payloads, the event descriptor with its
//! opcode, the provider GUID parsed from its text form, and the stack of
//! activity ids that start and stop events nest on.

pub mod trace_logging;
pub mod internal;
pub mod guid;
pub mod metadata;
pub mod event;
pub mod activity;
