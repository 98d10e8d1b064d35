//! Core runtime of an application-binary emulator: a typed guest memory
//! model, a bridge between host and guest calling conventions, a dynamic
//! object model (classes, interned selectors, per-object host payloads),
//! a message-dispatch engine, reference-counted object lifecycle, and a
//! one-shot initialization primitive with a guest-visible record layout.

pub mod abi;
pub mod dispatch;
pub mod env;
pub mod lifecycle;
pub mod mem;
pub mod objc;
pub mod once;
pub mod views;
