//! A verified model of the marshaling layer between a stack-based script engine and host data.
//!
//! The engine exposes a single shared value stack addressed by signed indices, and a heap stash
//! that keeps values alive beyond the stack's LIFO discipline. This crate converts between that
//! stack and host values, mints and resolves stash handles, runs the call protocol and extracts
//! structured script errors, with every operation proved to leave the stack as its contract says.

pub mod stack;
pub mod value;
pub mod number;
pub mod error;
pub mod context;
pub mod data;
pub mod ser;
pub mod de;
pub mod law;
pub mod logging;
pub mod keys;
pub mod lookup;
pub mod hostfn;

pub use context::{Argument, CallFrame, Context, ContextBuilder, NoModule, Outcome, Reference};
pub use data::{Data, Payload, Shape};
pub use de::deserialize_from_stack;
pub use error::{Error, JsError, JsErrorKind};
pub use ser::serialize_to_stack;
pub use stack::{ObjectClass, Slot, StackGuard, TypeTag, ValueStack};
pub use value::Value;
