//! A hierarchical state-machine engine with a verified wire protocol and a
//! verified sandbox-boundary ABI model.
//!
//! A tree of state units routes events children-first and cascades
//! self-transitions to a fixpoint ([`store`], [`executor`]); payloads travel
//! in a canonical textual encoding whose decoder provably inverts its
//! encoder ([`codec`], [`value`], [`protocol`], [`persist`]); and a
//! pointer/length calling convention marshals request and response buffers
//! across a linear-memory boundary with its buffer-ownership and
//! size-matching rules enforced by contract ([`memory`], [`host`]).

pub mod actions;
pub mod codec;
pub mod executor;
pub mod host;
pub mod keys;
pub mod memory;
pub mod persist;
pub mod protocol;
pub mod store;
pub mod value;

pub use actions::{Actions, OutgoingEvent};
pub use host::{form_key, HandlerResponse, Program};
pub use memory::{GuestInterface, SandboxMemory};
pub use protocol::{Operation, Request, Response, Snapshot};
pub use store::{BaseStore, EventStatus, State, StateStatus, Store};
pub use value::Value;
