//! Observer-side engine for the toplevel-management protocol of a display
//! server: selecting and binding the manager global, tracking the objects the
//! server addresses, dispatching inbound events to them, and deciding each step
//! of the readiness-driven main loop.

pub mod arena;
pub mod driver;
pub mod registry;

pub use arena::{
    DispatchError, Engine, EventBody, HandleEvent, ManagerEvent, Message, ObjectKind, ObjectState,
    Route,
};
pub use driver::{next_step, Driver, LoopAction, LoopEvent, LoopPhase};
pub use registry::{select_global, BindError, GlobalDescriptor, Selection};
