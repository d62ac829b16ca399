//! Hierarchical state machines.

pub mod base58;
pub mod base58_laws;
pub mod builder;
pub mod builder_laws;
pub mod context_laws;
pub mod deque_laws;
pub mod dispatch_laws;
pub mod error;
pub mod ingress;
pub mod ingress_laws;
pub mod kind;
mod lists;
pub mod manager;
pub mod manager_laws;
pub mod node;
pub mod node_laws;
pub mod notification;
pub mod notification_laws;
pub mod path_laws;
pub mod queue;
pub mod queue_laws;
pub mod request_laws;
pub mod signal;
pub mod state_id;
pub mod state_id_laws;
pub mod storage;
pub mod storage_laws;
pub mod store_laws;
pub mod time;
pub mod timeout;
pub mod timeout_laws;
pub mod tree;
pub mod tree_laws;

pub use builder::RexBuilder;
pub use error::{ConversionError, RexError};
pub use kind::{Coded, HashKind, Kind, Rex, State};
pub use manager::{ProcessorContext, StateMachine, StateMachineExt, StateMachineManager};
pub use notification::{
    GetTopic, Notification, NotificationManager, NotificationProcessor, NotificationQueue,
    Operation, Request, RequestInner, RexMessage, RexTopic, Subscriber, ToNotification,
    UnaryRequest,
};
pub use signal::{Signal, SignalExt, SignalQueue};
pub use state_id::StateId;
