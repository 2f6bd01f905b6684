//! The lifecycle of the children of an actor.

pub mod history;
pub mod laws;
pub mod messages;
pub mod notifier;
pub mod tracker;

pub use messages::{Awake, Done, Interrupt, TaskDone};
pub use notifier::{Delivery, LifecycleNotifier, NotifierKind};
pub use tracker::{LifetimeTracker, Record, Stage, StageView, TrackerView};
