//! A line-oriented multi-client chat service, written as a set of pure state
//! machines: the caller owns the sockets and channels, feeds events in and
//! carries the resulting actions out.

pub mod clock;
pub mod config;
pub mod laws;
pub mod listener;
pub mod protocol;
pub mod registry;
pub mod session;
pub mod text;

pub use config::{load_config, Config};
pub use listener::{
    on_trigger, Command, Listener, ListenerAction, ListenerEvent, ListenerPhase, Trigger,
};
pub use protocol::Phase;
pub use registry::HandleRegistry;
pub use session::{Action, Event, Session};
