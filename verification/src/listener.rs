//! The listener: the one place where connections come in.
//!
//! The listener holds at most one listening socket. It binds to the address
//! of the settings in force, accepts connections until the service is told to
//! restart, then gives the socket up and binds again with fresh settings. A
//! bind that fails ends the service. Like the session, it does no I/O of its
//! own: its driver binds, accepts and exits as it is told.

use vstd::prelude::*;

verus! {

/// The exit code of a service that could not bind its address.
pub const EXIT_BIND_FAILED: u8 = 1;

/// The exit code of a service that was asked to end.
pub const EXIT_TERMINATED: u8 = 0;

/// Whether the listener holds a socket.
#[derive(Clone, Copy, Debug, PartialEq, Eq, Structural)]
pub enum ListenerPhase {
    /// No socket is held; a bind is under way.
    Binding,
    /// The socket is held and connections are accepted.
    Accepting,
    /// The bind failed; the service is ending.
    Failed,
}

/// What can happen to the listener.
#[derive(Clone, Copy, Debug, PartialEq, Eq, Structural)]
pub enum ListenerEvent {
    /// The bind succeeded.
    Bound,
    /// The bind failed.
    BindFailed,
    /// A client connected.
    Connection,
    /// The service restarts.
    Restart,
}

/// What the listener asks its driver to do.
#[derive(Clone, Copy, Debug, PartialEq, Eq, Structural)]
pub enum ListenerAction {
    /// Wait for the next event.
    Wait,
    /// Start a session for the connection, with subscriptions of its own to
    /// both buses.
    Spawn,
    /// Drop the socket, read the settings anew and bind to their address.
    Rebind,
    /// End the process with this exit code.
    Exit(u8),
}

/// The phase and the action that follow an event.
pub open spec fn listener_step(phase: ListenerPhase, event: ListenerEvent) -> (
    ListenerPhase,
    ListenerAction,
) {
    match (phase, event) {
        (ListenerPhase::Binding, ListenerEvent::Bound) => (
            ListenerPhase::Accepting,
            ListenerAction::Wait,
        ),
        (ListenerPhase::Binding, ListenerEvent::BindFailed) => (
            ListenerPhase::Failed,
            ListenerAction::Exit(EXIT_BIND_FAILED),
        ),
        (ListenerPhase::Accepting, ListenerEvent::Connection) => (
            ListenerPhase::Accepting,
            ListenerAction::Spawn,
        ),
        (ListenerPhase::Accepting, ListenerEvent::Restart) => (
            ListenerPhase::Binding,
            ListenerAction::Rebind,
        ),
        _ => (phase, ListenerAction::Wait),
    }
}

/// The listener of a service.
pub struct Listener {
    phase: ListenerPhase,
}

impl View for Listener {
    type V = ListenerPhase;

    closed spec fn view(&self) -> ListenerPhase {
        self.phase
    }
}

impl Listener {
    /// The listener of a service that is about to bind for the first time.
    pub fn new() -> (listener: Listener)
        ensures
            listener@ == ListenerPhase::Binding,
    {
        Listener { phase: ListenerPhase::Binding }
    }

    /// Whether the listener holds a socket.
    pub fn phase(&self) -> (phase: ListenerPhase)
        ensures
            phase == self@,
    {
        self.phase
    }

    /// Takes one event and says what is to be done.
    pub fn on_event(&mut self, event: ListenerEvent) -> (action: ListenerAction)
        ensures
            (final(self)@, action) == listener_step(old(self)@, event),
    {
        let (phase, action) = match (self.phase, event) {
            (ListenerPhase::Binding, ListenerEvent::Bound) => (
                ListenerPhase::Accepting,
                ListenerAction::Wait,
            ),
            (ListenerPhase::Binding, ListenerEvent::BindFailed) => (
                ListenerPhase::Failed,
                ListenerAction::Exit(EXIT_BIND_FAILED),
            ),
            (ListenerPhase::Accepting, ListenerEvent::Connection) => (
                ListenerPhase::Accepting,
                ListenerAction::Spawn,
            ),
            (ListenerPhase::Accepting, ListenerEvent::Restart) => (
                ListenerPhase::Binding,
                ListenerAction::Rebind,
            ),
            _ => (self.phase, ListenerAction::Wait),
        };
        self.phase = phase;
        action
    }
}

/// A request from outside the service to restart it.
#[derive(Clone, Copy, Debug, PartialEq, Eq, Structural)]
pub enum Trigger {
    /// Read the settings anew and go on.
    Reload,
    /// End the service.
    Terminate,
}

/// What a trigger asks of the service.
#[derive(Clone, Copy, Debug, PartialEq, Eq, Structural)]
pub enum Command {
    /// Read the settings text and put the result in force.
    ReloadConfig,
    /// Send a restart signal to the listener and to every session.
    SignalRestart,
    /// End the process with this exit code.
    Exit(u8),
}

/// What a trigger asks of the service, in order.
pub open spec fn commands_for(trigger: Trigger) -> Seq<Command> {
    match trigger {
        Trigger::Reload => seq![Command::ReloadConfig, Command::SignalRestart],
        Trigger::Terminate => seq![Command::SignalRestart, Command::Exit(EXIT_TERMINATED)],
    }
}

/// Says what a trigger asks of the service. A reload puts the new settings
/// in force before anyone is told to restart; a termination tells everyone
/// before the process ends.
pub fn on_trigger(trigger: Trigger) -> (commands: Vec<Command>)
    ensures
        commands@ == commands_for(trigger),
{
    let mut commands: Vec<Command> = Vec::new();
    match trigger {
        Trigger::Reload => {
            commands.push(Command::ReloadConfig);
            commands.push(Command::SignalRestart);
        },
        Trigger::Terminate => {
            commands.push(Command::SignalRestart);
            commands.push(Command::Exit(EXIT_TERMINATED));
        },
    }
    assert(commands@ =~= commands_for(trigger));
    commands
}

/// **A socket is given up before another is asked for.** A rebind is asked
/// for only when the listener holds a socket, and leaves it without one;
/// connections are spawned only while it holds one.
pub proof fn lemma_one_socket(phase: ListenerPhase, event: ListenerEvent)
    ensures
        listener_step(phase, event).1 == ListenerAction::Rebind ==> phase
            == ListenerPhase::Accepting && listener_step(phase, event).0 == ListenerPhase::Binding,
        listener_step(phase, event).1 == ListenerAction::Spawn ==> phase
            == ListenerPhase::Accepting && listener_step(phase, event).0
            == ListenerPhase::Accepting,
        listener_step(phase, event).1 is Exit ==> event == ListenerEvent::BindFailed
            && listener_step(phase, event).1 == ListenerAction::Exit(EXIT_BIND_FAILED),
{
}

} // verus!
