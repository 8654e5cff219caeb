//! The executable session: one per accepted connection.
//!
//! A session does no I/O. Its driver reads the socket and the two buses,
//! hands each event to [`Session::step`] together with the shared registry
//! and the settings in force, and carries out the actions that come back, in
//! order.

use crate::clock::{four_digit_years, is_minute_text, minute_stamp, stamp_text};
use crate::config::Config;
use crate::laws::{framed, in_order, lemma_step_framed};
use crate::protocol::{
    banner_text, broadcast_step, chat_line, greeting, has_disconnect_byte, input_step,
    is_disconnect_byte, line_span, line_step, lines_step, lost_step, peers_text, restart_step,
    step, welcome_text, ActionView, EventView, Outcome, Phase, SessionView, BANNER_HEAD,
    BANNER_MIDDLE, BANNER_TAIL, HANDLE_INVALID, HANDLE_TAKEN, HANDLE_TOO_LONG, LINE_TOO_LONG,
    NO_PEERS, PEERS_HEAD, PEERS_SEPARATOR, PROMPT, RESET_BYTE, RESTART_NOTICE, WELCOME_HEAD,
    WELCOME_TAIL,
};
use crate::registry::{without, HandleRegistry};
use crate::text::{contains_control_or_space, decode, join, push_decimal, trim};
use vstd::prelude::*;
use vstd::slice::slice_subrange;

verus! {

/// What a session asks its driver to do.
#[derive(Debug, Clone, PartialEq, Eq)]
pub enum Action {
    /// Write the text to the client. If the write fails the connection is
    /// lost: the driver reports [`Event::ConnectionLost`] and drops the
    /// actions that follow.
    SendRequired(String),
    /// Write the text to the client; a failed write is ignored.
    Send(String),
    /// Hand the text to the broadcast bus.
    Publish(String),
    /// Close the connection and end the session.
    Disconnect,
}

impl View for Action {
    type V = ActionView;

    open spec fn view(&self) -> ActionView {
        match self {
            Action::SendRequired(text) => ActionView::SendRequired(text@),
            Action::Send(text) => ActionView::Send(text@),
            Action::Publish(text) => ActionView::Publish(text@),
            Action::Disconnect => ActionView::Disconnect,
        }
    }
}

impl DeepView for Action {
    type V = ActionView;

    open spec fn deep_view(&self) -> ActionView {
        self@
    }
}

/// What can happen to a session.
#[derive(Debug, Clone, PartialEq, Eq)]
pub enum Event {
    /// The client sent `bytes`; `stamp` is the wall-clock text of the moment,
    /// as chat messages show it.
    Received { bytes: Vec<u8>, stamp: String },
    /// The client closed the connection, or reading or a required write
    /// failed.
    ConnectionLost,
    /// The broadcast bus delivered a message.
    Broadcast(String),
    /// The service restarts.
    Restart,
}

impl View for Event {
    type V = EventView;

    open spec fn view(&self) -> EventView {
        match self {
            Event::Received { bytes, stamp } => EventView::Received {
                bytes: bytes@,
                stamp: stamp@,
            },
            Event::ConnectionLost => EventView::ConnectionLost,
            Event::Broadcast(message) => EventView::Broadcast(message@),
            Event::Restart => EventView::Restart,
        }
    }
}

impl Event {
    /// The event for bytes that arrived at the instant `unix_seconds`, in
    /// seconds since 1970 UTC: they are stamped with its minute in Tokyo.
    pub fn received_at(bytes: Vec<u8>, unix_seconds: i64) -> (event: Event)
        ensures
            event@ == (EventView::Received { bytes: bytes@, stamp: stamp_text(unix_seconds) }),
            four_digit_years(unix_seconds) ==> is_minute_text(stamp_text(unix_seconds)),
    {
        Event::Received { bytes, stamp: minute_stamp(unix_seconds) }
    }

    /// The event that a read of the client's socket stands for. `read` holds
    /// the bytes that the read brought, or `None` where it failed;
    /// `unix_seconds` is the instant of the read, in seconds since 1970 UTC.
    ///
    /// A read that brought bytes is input, stamped with the minute of the
    /// instant. A read that brought none means that the client has closed the
    /// connection, and a read that failed is taken in the same way: the
    /// connection is lost.
    pub fn from_read(read: Option<Vec<u8>>, unix_seconds: i64) -> (event: Event)
        ensures
            event@ == match read {
                Some(bytes) => if bytes@.len() > 0 {
                    EventView::Received { bytes: bytes@, stamp: stamp_text(unix_seconds) }
                } else {
                    EventView::ConnectionLost
                },
                None => EventView::ConnectionLost,
            },
            four_digit_years(unix_seconds) ==> (event@ matches EventView::Received { stamp, .. }
                ==> is_minute_text(stamp)),
    {
        match read {
            Some(bytes) => if bytes.len() > 0 {
                Event::received_at(bytes, unix_seconds)
            } else {
                Event::ConnectionLost
            },
            None => Event::ConnectionLost,
        }
    }
}

/// The state of one client connection.
pub struct Session {
    peer_addr: String,
    handle_name: String,
    phase: Phase,
    line_buf: Vec<u8>,
}

impl View for Session {
    type V = SessionView;

    closed spec fn view(&self) -> SessionView {
        SessionView { phase: self.phase, handle: self.handle_name@, pending: self.line_buf@ }
    }
}

/// The first index at or behind `from` at which a line ends, or the length of
/// `bytes` where none does.
fn find_line_end(bytes: &Vec<u8>, from: usize) -> (end: usize)
    requires
        from <= bytes.len(),
    ensures
        from <= end <= bytes.len(),
        end - from == line_span(bytes@.skip(from as int)),
{
    let mut end = from;
    while end < bytes.len() && bytes[end] != 0x0a && bytes[end] != 0x0d
        invariant
            from <= end <= bytes.len(),
            line_span(bytes@.skip(from as int)) == (end - from) + line_span(
                bytes@.skip(end as int),
            ),
        decreases bytes.len() - end,
    {
        assert(bytes@.skip(end as int).drop_first() == bytes@.skip(end + 1));
        end = end + 1;
    }
    end
}

/// Whether `bytes` holds Ctrl-C or Ctrl-D.
fn contains_disconnect_byte(bytes: &[u8]) -> (found: bool)
    ensures
        found == has_disconnect_byte(bytes@),
{
    let mut i: usize = 0;
    while i < bytes.len()
        invariant
            i <= bytes.len(),
            forall|j: int| 0 <= j < i ==> !is_disconnect_byte(#[trigger] bytes@[j]),
        decreases bytes.len() - i,
    {
        if bytes[i] == 0x03 || bytes[i] == 0x04 {
            assert(is_disconnect_byte(bytes@[i as int]));
            return true;
        }
        i = i + 1;
    }
    false
}

/// Whether `wanted` occurs in `bytes`.
fn contains_byte(bytes: &[u8], wanted: u8) -> (found: bool)
    ensures
        found == bytes@.contains(wanted),
{
    let mut i: usize = 0;
    while i < bytes.len()
        invariant
            i <= bytes.len(),
            forall|j: int| 0 <= j < i ==> bytes@[j] != wanted,
        decreases bytes.len() - i,
    {
        if bytes[i] == wanted {
            return true;
        }
        i = i + 1;
    }
    false
}

fn banner(config: &Config) -> (text: String)
    ensures
        text@ == banner_text(config@),
{
    let mut text = String::from_str(BANNER_HEAD);
    push_decimal(&mut text, config.max_handle_name);
    text.append(BANNER_MIDDLE);
    push_decimal(&mut text, config.max_message_length);
    text.append(BANNER_TAIL);
    text
}

fn peers(names: &Vec<String>) -> (text: String)
    ensures
        text@ == peers_text(names.deep_view()),
{
    if names.len() == 0 {
        String::from_str(NO_PEERS)
    } else {
        proof {
            reveal_strlit("\n");
        }
        let mut text = String::from_str(PEERS_HEAD);
        let list = join(names, PEERS_SEPARATOR);
        text.append(list.as_str());
        text.append("\n");
        assert("\n"@ =~= seq!['\n']);
        text
    }
}

fn welcome(handle: &str) -> (text: String)
    ensures
        text@ == welcome_text(handle@),
{
    let mut text = String::from_str(WELCOME_HEAD);
    text.append(handle);
    text.append(WELCOME_TAIL);
    text
}

/// Writes a chat message as it goes out to everyone.
pub fn format_chat_line(handle: &str, text: &str, stamp: &str) -> (line: String)
    ensures
        line@ == chat_line(handle@, text@, stamp@),
{
    proof {
        reveal_strlit("> ");
        reveal_strlit(" (");
        reveal_strlit(")\n");
    }
    assert("> "@ =~= seq!['>', ' ']);
    assert(" ("@ =~= seq![' ', '(']);
    assert(")\n"@ =~= seq![')', '\n']);
    let mut line = String::from_str(handle);
    line.append("> ");
    line.append(text);
    line.append(" (");
    line.append(stamp);
    line.append(")\n");
    line
}

impl Session {
    /// The session of a connection that has just been accepted from
    /// `peer_addr`.
    pub fn new(peer_addr: String) -> (session: Session)
        ensures
            session@ == SessionView::initial(),
            session.peer() == peer_addr@,
    {
        Session {
            peer_addr,
            handle_name: String::new(),
            phase: Phase::AwaitingHandle,
            line_buf: Vec::new(),
        }
    }

    /// The address of the client, as it was given to [`Session::new`].
    pub closed spec fn peer(&self) -> Seq<char> {
        self.peer_addr@
    }

    /// The address of the client.
    pub fn peer_addr(&self) -> (addr: &str)
        ensures
            addr@ == self.peer(),
    {
        self.peer_addr.as_str()
    }

    /// The stage of the session's life.
    pub fn phase(&self) -> (phase: Phase)
        ensures
            phase == self@.phase,
    {
        self.phase
    }

    /// The handle name held; empty unless the session is active.
    pub fn handle_name(&self) -> (name: &str)
        ensures
            name@ == self@.handle,
    {
        self.handle_name.as_str()
    }

    /// The number of bytes that wait for the end of their line.
    pub fn pending_len(&self) -> (n: usize)
        ensures
            n == self@.pending.len(),
    {
        self.line_buf.len()
    }

    /// What a new session sends first: the banner with the two limits, the
    /// names claimed at this moment, and the prompt for a handle name.
    pub fn greeting(config: &Config, registry: &HandleRegistry) -> (actions: Vec<Action>)
        ensures
            actions.deep_view() == greeting(config@, registry.names()),
    {
        let names = registry.snapshot();
        let mut actions: Vec<Action> = Vec::new();
        actions.push(Action::SendRequired(banner(config)));
        actions.push(Action::Send(peers(&names)));
        actions.push(Action::SendRequired(String::from_str(PROMPT)));
        assert(actions.deep_view() =~= greeting(config@, registry.names()));
        actions
    }

    /// Ends the session and releases its handle name, if it holds one.
    fn close(&mut self, registry: &mut HandleRegistry)
        ensures
            final(self)@ == SessionView::closed(),
            final(self).peer() == old(self).peer(),
            final(registry).names() == if old(self)@.phase == Phase::Active {
                without(old(registry).names(), old(self)@.handle)
            } else {
                old(registry).names()
            },
    {
        if self.phase == Phase::Active {
            registry.release(self.handle_name.as_str());
        }
        self.handle_name = String::new();
        self.phase = Phase::Disconnected;
        self.line_buf = Vec::new();
    }

    /// Takes one line from the client. `reset` says whether the raw line
    /// held the reset byte; `decoded` is the line as text, line end included;
    /// `stamp` is the wall-clock text that a published message will show.
    pub fn on_line(
        &mut self,
        registry: &mut HandleRegistry,
        config: &Config,
        reset: bool,
        decoded: &str,
        stamp: &str,
    ) -> (actions: Vec<Action>)
        ensures
            (Outcome {
                session: final(self)@,
                registry: final(registry).names(),
                actions: actions.deep_view(),
            }) == line_step(old(self)@, old(registry).names(), config@, reset, decoded@, stamp@),
            final(self).peer() == old(self).peer(),
    {
        let text = trim(decoded);
        let mut actions: Vec<Action> = Vec::new();
        let ghost expected = line_step(
            old(self)@,
            old(registry).names(),
            config@,
            reset,
            decoded@,
            stamp@,
        );
        match self.phase {
            Phase::AwaitingHandle => {
                if text.is_empty() {
                } else if contains_control_or_space(text) {
                    actions.push(Action::Send(String::from_str(HANDLE_INVALID)));
                } else if text.as_bytes().len() > config.max_handle_name {
                    actions.push(Action::Send(String::from_str(HANDLE_TOO_LONG)));
                    self.close(registry);
                    actions.push(Action::Disconnect);
                } else if !registry.claim(text) {
                    actions.push(Action::Send(String::from_str(HANDLE_TAKEN)));
                } else {
                    self.handle_name = String::from_str(text);
                    self.phase = Phase::Active;
                    actions.push(Action::Send(welcome(text)));
                }
            },
            Phase::Active => {
                if reset {
                    registry.release(self.handle_name.as_str());
                    self.handle_name = String::new();
                    self.phase = Phase::AwaitingHandle;
                } else if !text.is_empty() {
                    let line = format_chat_line(self.handle_name.as_str(), text, stamp);
                    actions.push(Action::Publish(line));
                }
            },
            Phase::Disconnected => {},
        }
        assert(actions.deep_view() =~= expected.actions);
        actions
    }
}

impl Session {
    /// Reads the whole lines of the pending bytes, one after the other, and
    /// then what is left behind the last line end.
    fn read_lines(&mut self, registry: &mut HandleRegistry, config: &Config, stamp: &str) -> (actions:
        Vec<Action>)
        requires
            old(self)@.phase != Phase::Disconnected,
        ensures
            (Outcome {
                session: final(self)@,
                registry: final(registry).names(),
                actions: actions.deep_view(),
            }) == lines_step(
                old(self)@,
                old(registry).names(),
                config@,
                old(self)@.pending,
                stamp@,
            ),
            final(self).peer() == old(self).peer(),
    {
        let ghost buffer = self.line_buf@;
        let ghost expected = lines_step(self@, registry.names(), config@, buffer, stamp@);
        let mut actions: Vec<Action> = Vec::new();
        let mut start: usize = 0;
        assert(buffer.skip(0) == buffer);
        assert(actions.deep_view() =~= Seq::<ActionView>::empty());
        assert(Seq::<ActionView>::empty() + expected.actions =~= expected.actions);
        loop
            invariant
                expected == lines_step(
                    old(self)@,
                    old(registry).names(),
                    config@,
                    old(self)@.pending,
                    stamp@,
                ),
                self.line_buf@ == buffer,
                self.peer() == old(self).peer(),
                start <= buffer.len(),
                self@.phase != Phase::Disconnected,
                ({
                    let rest = lines_step(
                        self@,
                        registry.names(),
                        config@,
                        buffer.skip(start as int),
                        stamp@,
                    );
                    expected == Outcome { actions: actions.deep_view() + rest.actions, ..rest }
                }),
            decreases buffer.len() - start,
        {
            let ghost remaining = buffer.skip(start as int);
            let ghost done = actions.deep_view();
            let end = find_line_end(&self.line_buf, start);
            if end >= self.line_buf.len() {
                let tail = slice_subrange(self.line_buf.as_slice(), start, end);
                assert(tail@ == remaining);
                if contains_disconnect_byte(tail) {
                    self.close(registry);
                    actions.push(Action::Disconnect);
                    assert(actions.deep_view() =~= done + Seq::<ActionView>::empty().push(
                        ActionView::Disconnect,
                    ));
                    return actions;
                }
                let rest = self.line_buf.split_off(start);
                self.line_buf = rest;
                assert(self.line_buf@ == remaining);
                assert(done + Seq::<ActionView>::empty() == done);
                return actions;
            }
            let line = slice_subrange(self.line_buf.as_slice(), start, end + 1);
            assert(line@ == remaining.take(end - start + 1));
            assert(remaining.skip(end - start + 1) == buffer.skip(end + 1));
            if contains_disconnect_byte(line) {
                self.close(registry);
                actions.push(Action::Disconnect);
                assert(actions.deep_view() =~= done + Seq::<ActionView>::empty().push(
                    ActionView::Disconnect,
                ));
                return actions;
            }
            let reset = contains_byte(line, RESET_BYTE);
            let decoded = decode(line);
            let mut more = self.on_line(registry, config, reset, decoded.as_str(), stamp);
            let ghost first = more.deep_view();
            actions.append(&mut more);
            assert(actions.deep_view() =~= done + first);
            start = end + 1;
            if self.phase == Phase::Disconnected {
                return actions;
            }
            proof {
                let rest = lines_step(
                    self@,
                    registry.names(),
                    config@,
                    buffer.skip(start as int),
                    stamp@,
                );
                assert(done + (first + rest.actions) =~= (done + first) + rest.actions);
            }
        }
    }

    /// Takes bytes that the client sent. `stamp` is the wall-clock text that
    /// published messages will show.
    ///
    /// The bytes are added to what is pending. Input that fills the buffer to
    /// the message length limit is dropped whole and answered with a warning.
    /// Otherwise the whole lines are taken one after the other: a line with
    /// Ctrl-C or Ctrl-D in it ends the session, every other line is handled
    /// as [`Session::on_line`] says. Once a line has ended the session,
    /// nothing behind it is read. What follows the last line end stays
    /// pending; if it holds Ctrl-C or Ctrl-D, the session ends without
    /// waiting for the end of that line.
    pub fn on_input(
        &mut self,
        registry: &mut HandleRegistry,
        config: &Config,
        bytes: &[u8],
        stamp: &str,
    ) -> (actions: Vec<Action>)
        ensures
            (Outcome {
                session: final(self)@,
                registry: final(registry).names(),
                actions: actions.deep_view(),
            }) == input_step(old(self)@, old(registry).names(), config@, bytes@, stamp@),
            final(self).peer() == old(self).peer(),
    {
        let mut actions: Vec<Action> = Vec::new();
        assert(actions.deep_view() =~= Seq::<ActionView>::empty());
        if self.phase == Phase::Disconnected {
            return actions;
        }
        self.line_buf.extend_from_slice(bytes);
        assert(self.line_buf@ =~= old(self)@.pending + bytes@);
        if self.line_buf.len() >= config.max_message_length {
            self.line_buf = Vec::new();
            actions.push(Action::Send(String::from_str(LINE_TOO_LONG)));
            assert(actions.deep_view() =~= seq![ActionView::Send(LINE_TOO_LONG@)]);
            actions
        } else {
            self.read_lines(registry, config, stamp)
        }
    }

    /// The connection is gone: the session ends and its handle name, if it
    /// holds one, is released.
    pub fn on_connection_lost(&mut self, registry: &mut HandleRegistry) -> (actions: Vec<Action>)
        ensures
            (Outcome {
                session: final(self)@,
                registry: final(registry).names(),
                actions: actions.deep_view(),
            }) == lost_step(old(self)@, old(registry).names()),
            final(self).peer() == old(self).peer(),
    {
        let mut actions: Vec<Action> = Vec::new();
        assert(actions.deep_view() =~= Seq::<ActionView>::empty());
        if self.phase != Phase::Disconnected {
            self.close(registry);
            actions.push(Action::Disconnect);
            assert(actions.deep_view() =~= Seq::<ActionView>::empty().push(
                ActionView::Disconnect,
            ));
        }
        actions
    }

    /// A message from the broadcast bus goes to the client as it is, whoever
    /// published it. The session does not change.
    pub fn on_broadcast(&self, message: &str) -> (actions: Vec<Action>)
        ensures
            actions.deep_view() == if self@.phase == Phase::Disconnected {
                Seq::<ActionView>::empty()
            } else {
                seq![ActionView::Send(message@)]
            },
            forall|registry: Seq<Seq<char>>| #[trigger]
                broadcast_step(self@, registry, message@) == (Outcome {
                    session: self@,
                    registry,
                    actions: actions.deep_view(),
                }),
    {
        let mut actions: Vec<Action> = Vec::new();
        assert(actions.deep_view() =~= Seq::<ActionView>::empty());
        if self.phase != Phase::Disconnected {
            actions.push(Action::Send(String::from_str(message)));
            assert(actions.deep_view() =~= seq![ActionView::Send(message@)]);
        }
        actions
    }

    /// The service restarts: the client is told, the session ends and its
    /// handle name, if it holds one, is released.
    pub fn on_restart(&mut self, registry: &mut HandleRegistry) -> (actions: Vec<Action>)
        ensures
            (Outcome {
                session: final(self)@,
                registry: final(registry).names(),
                actions: actions.deep_view(),
            }) == restart_step(old(self)@, old(registry).names()),
            final(self).peer() == old(self).peer(),
    {
        let mut actions: Vec<Action> = Vec::new();
        assert(actions.deep_view() =~= Seq::<ActionView>::empty());
        if self.phase != Phase::Disconnected {
            actions.push(Action::Send(String::from_str(RESTART_NOTICE)));
            self.close(registry);
            actions.push(Action::Disconnect);
            assert(actions.deep_view() =~= seq![ActionView::Send(RESTART_NOTICE@)].push(
                ActionView::Disconnect,
            ));
        }
        actions
    }

    /// Takes one event and says what is to be done. A session that still
    /// awaits its handle name afterwards asks for it again, as the last
    /// action.
    ///
    /// Where the session and the registry were in order before, they are in
    /// order afterwards, and the names that the registry lists for others
    /// are the same.
    pub fn step(&mut self, registry: &mut HandleRegistry, config: &Config, event: &Event) -> (actions:
        Vec<Action>)
        ensures
            (Outcome {
                session: final(self)@,
                registry: final(registry).names(),
                actions: actions.deep_view(),
            }) == step(old(self)@, old(registry).names(), config@, event@),
            in_order(old(self)@, old(registry).names()) ==> framed(
                old(self)@,
                old(registry).names(),
                Outcome {
                    session: final(self)@,
                    registry: final(registry).names(),
                    actions: actions.deep_view(),
                },
            ),
            final(self).peer() == old(self).peer(),
    {
        proof {
            if in_order(self@, registry.names()) {
                lemma_step_framed(self@, registry.names(), config@, event@);
            }
        }
        let mut actions = match event {
            Event::Received { bytes, stamp } => self.on_input(
                registry,
                config,
                bytes.as_slice(),
                stamp.as_str(),
            ),
            Event::ConnectionLost => self.on_connection_lost(registry),
            Event::Broadcast(message) => self.on_broadcast(message.as_str()),
            Event::Restart => self.on_restart(registry),
        };
        if self.phase == Phase::AwaitingHandle {
            let ghost before = actions.deep_view();
            actions.push(Action::SendRequired(String::from_str(PROMPT)));
            assert(actions.deep_view() =~= before.push(ActionView::SendRequired(PROMPT@)));
        }
        actions
    }
}

} // verus!
