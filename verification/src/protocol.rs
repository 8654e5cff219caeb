//! The session protocol as mathematics: what a session is, what can happen
//! to it, and what it does in answer.
//!
//! A session starts by awaiting a handle name. A valid, free name makes it
//! active; from then on each line the client sends is published to everyone.
//! The executable session in `session` is held to the functions defined
//! here, and the laws in `laws` are proved about them.

use crate::config::ConfigView;
use crate::registry::without;
use crate::text::{decimal_text, has_control_or_space, joined, text_of, trimmed};
use vstd::prelude::*;
use vstd::utf8::encode_utf8;

verus! {

/// Opens the welcome banner, up to the handle name limit.
pub const BANNER_HEAD: &'static str =
    "##############################################\n#### Welcome to Rust Simple Chat Server\n#### You must be set HandleName, And Enjoy!\n#### MaxHandleName Length : ";

/// Stands in the welcome banner between the two limits.
pub const BANNER_MIDDLE: &'static str = "\n#### MaxMessageLength Length : ";

/// Closes the welcome banner, behind the message length limit.
pub const BANNER_TAIL: &'static str =
    "\n#### CTRL-Y : Reset your HandleName.\n#### CTRL-D : Disconnect\n##############################################\n";

/// Sent in place of the list of peers where nobody holds a handle.
pub const NO_PEERS: &'static str = "現在他のクライアントはいません\n";

/// Opens the list of peers.
pub const PEERS_HEAD: &'static str = "現在接続中の他クライアント: ";

/// Stands between two names in the list of peers.
pub const PEERS_SEPARATOR: &'static str = ", ";

/// Asks the client for a handle name.
pub const PROMPT: &'static str = "SYSTEM> ハンドルネームを入力してください\n";

/// Answers a handle name that holds white space or a control character.
pub const HANDLE_INVALID: &'static str = "SYSTEM> ハンドルネームに使えない文字が含まれています\n";

/// Answers a handle name that is longer than the limit.
pub const HANDLE_TOO_LONG: &'static str = "SYSTEM> ハンドルネームが長すぎます\n";

/// Answers a handle name that another session holds.
pub const HANDLE_TAKEN: &'static str = "SYSTEM> そのハンドルネームは既に使われています\n";

/// Opens the line that greets a client by its new handle name.
pub const WELCOME_HEAD: &'static str = "SYSTEM> ";

/// Closes the line that greets a client by its new handle name.
pub const WELCOME_TAIL: &'static str = "さん、ようこそ\n";

/// Answers input that filled the line buffer.
pub const LINE_TOO_LONG: &'static str = "SYSTEM> 一行が長すぎます\n";

/// Tells the client that the service restarts and the connection ends.
pub const RESTART_NOTICE: &'static str = "サーバーを再起動するので切断します\n";

/// Ctrl-Y: in a line of an active session, gives the handle name up.
pub const RESET_BYTE: u8 = 0x19;

/// The stage of a session's life.
#[derive(Clone, Copy, Debug, PartialEq, Eq, Structural)]
pub enum Phase {
    /// The client has no handle name yet; its lines are name attempts.
    AwaitingHandle,
    /// The client holds a handle name; its lines are chat messages.
    Active,
    /// The session is over.
    Disconnected,
}

/// The state of one session.
pub struct SessionView {
    pub phase: Phase,
    /// The handle name held; empty unless the session is active.
    pub handle: Seq<char>,
    /// Bytes received that do not yet make a whole line.
    pub pending: Seq<u8>,
}

/// What a session asks its driver to do.
pub enum ActionView {
    /// Write the text to the client; if that fails, the connection is lost.
    SendRequired(Seq<char>),
    /// Write the text to the client, ignoring failure.
    Send(Seq<char>),
    /// Hand the text to the broadcast bus.
    Publish(Seq<char>),
    /// Close the connection and end the session.
    Disconnect,
}

/// What can happen to a session.
pub enum EventView {
    /// The client sent `bytes`; `stamp` is the wall-clock text of the moment.
    Received { bytes: Seq<u8>, stamp: Seq<char> },
    /// The client closed the connection, or reading or a required write
    /// failed.
    ConnectionLost,
    /// The broadcast bus delivered a message.
    Broadcast(Seq<char>),
    /// The service restarts.
    Restart,
}

/// The result of one step: the session and the claimed names afterwards, and
/// the actions to carry out, in order.
pub struct Outcome {
    pub session: SessionView,
    pub registry: Seq<Seq<char>>,
    pub actions: Seq<ActionView>,
}

impl SessionView {
    /// A session that has just been accepted.
    pub open spec fn initial() -> SessionView {
        SessionView { phase: Phase::AwaitingHandle, handle: Seq::empty(), pending: Seq::empty() }
    }

    /// A session that is over.
    pub open spec fn closed() -> SessionView {
        SessionView { phase: Phase::Disconnected, handle: Seq::empty(), pending: Seq::empty() }
    }

    /// A handle name is held exactly while the session is active, and it
    /// holds neither white space nor a control character.
    pub open spec fn wf(self) -> bool {
        &&& (self.phase == Phase::Active) == (self.handle.len() > 0)
        &&& !has_control_or_space(self.handle)
    }

    /// The names that this session holds: its handle name while it is
    /// active, none otherwise.
    pub open spec fn own(self) -> Set<Seq<char>> {
        if self.phase == Phase::Active {
            set![self.handle]
        } else {
            Set::empty()
        }
    }
}

/// The welcome banner for the given limits.
pub open spec fn banner_text(config: ConfigView) -> Seq<char> {
    BANNER_HEAD@ + decimal_text(config.max_handle_name) + BANNER_MIDDLE@ + decimal_text(
        config.max_message_length,
    ) + BANNER_TAIL@
}

/// The line that tells a new client who is there.
pub open spec fn peers_text(names: Seq<Seq<char>>) -> Seq<char> {
    if names.len() == 0 {
        NO_PEERS@
    } else {
        PEERS_HEAD@ + joined(names, PEERS_SEPARATOR@) + seq!['\n']
    }
}

/// The line that greets a client by its new handle name.
pub open spec fn welcome_text(handle: Seq<char>) -> Seq<char> {
    WELCOME_HEAD@ + handle + WELCOME_TAIL@
}

/// A chat message as it goes out to everyone:
/// `<handle>> <text> (<stamp>)` and a line feed.
pub open spec fn chat_line(handle: Seq<char>, text: Seq<char>, stamp: Seq<char>) -> Seq<char> {
    handle + seq!['>', ' '] + text + seq![' ', '('] + stamp + seq![')', '\n']
}

/// What a new session sends first: the banner, the peers, the prompt.
pub open spec fn greeting(config: ConfigView, names: Seq<Seq<char>>) -> Seq<ActionView> {
    seq![
        ActionView::SendRequired(banner_text(config)),
        ActionView::Send(peers_text(names)),
        ActionView::SendRequired(PROMPT@),
    ]
}

/// Line feed and carriage return each end a line.
pub open spec fn is_line_end(b: u8) -> bool {
    b == 0x0a || b == 0x0d
}

/// Ctrl-C and Ctrl-D ask for the connection to end.
pub open spec fn is_disconnect_byte(b: u8) -> bool {
    b == 0x03 || b == 0x04
}

/// Whether `bytes` holds a byte that asks for the connection to end.
pub open spec fn has_disconnect_byte(bytes: Seq<u8>) -> bool {
    exists|i: int| 0 <= i < bytes.len() && is_disconnect_byte(#[trigger] bytes[i])
}

/// The number of bytes in front of the first line end of `bytes`, or
/// of all of `bytes` where it holds none.
pub open spec fn line_span(bytes: Seq<u8>) -> nat
    decreases bytes.len(),
{
    if bytes.len() == 0 || is_line_end(bytes[0]) {
        0
    } else {
        1 + line_span(bytes.drop_first())
    }
}

/// A handle name is too long when its UTF-8 form has more bytes than the
/// limit.
pub open spec fn handle_too_long(name: Seq<char>, config: ConfigView) -> bool {
    encode_utf8(name).len() > config.max_handle_name
}

/// The session ends: its handle name, if it holds one, is released.
pub open spec fn disconnected(
    session: SessionView,
    registry: Seq<Seq<char>>,
    actions: Seq<ActionView>,
) -> Outcome {
    Outcome {
        session: SessionView::closed(),
        registry: if session.phase == Phase::Active {
            without(registry, session.handle)
        } else {
            registry
        },
        actions: actions.push(ActionView::Disconnect),
    }
}

/// Nothing changes and nothing is to be done.
pub open spec fn unchanged(session: SessionView, registry: Seq<Seq<char>>) -> Outcome {
    Outcome { session, registry, actions: Seq::empty() }
}

/// One line from the client. `reset` says whether the raw line held the
/// reset byte, `decoded` is the line as text, line end included.
///
/// While a handle is awaited, an empty line is skipped; a name with white
/// space or a control character in it, or one that is taken, is refused and
/// the client may try again; a name that is too long ends the session; any
/// other name is claimed and makes the session active. In an active session
/// a line with the reset byte gives the handle name up, and any other line
/// that is not empty is published.
pub open spec fn line_step(
    session: SessionView,
    registry: Seq<Seq<char>>,
    config: ConfigView,
    reset: bool,
    decoded: Seq<char>,
    stamp: Seq<char>,
) -> Outcome {
    let text = trimmed(decoded);
    match session.phase {
        Phase::AwaitingHandle => {
            if text.len() == 0 {
                unchanged(session, registry)
            } else if has_control_or_space(text) {
                Outcome { session, registry, actions: seq![ActionView::Send(HANDLE_INVALID@)] }
            } else if handle_too_long(text, config) {
                disconnected(session, registry, seq![ActionView::Send(HANDLE_TOO_LONG@)])
            } else if registry.contains(text) {
                Outcome { session, registry, actions: seq![ActionView::Send(HANDLE_TAKEN@)] }
            } else {
                Outcome {
                    session: SessionView { phase: Phase::Active, handle: text, ..session },
                    registry: registry.push(text),
                    actions: seq![ActionView::Send(welcome_text(text))],
                }
            }
        },
        Phase::Active => {
            if reset {
                Outcome {
                    session: SessionView {
                        phase: Phase::AwaitingHandle,
                        handle: Seq::empty(),
                        ..session
                    },
                    registry: without(registry, session.handle),
                    actions: Seq::empty(),
                }
            } else if text.len() > 0 {
                Outcome {
                    session,
                    registry,
                    actions: seq![ActionView::Publish(chat_line(session.handle, text, stamp))],
                }
            } else {
                unchanged(session, registry)
            }
        },
        Phase::Disconnected => unchanged(session, registry),
    }
}

/// The whole lines of `buffer`, one after the other, and then what is left
/// behind the last line end.
///
/// A line that holds a disconnect byte ends the session, and so does one
/// that [`line_step`] ends; the lines in front of it have been handled by
/// then, and nothing behind it is read. Any other line is handled as
/// [`line_step`] says. What is left behind the last line end stays pending,
/// unless it holds a disconnect byte: then the session ends as well.
pub open spec fn lines_step(
    session: SessionView,
    registry: Seq<Seq<char>>,
    config: ConfigView,
    buffer: Seq<u8>,
    stamp: Seq<char>,
) -> Outcome
    decreases buffer.len(),
{
    let n = line_span(buffer) as int;
    if n >= buffer.len() {
        if has_disconnect_byte(buffer) {
            disconnected(session, registry, Seq::empty())
        } else {
            Outcome {
                session: SessionView { pending: buffer, ..session },
                registry,
                actions: Seq::empty(),
            }
        }
    } else {
        let line = buffer.take(n + 1);
        let first = if has_disconnect_byte(line) {
            disconnected(session, registry, Seq::empty())
        } else {
            line_step(session, registry, config, line.contains(RESET_BYTE), text_of(line), stamp)
        };
        if first.session.phase == Phase::Disconnected {
            first
        } else {
            let rest = lines_step(first.session, first.registry, config, buffer.skip(n + 1), stamp);
            Outcome { actions: first.actions + rest.actions, ..rest }
        }
    }
}

/// Bytes from the client. They are added to what is pending. If that fills
/// the buffer to the message length limit, all of it is dropped and the
/// client is told; otherwise it is read as [`lines_step`] says.
pub open spec fn input_step(
    session: SessionView,
    registry: Seq<Seq<char>>,
    config: ConfigView,
    bytes: Seq<u8>,
    stamp: Seq<char>,
) -> Outcome {
    let grown = SessionView { pending: session.pending + bytes, ..session };
    if session.phase == Phase::Disconnected {
        unchanged(session, registry)
    } else if grown.pending.len() >= config.max_message_length {
        Outcome {
            session: SessionView { pending: Seq::empty(), ..session },
            registry,
            actions: seq![ActionView::Send(LINE_TOO_LONG@)],
        }
    } else {
        lines_step(grown, registry, config, grown.pending, stamp)
    }
}

/// The connection is gone: the session ends.
pub open spec fn lost_step(session: SessionView, registry: Seq<Seq<char>>) -> Outcome {
    if session.phase == Phase::Disconnected {
        unchanged(session, registry)
    } else {
        disconnected(session, registry, Seq::empty())
    }
}

/// A message from the bus goes to the client as it is, whoever sent it.
pub open spec fn broadcast_step(
    session: SessionView,
    registry: Seq<Seq<char>>,
    message: Seq<char>,
) -> Outcome {
    if session.phase == Phase::Disconnected {
        unchanged(session, registry)
    } else {
        Outcome { session, registry, actions: seq![ActionView::Send(message)] }
    }
}

/// The service restarts: the client is told and the session ends.
pub open spec fn restart_step(session: SessionView, registry: Seq<Seq<char>>) -> Outcome {
    if session.phase == Phase::Disconnected {
        unchanged(session, registry)
    } else {
        disconnected(session, registry, seq![ActionView::Send(RESTART_NOTICE@)])
    }
}

/// A session that still awaits its handle name asks for it after every
/// event.
pub open spec fn with_prompt(outcome: Outcome) -> Outcome {
    if outcome.session.phase == Phase::AwaitingHandle {
        Outcome { actions: outcome.actions.push(ActionView::SendRequired(PROMPT@)), ..outcome }
    } else {
        outcome
    }
}

/// The texts of the best-effort writes among `actions`, in order.
pub open spec fn sent_texts(actions: Seq<ActionView>) -> Seq<Seq<char>>
    decreases actions.len(),
{
    if actions.len() == 0 {
        Seq::empty()
    } else {
        let before = sent_texts(actions.drop_last());
        match actions.last() {
            ActionView::Send(text) => before.push(text),
            _ => before,
        }
    }
}

/// One event, whatever it is.
pub open spec fn step(
    session: SessionView,
    registry: Seq<Seq<char>>,
    config: ConfigView,
    event: EventView,
) -> Outcome {
    with_prompt(
        match event {
            EventView::Received { bytes, stamp } => input_step(
                session,
                registry,
                config,
                bytes,
                stamp,
            ),
            EventView::ConnectionLost => lost_step(session, registry),
            EventView::Broadcast(message) => broadcast_step(session, registry, message),
            EventView::Restart => restart_step(session, registry),
        },
    )
}

/// A run of events, first to last: the session and the registry at the end,
/// and all the actions asked for on the way.
pub open spec fn run(
    session: SessionView,
    registry: Seq<Seq<char>>,
    config: ConfigView,
    events: Seq<EventView>,
) -> Outcome
    decreases events.len(),
{
    if events.len() == 0 {
        unchanged(session, registry)
    } else {
        let before = run(session, registry, config, events.drop_last());
        let last = step(before.session, before.registry, config, events.last());
        Outcome { actions: before.actions + last.actions, ..last }
    }
}

} // verus!
