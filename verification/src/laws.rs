//! What holds of the protocol, whatever the clients send.
//!
//! The laws speak of the functions in `protocol`, to which the executable
//! session is held. They are proved once and for all: of every session
//! state, every registry, every setting and every event.

use crate::clock::is_minute_text;
use crate::config::ConfigView;
use crate::protocol::{
    chat_line, disconnected, handle_too_long, has_disconnect_byte, input_step,
    is_disconnect_byte, line_span, line_step, lines_step, run, sent_texts, step, welcome_text, ActionView, EventView, Outcome,
    Phase, SessionView, HANDLE_TOO_LONG, LINE_TOO_LONG, PROMPT, RESET_BYTE, RESTART_NOTICE,
};
use crate::registry::{lemma_without, without};
use crate::text::{has_control_or_space, text_of, trimmed};
use vstd::prelude::*;

verus! {

/// The session and the registry agree with each other: the session holds a
/// handle name exactly while it is active, the registry lists no name twice,
/// and the session's own name is listed.
pub open spec fn in_order(session: SessionView, registry: Seq<Seq<char>>) -> bool {
    &&& session.wf()
    &&& registry.no_duplicates()
    &&& session.own().subset_of(registry.to_set())
}

/// The names that `registry` lists for somebody else than `session`.
pub open spec fn others(session: SessionView, registry: Seq<Seq<char>>) -> Set<Seq<char>> {
    registry.to_set().difference(session.own())
}

/// A step keeps order and leaves the names of others alone.
pub open spec fn framed(
    session: SessionView,
    registry: Seq<Seq<char>>,
    outcome: Outcome,
) -> bool {
    &&& in_order(outcome.session, outcome.registry)
    &&& others(outcome.session, outcome.registry) == others(session, registry)
}

proof fn lemma_claim_fresh(registry: Seq<Seq<char>>, name: Seq<char>)
    requires
        registry.no_duplicates(),
        !registry.contains(name),
    ensures
        registry.push(name).no_duplicates(),
        registry.push(name).to_set() == registry.to_set().insert(name),
{
    let after = registry.push(name);
    assert forall|i: int, j: int|
        0 <= i < after.len() && 0 <= j < after.len() && i != j implies after[i] != after[j] by {
        if i < registry.len() {
            assert(registry.contains(registry[i]));
        }
        if j < registry.len() {
            assert(registry.contains(registry[j]));
        }
    }
    registry.lemma_push_to_set_commute(name);
}

proof fn lemma_disconnected_framed(
    session: SessionView,
    registry: Seq<Seq<char>>,
    actions: Seq<ActionView>,
)
    requires
        in_order(session, registry),
    ensures
        framed(session, registry, disconnected(session, registry, actions)),
{
    let outcome = disconnected(session, registry, actions);
    if session.phase == Phase::Active {
        lemma_without(registry, session.handle);
    }
    assert(others(outcome.session, outcome.registry) =~= others(session, registry));
}

/// One line, whatever it holds, changes the registry in nothing but the
/// session's own name, and leaves session and registry in order.
pub proof fn lemma_line_step_framed(
    session: SessionView,
    registry: Seq<Seq<char>>,
    config: ConfigView,
    reset: bool,
    decoded: Seq<char>,
    stamp: Seq<char>,
)
    requires
        in_order(session, registry),
    ensures
        framed(session, registry, line_step(session, registry, config, reset, decoded, stamp)),
{
    let outcome = line_step(session, registry, config, reset, decoded, stamp);
    let text = trimmed(decoded);
    lemma_disconnected_framed(session, registry, seq![ActionView::Send(HANDLE_TOO_LONG@)]);
    lemma_without(registry, session.handle);
    if !registry.contains(text) {
        lemma_claim_fresh(registry, text);
    }
    assert(others(outcome.session, outcome.registry) =~= others(session, registry));
}

proof fn lemma_lines_step_framed(
    session: SessionView,
    registry: Seq<Seq<char>>,
    config: ConfigView,
    buffer: Seq<u8>,
    stamp: Seq<char>,
)
    requires
        in_order(session, registry),
    ensures
        framed(session, registry, lines_step(session, registry, config, buffer, stamp)),
    decreases buffer.len(),
{
    let n = line_span(buffer) as int;
    lemma_disconnected_framed(session, registry, Seq::empty());
    if n >= buffer.len() {
        let outcome = lines_step(session, registry, config, buffer, stamp);
        assert(outcome.session.own() == session.own() || outcome.session.phase
            == Phase::Disconnected);
    } else {
        let line = buffer.take(n + 1);
        let reset = line.contains(RESET_BYTE);
        lemma_line_step_framed(session, registry, config, reset, text_of(line), stamp);
        let first = if has_disconnect_byte(line) {
            disconnected(session, registry, Seq::empty())
        } else {
            line_step(session, registry, config, reset, text_of(line), stamp)
        };
        if first.session.phase != Phase::Disconnected {
            lemma_lines_step_framed(first.session, first.registry, config, buffer.skip(n + 1), stamp);
        }
    }
}

/// **Names are never shared, never leaked in, never taken away.** Whatever
/// event reaches a session that is in order with the registry, afterwards
/// the two are in order again, and the registry lists for others exactly the
/// names that it listed for them before. So a session can gain a name only
/// if nobody held it, and can lose only its own.
pub proof fn lemma_step_framed(
    session: SessionView,
    registry: Seq<Seq<char>>,
    config: ConfigView,
    event: EventView,
)
    requires
        in_order(session, registry),
    ensures
        framed(session, registry, step(session, registry, config, event)),
{
    match event {
        EventView::Received { bytes, stamp } => {
            let grown = SessionView { pending: session.pending + bytes, ..session };
            assert(grown.own() == session.own());
            lemma_lines_step_framed(grown, registry, config, grown.pending, stamp);
            let outcome = input_step(session, registry, config, bytes, stamp);
            assert(outcome.session.own() == session.own() || outcome == lines_step(
                grown,
                registry,
                config,
                grown.pending,
                stamp,
            ));
        },
        EventView::ConnectionLost => {
            lemma_disconnected_framed(session, registry, Seq::empty());
        },
        EventView::Broadcast(message) => {},
        EventView::Restart => {
            lemma_disconnected_framed(
                session,
                registry,
                seq![ActionView::Send(RESTART_NOTICE@)],
            );
        },
    }
}

/// The name is free, or it is the session's own.
spec fn free_or_own(session: SessionView, registry: Seq<Seq<char>>, name: Seq<char>) -> bool {
    !registry.contains(name) || (session.phase == Phase::Active && session.handle == name)
}

proof fn lemma_line_step_keeps_free(
    session: SessionView,
    registry: Seq<Seq<char>>,
    config: ConfigView,
    reset: bool,
    decoded: Seq<char>,
    stamp: Seq<char>,
    name: Seq<char>,
)
    requires
        registry.no_duplicates(),
        free_or_own(session, registry, name),
    ensures
        ({
            let outcome = line_step(session, registry, config, reset, decoded, stamp);
            &&& outcome.registry.no_duplicates()
            &&& free_or_own(outcome.session, outcome.registry, name)
        }),
{
    let text = trimmed(decoded);
    let outcome = line_step(session, registry, config, reset, decoded, stamp);
    lemma_without(registry, session.handle);
    if !registry.contains(text) {
        lemma_claim_fresh(registry, text);
    }
    assert(outcome.registry.contains(name) == outcome.registry.to_set().contains(name));
    assert(registry.contains(name) == registry.to_set().contains(name));
}

proof fn lemma_disconnected_keeps_free(
    session: SessionView,
    registry: Seq<Seq<char>>,
    actions: Seq<ActionView>,
    name: Seq<char>,
)
    requires
        registry.no_duplicates(),
        free_or_own(session, registry, name),
    ensures
        ({
            let outcome = disconnected(session, registry, actions);
            &&& outcome.registry.no_duplicates()
            &&& !outcome.registry.contains(name)
        }),
{
    let outcome = disconnected(session, registry, actions);
    lemma_without(registry, session.handle);
    assert(outcome.registry.contains(name) == outcome.registry.to_set().contains(name));
    assert(registry.contains(name) == registry.to_set().contains(name));
}

proof fn lemma_lines_step_keeps_free(
    session: SessionView,
    registry: Seq<Seq<char>>,
    config: ConfigView,
    buffer: Seq<u8>,
    stamp: Seq<char>,
    name: Seq<char>,
)
    requires
        registry.no_duplicates(),
        free_or_own(session, registry, name),
    ensures
        ({
            let outcome = lines_step(session, registry, config, buffer, stamp);
            &&& outcome.registry.no_duplicates()
            &&& free_or_own(outcome.session, outcome.registry, name)
        }),
    decreases buffer.len(),
{
    let n = line_span(buffer) as int;
    lemma_disconnected_keeps_free(session, registry, Seq::empty(), name);
    if n < buffer.len() {
        let line = buffer.take(n + 1);
        let reset = line.contains(RESET_BYTE);
        lemma_line_step_keeps_free(session, registry, config, reset, text_of(line), stamp, name);
        let first = if has_disconnect_byte(line) {
            disconnected(session, registry, Seq::empty())
        } else {
            line_step(session, registry, config, reset, text_of(line), stamp)
        };
        if first.session.phase != Phase::Disconnected {
            lemma_lines_step_keeps_free(
                first.session,
                first.registry,
                config,
                buffer.skip(n + 1),
                stamp,
                name,
            );
        }
    }
}

/// **A session that ends leaves no name behind.** If an active session is
/// over after an event, whatever the event and however the end came about,
/// the registry no longer lists the handle name that the session held.
pub proof fn lemma_ended_session_holds_nothing(
    session: SessionView,
    registry: Seq<Seq<char>>,
    config: ConfigView,
    event: EventView,
)
    requires
        registry.no_duplicates(),
        session.phase == Phase::Active,
        step(session, registry, config, event).session.phase == Phase::Disconnected,
    ensures
        !step(session, registry, config, event).registry.contains(session.handle),
{
    lemma_without(registry, session.handle);
    let released = without(registry, session.handle);
    assert(released.contains(session.handle) == released.to_set().contains(session.handle));
    match event {
        EventView::Received { bytes, stamp } => {
            let grown = SessionView { pending: session.pending + bytes, ..session };
            lemma_lines_step_keeps_free(
                grown,
                registry,
                config,
                grown.pending,
                stamp,
                session.handle,
            );
        },
        _ => {},
    }
}

proof fn lemma_lines_step_ends(
    session: SessionView,
    registry: Seq<Seq<char>>,
    config: ConfigView,
    buffer: Seq<u8>,
    stamp: Seq<char>,
)
    requires
        has_disconnect_byte(buffer),
    ensures
        lines_step(session, registry, config, buffer, stamp).session.phase == Phase::Disconnected,
    decreases buffer.len(),
{
    let n = line_span(buffer) as int;
    if n < buffer.len() {
        let line = buffer.take(n + 1);
        let rest = buffer.skip(n + 1);
        let first = if has_disconnect_byte(line) {
            disconnected(session, registry, Seq::empty())
        } else {
            line_step(session, registry, config, line.contains(RESET_BYTE), text_of(line), stamp)
        };
        if first.session.phase != Phase::Disconnected {
            let i = choose|i: int| 0 <= i < buffer.len() && is_disconnect_byte(#[trigger] buffer[i]);
            if i <= n {
                assert(line[i] == buffer[i]);
            }
            assert(rest[i - n - 1] == buffer[i]);
            lemma_lines_step_ends(first.session, first.registry, config, rest, stamp);
        }
    }
}

/// **Every way out ends the session.** A lost connection and a restart end
/// any session, and so does input that holds Ctrl-C or Ctrl-D, in a line or
/// behind the last line end, and stays under the message length limit.
pub proof fn lemma_endings(
    session: SessionView,
    registry: Seq<Seq<char>>,
    config: ConfigView,
    bytes: Seq<u8>,
    stamp: Seq<char>,
)
    ensures
        step(session, registry, config, EventView::ConnectionLost).session.phase
            == Phase::Disconnected,
        step(session, registry, config, EventView::Restart).session.phase == Phase::Disconnected,
        has_disconnect_byte(session.pending + bytes) && (session.pending + bytes).len()
            < config.max_message_length ==> step(
            session,
            registry,
            config,
            EventView::Received { bytes, stamp },
        ).session.phase == Phase::Disconnected,
{
    let grown = SessionView { pending: session.pending + bytes, ..session };
    if has_disconnect_byte(grown.pending) {
        lemma_lines_step_ends(grown, registry, config, grown.pending, stamp);
    }
}

/// The first whole line of `buffer`, line end included.
pub open spec fn first_line(buffer: Seq<u8>) -> Seq<u8> {
    buffer.take(line_span(buffer) as int + 1)
}

/// What follows the first whole line of `buffer`.
pub open spec fn behind_first_line(buffer: Seq<u8>) -> Seq<u8> {
    buffer.skip(line_span(buffer) as int + 1)
}

/// **A disconnect byte does not undo the lines in front of it.** Where the
/// bytes start with a whole line that holds no disconnect byte, that line is
/// handled first, as [`line_step`] says, whatever follows it: its actions
/// stand at the front of what is asked for, and unless it ends the session
/// the reading goes on behind it from the state that it left.
pub proof fn lemma_first_line_is_read(
    session: SessionView,
    registry: Seq<Seq<char>>,
    config: ConfigView,
    buffer: Seq<u8>,
    stamp: Seq<char>,
)
    requires
        line_span(buffer) < buffer.len(),
        !has_disconnect_byte(first_line(buffer)),
    ensures
        ({
            let line = first_line(buffer);
            let first = line_step(
                session,
                registry,
                config,
                line.contains(RESET_BYTE),
                text_of(line),
                stamp,
            );
            let rest = lines_step(
                first.session,
                first.registry,
                config,
                behind_first_line(buffer),
                stamp,
            );
            let all = lines_step(session, registry, config, buffer, stamp);
            &&& first.actions.is_prefix_of(all.actions)
            &&& first.session.phase == Phase::Disconnected ==> all == first
            &&& first.session.phase != Phase::Disconnected ==> all == (Outcome {
                actions: first.actions + rest.actions,
                ..rest
            })
        }),
{
    let line = first_line(buffer);
    let first = line_step(
        session,
        registry,
        config,
        line.contains(RESET_BYTE),
        text_of(line),
        stamp,
    );
    let all = lines_step(session, registry, config, buffer, stamp);
    assert(first.actions =~= all.actions.subrange(0, first.actions.len() as int));
}

/// A service at one moment: its sessions and the claimed names.
pub struct World {
    pub sessions: Seq<SessionView>,
    pub registry: Seq<Seq<char>>,
}

/// One thing that happens in a service.
pub enum Move {
    /// A connection is accepted: a fresh session joins.
    Accept,
    /// An event reaches session `who` under the settings in force.
    Event { who: int, config: ConfigView, event: EventView },
    /// Session `who`, which is over, is dropped.
    Depart { who: int },
}

impl World {
    /// A service with no client.
    pub open spec fn start() -> World {
        World { sessions: Seq::empty(), registry: Seq::empty() }
    }

    /// Whether session `i` holds the name `name`.
    pub open spec fn holds(self, i: int, name: Seq<char>) -> bool {
        0 <= i < self.sessions.len() && self.sessions[i].own().contains(name)
    }

    /// The bookkeeping is sound: each session is in order with the
    /// registry, no name is held by two sessions, and every listed name is
    /// held by a session.
    pub open spec fn consistent(self) -> bool {
        &&& self.registry.no_duplicates()
        &&& forall|i: int|
            0 <= i < self.sessions.len() ==> in_order(#[trigger] self.sessions[i], self.registry)
        &&& forall|i: int, j: int, name: Seq<char>|
            #![trigger self.holds(i, name), self.holds(j, name)]
            self.holds(i, name) && self.holds(j, name) ==> i == j
        &&& forall|name: Seq<char>| #[trigger]
            self.registry.contains(name) ==> exists|i: int| self.holds(i, name)
    }

    /// Whether every session is over.
    pub open spec fn all_over(self) -> bool {
        forall|i: int|
            0 <= i < self.sessions.len() ==> (#[trigger] self.sessions[i]).phase
                == Phase::Disconnected
    }

    /// A connection is accepted: a fresh session joins.
    pub open spec fn accept(self) -> World {
        World { sessions: self.sessions.push(SessionView::initial()), ..self }
    }

    /// An event reaches session `who`. Nothing changes where `who` names no
    /// session.
    pub open spec fn deliver(self, who: int, config: ConfigView, event: EventView) -> World {
        if 0 <= who < self.sessions.len() {
            let outcome = step(self.sessions[who], self.registry, config, event);
            World { sessions: self.sessions.update(who, outcome.session), registry: outcome.registry }
        } else {
            self
        }
    }

    /// A session that is over is dropped. Nothing changes where `who` names
    /// no session, or one that is not over.
    pub open spec fn depart(self, who: int) -> World {
        if 0 <= who < self.sessions.len() && self.sessions[who].phase == Phase::Disconnected {
            World { sessions: self.sessions.remove(who), ..self }
        } else {
            self
        }
    }

    /// The world after one move.
    pub open spec fn after(self, next: Move) -> World {
        match next {
            Move::Accept => self.accept(),
            Move::Event { who, config, event } => self.deliver(who, config, event),
            Move::Depart { who } => self.depart(who),
        }
    }

    /// The world after a run of moves, first to last.
    pub open spec fn run(self, moves: Seq<Move>) -> World
        decreases moves.len(),
    {
        if moves.len() == 0 {
            self
        } else {
            self.run(moves.drop_last()).after(moves.last())
        }
    }
}

/// Accepting a connection keeps the bookkeeping sound.
pub proof fn lemma_accept_keeps_consistency(world: World)
    requires
        world.consistent(),
    ensures
        world.accept().consistent(),
{
    let next = world.accept();
    assert forall|i: int| 0 <= i < next.sessions.len() implies in_order(
        #[trigger] next.sessions[i],
        next.registry,
    ) by {
        if i < world.sessions.len() {
            assert(next.sessions[i] == world.sessions[i]);
        }
    }
    assert forall|i: int, j: int, name: Seq<char>|
        #![trigger next.holds(i, name), next.holds(j, name)]
        next.holds(i, name) && next.holds(j, name) implies i == j by {
        assert(world.holds(i, name));
        assert(world.holds(j, name));
    }
    assert forall|name: Seq<char>| #[trigger] next.registry.contains(name) implies exists|i: int|
        next.holds(i, name) by {
        let i = choose|i: int| world.holds(i, name);
        assert(next.holds(i, name));
    }
}

/// **One event keeps the bookkeeping sound.** Whatever event reaches
/// whichever session of a consistent world, the world is consistent
/// afterwards: still no name is held twice, and still every listed name has
/// its holder.
pub proof fn lemma_event_keeps_consistency(
    world: World,
    who: int,
    config: ConfigView,
    event: EventView,
)
    requires
        world.consistent(),
    ensures
        world.deliver(who, config, event).consistent(),
{
    if 0 <= who < world.sessions.len() {
        let next = world.deliver(who, config, event);
        let before = world.sessions[who];
        let outcome = step(before, world.registry, config, event);
        lemma_step_framed(before, world.registry, config, event);
        assert(next.sessions[who] == outcome.session);
        assert forall|i: int, name: Seq<char>| i != who && world.holds(i, name) implies others(
            outcome.session,
            outcome.registry,
        ).contains(name) by {
            assert(in_order(world.sessions[i], world.registry));
            assert(!world.holds(who, name));
            assert(others(before, world.registry).contains(name));
        }
        assert forall|i: int| 0 <= i < next.sessions.len() implies in_order(
            #[trigger] next.sessions[i],
            next.registry,
        ) by {
            if i != who {
                assert(next.sessions[i] == world.sessions[i]);
                assert(in_order(world.sessions[i], world.registry));
                assert forall|name: Seq<char>|
                    next.sessions[i].own().contains(name) implies next.registry.to_set().contains(
                    name,
                ) by {
                    assert(world.holds(i, name));
                }
            }
        }
        assert forall|i: int, j: int, name: Seq<char>|
            #![trigger next.holds(i, name), next.holds(j, name)]
            next.holds(i, name) && next.holds(j, name) implies i == j by {
            if i != who {
                assert(world.holds(i, name));
            }
            if j != who {
                assert(world.holds(j, name));
            }
        }
        assert forall|name: Seq<char>| #[trigger] next.registry.contains(name) implies exists|
            i: int,
        | next.holds(i, name) by {
            if outcome.session.own().contains(name) {
                assert(next.holds(who, name));
            } else {
                assert(others(outcome.session, outcome.registry).contains(name));
                assert(others(before, world.registry).contains(name));
                assert(world.registry.contains(name));
                let i = choose|i: int| world.holds(i, name);
                assert(i != who);
                assert(next.holds(i, name));
            }
        }
    }
}

/// A session that is over can be dropped without harm to the bookkeeping.
pub proof fn lemma_depart_keeps_consistency(world: World, who: int)
    requires
        world.consistent(),
    ensures
        world.depart(who).consistent(),
{
    let next = world.depart(who);
    if next != world {
        let shift = |i: int|
            if i < who {
                i
            } else {
                i + 1
            };
        assert forall|i: int| 0 <= i < next.sessions.len() implies next.sessions[i]
            == world.sessions[shift(i)] by {}
        assert forall|i: int| 0 <= i < next.sessions.len() implies in_order(
            #[trigger] next.sessions[i],
            next.registry,
        ) by {
            assert(in_order(world.sessions[shift(i)], world.registry));
        }
        assert forall|i: int, j: int, name: Seq<char>|
            #![trigger next.holds(i, name), next.holds(j, name)]
            next.holds(i, name) && next.holds(j, name) implies i == j by {
            assert(world.holds(shift(i), name));
            assert(world.holds(shift(j), name));
        }
        assert forall|name: Seq<char>| #[trigger] next.registry.contains(name) implies exists|
            i: int,
        | next.holds(i, name) by {
            let i = choose|i: int| world.holds(i, name);
            assert(i != who);
            if i < who {
                assert(next.holds(i, name));
            } else {
                assert(next.sessions[i - 1] == world.sessions[shift(i - 1)]);
                assert(next.holds(i - 1, name));
            }
        }
    }
}

/// **No run of moves breaks the bookkeeping.** However connections,
/// claims, releases and disconnects of any number of sessions follow one
/// another, a service that is consistent stays consistent.
pub proof fn lemma_run_keeps_consistency(world: World, moves: Seq<Move>)
    requires
        world.consistent(),
    ensures
        world.run(moves).consistent(),
    decreases moves.len(),
{
    if moves.len() > 0 {
        lemma_run_keeps_consistency(world, moves.drop_last());
        let before = world.run(moves.drop_last());
        match moves.last() {
            Move::Accept => lemma_accept_keeps_consistency(before),
            Move::Event { who, config, event } => lemma_event_keeps_consistency(
                before,
                who,
                config,
                event,
            ),
            Move::Depart { who } => lemma_depart_keeps_consistency(before, who),
        }
    }
}

/// **A name never has two holders.** In every world that a service can
/// reach from its start, by whatever run of moves, no two sessions hold the
/// same handle name, the registry lists no name twice, every active session
/// finds its own name listed, and no name is listed that no session holds.
pub proof fn lemma_reachable_is_consistent(moves: Seq<Move>)
    ensures
        World::start().run(moves).consistent(),
{
    lemma_run_keeps_consistency(World::start(), moves);
}

/// **When everybody is gone, no name is left.** In a consistent world whose
/// sessions are all over, as after a restart has reached each of them, the
/// registry is empty.
pub proof fn lemma_all_over_empties_registry(world: World)
    requires
        world.consistent(),
        world.all_over(),
    ensures
        world.registry.len() == 0,
{
    if world.registry.len() > 0 {
        let name = world.registry[0];
        assert(world.registry.contains(name));
        let i = choose|i: int| world.holds(i, name);
        assert(world.sessions[i].phase == Phase::Disconnected);
    }
}

/// The bus messages of `messages`, as events.
pub open spec fn broadcasts(messages: Seq<Seq<char>>) -> Seq<EventView> {
    Seq::new(messages.len(), |i: int| EventView::Broadcast(messages[i]))
}

proof fn lemma_sent_texts_of_one(session: SessionView, registry: Seq<Seq<char>>, config: ConfigView, message: Seq<char>)
    requires
        session.phase != Phase::Disconnected,
    ensures
        sent_texts(step(session, registry, config, EventView::Broadcast(message)).actions)
            == seq![message],
{
    let actions = step(session, registry, config, EventView::Broadcast(message)).actions;
    let one = seq![ActionView::Send(message)];
    assert(sent_texts(one.drop_last()) == Seq::<Seq<char>>::empty());
    assert(sent_texts(one) =~= seq![message]);
    if session.phase == Phase::AwaitingHandle {
        assert(actions == one.push(ActionView::SendRequired(PROMPT@)));
        assert(actions.drop_last() == one);
    } else {
        assert(actions == one);
    }
}

proof fn lemma_sent_texts_add(a: Seq<ActionView>, b: Seq<ActionView>)
    ensures
        sent_texts(a + b) == sent_texts(a) + sent_texts(b),
    decreases b.len(),
{
    if b.len() == 0 {
        assert(a + b == a);
        assert(sent_texts(a) + sent_texts(b) == sent_texts(a));
    } else {
        lemma_sent_texts_add(a, b.drop_last());
        assert((a + b).drop_last() == a + b.drop_last());
        assert((a + b).last() == b.last());
        match b.last() {
            ActionView::Send(text) => {
                assert((sent_texts(a) + sent_texts(b.drop_last())).push(text) == sent_texts(a)
                    + sent_texts(b.drop_last()).push(text));
            },
            _ => {},
        }
    }
}

/// **What the bus delivers reaches the client, whole and in order.** A live
/// session that is handed the messages of the bus one after the other
/// writes exactly these messages to its client, each unchanged and in the
/// order of delivery, its own among them; neither the session nor the
/// registry changes.
pub proof fn lemma_broadcasts_pass_through(
    session: SessionView,
    registry: Seq<Seq<char>>,
    config: ConfigView,
    messages: Seq<Seq<char>>,
)
    requires
        session.phase != Phase::Disconnected,
    ensures
        run(session, registry, config, broadcasts(messages)).session == session,
        run(session, registry, config, broadcasts(messages)).registry == registry,
        sent_texts(run(session, registry, config, broadcasts(messages)).actions) == messages,
    decreases messages.len(),
{
    let events = broadcasts(messages);
    if messages.len() == 0 {
        assert(sent_texts(Seq::<ActionView>::empty()) =~= messages);
    } else {
        let shorter = messages.drop_last();
        lemma_broadcasts_pass_through(session, registry, config, shorter);
        assert(events.drop_last() =~= broadcasts(shorter));
        assert(events.last() == EventView::Broadcast(messages.last()));
        let before = run(session, registry, config, broadcasts(shorter));
        let last = step(session, registry, config, EventView::Broadcast(messages.last()));
        lemma_sent_texts_of_one(session, registry, config, messages.last());
        lemma_sent_texts_add(before.actions, last.actions);
        assert(shorter + seq![messages.last()] =~= messages);
    }
}

/// **The handle name limit is exact.** Of a name that is otherwise
/// acceptable and free, the length alone decides: with no more bytes than
/// the limit it is claimed and the session becomes active; with one byte
/// more the session ends and the registry stays as it was.
pub proof fn lemma_handle_length_decides(
    session: SessionView,
    registry: Seq<Seq<char>>,
    config: ConfigView,
    reset: bool,
    decoded: Seq<char>,
    stamp: Seq<char>,
)
    requires
        session.phase == Phase::AwaitingHandle,
        trimmed(decoded).len() > 0,
        !has_control_or_space(trimmed(decoded)),
        !registry.contains(trimmed(decoded)),
    ensures
        ({
            let name = trimmed(decoded);
            let outcome = line_step(session, registry, config, reset, decoded, stamp);
            if handle_too_long(name, config) {
                &&& outcome.session.phase == Phase::Disconnected
                &&& outcome.registry == registry
                &&& outcome.actions.last() == ActionView::Disconnect
            } else {
                &&& outcome.session.phase == Phase::Active
                &&& outcome.session.handle == name
                &&& outcome.registry == registry.push(name)
                &&& outcome.actions == seq![ActionView::Send(welcome_text(name))]
            }
        }),
{
}

/// **Input that fills the buffer is dropped, and nothing else happens.**
/// When the pending bytes and the new ones together reach the message length
/// limit, a live session answers with the warning alone, forgets all of
/// them, and is otherwise as before: the next line is read as if the long
/// input had never come.
pub proof fn lemma_long_input_dropped(
    session: SessionView,
    registry: Seq<Seq<char>>,
    config: ConfigView,
    bytes: Seq<u8>,
    stamp: Seq<char>,
)
    requires
        session.phase != Phase::Disconnected,
        (session.pending + bytes).len() >= config.max_message_length,
    ensures
        input_step(session, registry, config, bytes, stamp) == (Outcome {
            session: SessionView { pending: Seq::empty(), ..session },
            registry,
            actions: seq![ActionView::Send(LINE_TOO_LONG@)],
        }),
{
}

/// **A published line has its fixed pattern.** With a stamp of the shape
/// `YYYY/MM/DD HH:MM`, a chat line is the handle name, `> `, the text, a
/// space, and the stamp in round brackets, closed by a line feed, and
/// nothing else.
pub proof fn lemma_chat_line_pattern(handle: Seq<char>, text: Seq<char>, stamp: Seq<char>)
    requires
        is_minute_text(stamp),
    ensures
        ({
            let line = chat_line(handle, text, stamp);
            let h = handle.len() as int;
            let t = text.len() as int;
            &&& line.len() == h + t + 22
            &&& line.subrange(0, h) == handle
            &&& line[h] == '>'
            &&& line[h + 1] == ' '
            &&& line.subrange(h + 2, h + 2 + t) == text
            &&& line[h + 2 + t] == ' '
            &&& line[h + 3 + t] == '('
            &&& line.subrange(h + 4 + t, h + 20 + t) == stamp
            &&& line[h + 20 + t] == ')'
            &&& line[h + 21 + t] == '\n'
        }),
{
    let line = chat_line(handle, text, stamp);
    let h = handle.len() as int;
    let t = text.len() as int;
    assert(line.subrange(0, h) =~= handle);
    assert(line.subrange(h + 2, h + 2 + t) =~= text);
    assert(line.subrange(h + 4 + t, h + 20 + t) =~= stamp);
}

} // verus!
