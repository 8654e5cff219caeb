use chat_server::session::format_chat_line;
use chat_server::{load_config, Action, Config, Event, HandleRegistry, Phase, Session};

const PROMPT: &str = "SYSTEM> ハンドルネームを入力してください\n";
const STAMP: &str = "2024/01/02 03:04";

fn received(bytes: &[u8]) -> Event {
    Event::Received { bytes: bytes.to_vec(), stamp: STAMP.to_string() }
}

fn send(text: &str) -> Action {
    Action::Send(text.to_string())
}

fn prompt() -> Action {
    Action::SendRequired(PROMPT.to_string())
}

fn publish(text: &str) -> Action {
    Action::Publish(text.to_string())
}

/// A session that has claimed `name` in `registry`.
fn active(name: &str, registry: &mut HandleRegistry, config: &Config) -> Session {
    let mut session = Session::new("10.0.0.1:5000".to_string());
    let mut line = name.as_bytes().to_vec();
    line.push(b'\n');
    let actions = session.step(registry, config, &received(&line));
    assert_eq!(actions, vec![send(&format!("SYSTEM> {}さん、ようこそ\n", name))]);
    assert_eq!(session.phase(), Phase::Active);
    session
}

#[test]
fn a_new_session_awaits_its_handle() {
    let session = Session::new("192.0.2.7:40000".to_string());
    assert_eq!(session.phase(), Phase::AwaitingHandle);
    assert_eq!(session.handle_name(), "");
    assert_eq!(session.peer_addr(), "192.0.2.7:40000");
    assert_eq!(session.pending_len(), 0);
}

#[test]
fn the_greeting_shows_the_limits_and_asks_for_a_handle() {
    let registry = HandleRegistry::new();
    let actions = Session::greeting(&Config::new(), &registry);
    let banner = "##############################################\n\
#### Welcome to Rust Simple Chat Server\n\
#### You must be set HandleName, And Enjoy!\n\
#### MaxHandleName Length : 32\n\
#### MaxMessageLength Length : 256\n\
#### CTRL-Y : Reset your HandleName.\n\
#### CTRL-D : Disconnect\n\
##############################################\n";
    assert_eq!(
        actions,
        vec![
            Action::SendRequired(banner.to_string()),
            send("現在他のクライアントはいません\n"),
            prompt(),
        ]
    );
}

#[test]
fn the_greeting_shows_other_limits() {
    let registry = HandleRegistry::new();
    let config = load_config("MaxHandleName 8\nMaxMessageLength 1000\n");
    let actions = Session::greeting(&config, &registry);
    match &actions[0] {
        Action::SendRequired(banner) => {
            assert!(banner.contains("#### MaxHandleName Length : 8\n"));
            assert!(banner.contains("#### MaxMessageLength Length : 1000\n"));
        }
        other => panic!("unexpected first action {:?}", other),
    }
}

#[test]
fn the_greeting_lists_who_is_there() {
    let mut registry = HandleRegistry::new();
    assert!(registry.claim("alice"));
    let one = Session::greeting(&Config::new(), &registry);
    assert_eq!(one[1], send("現在接続中の他クライアント: alice\n"));
    assert!(registry.claim("bob"));
    assert!(registry.claim("carol"));
    let three = Session::greeting(&Config::new(), &registry);
    assert_eq!(three.len(), 3);
    assert_eq!(three[1], send("現在接続中の他クライアント: alice, bob, carol\n"));
    assert_eq!(three[2], prompt());
}

#[test]
fn the_greeting_is_a_snapshot() {
    let mut registry = HandleRegistry::new();
    assert!(registry.claim("alice"));
    let before = Session::greeting(&Config::new(), &registry);
    registry.release("alice");
    assert_eq!(before[1], send("現在接続中の他クライアント: alice\n"));
    let after = Session::greeting(&Config::new(), &registry);
    assert_eq!(after[1], send("現在他のクライアントはいません\n"));
}

#[test]
fn a_valid_handle_is_claimed_and_welcomed() {
    let mut registry = HandleRegistry::new();
    let mut session = Session::new("peer".to_string());
    let actions = session.step(&mut registry, &Config::new(), &received(b"alice\n"));
    assert_eq!(actions, vec![send("SYSTEM> aliceさん、ようこそ\n")]);
    assert_eq!(session.phase(), Phase::Active);
    assert_eq!(session.handle_name(), "alice");
    assert!(registry.contains("alice"));
    assert_eq!(registry.snapshot(), vec!["alice".to_string()]);
}

#[test]
fn round_trip_handle_then_message() {
    let mut registry = HandleRegistry::new();
    let config = Config::new();
    let mut session = Session::new("peer".to_string());
    session.step(&mut registry, &config, &received(b"alice\n"));
    let actions = session.step(&mut registry, &config, &received(b"hi there\n"));
    assert_eq!(actions, vec![publish("alice> hi there (2024/01/02 03:04)\n")]);
}

fn is_stamped_line(line: &str, front: &str) -> bool {
    let rest = match line.strip_prefix(front) {
        Some(rest) => rest,
        None => return false,
    };
    let shape = "(dddd/dd/dd dd:dd)\n";
    rest.len() == shape.len()
        && rest.chars().zip(shape.chars()).all(|(c, s)| {
            if s == 'd' {
                c.is_ascii_digit()
            } else {
                c == s
            }
        })
}

#[test]
fn round_trip_with_the_clock() {
    let mut registry = HandleRegistry::new();
    let config = Config::new();
    let mut session = Session::new("peer".to_string());
    let now = chrono::Utc::now().timestamp();
    session.step(&mut registry, &config, &Event::from_read(Some(b"alice\n".to_vec()), now));
    assert_eq!(session.handle_name(), "alice");
    let now = chrono::Utc::now().timestamp();
    let actions =
        session.step(&mut registry, &config, &Event::from_read(Some(b"hi there\n".to_vec()), now));
    assert_eq!(actions.len(), 1);
    match &actions[0] {
        Action::Publish(line) => assert!(is_stamped_line(line, "alice> hi there "), "{:?}", line),
        other => panic!("unexpected action {:?}", other),
    }
}

#[test]
fn round_trip_at_a_given_instant() {
    let mut registry = HandleRegistry::new();
    let config = Config::new();
    let mut session = Session::new("peer".to_string());
    session.step(&mut registry, &config, &Event::received_at(b"alice\n".to_vec(), 1704135840));
    let actions =
        session.step(&mut registry, &config, &Event::received_at(b"hi there\n".to_vec(), 1704135900));
    assert_eq!(actions, vec![publish("alice> hi there (2024/01/02 04:05)\n")]);
}

#[test]
fn a_read_of_no_bytes_ends_the_session() {
    let mut registry = HandleRegistry::new();
    let config = Config::new();
    let mut session = active("alice", &mut registry, &config);
    let actions = session.step(&mut registry, &config, &Event::from_read(Some(Vec::new()), 0));
    assert_eq!(actions, vec![Action::Disconnect]);
    assert_eq!(session.phase(), Phase::Disconnected);
    assert!(registry.is_empty());
}

#[test]
fn a_failed_read_ends_the_session() {
    let mut registry = HandleRegistry::new();
    let config = Config::new();
    let mut session = active("alice", &mut registry, &config);
    let actions = session.step(&mut registry, &config, &Event::from_read(None, 0));
    assert_eq!(actions, vec![Action::Disconnect]);
    assert_eq!(session.phase(), Phase::Disconnected);
    assert!(registry.is_empty());
}

#[test]
fn a_handle_of_exactly_the_limit_is_accepted() {
    let mut registry = HandleRegistry::new();
    let config = load_config("MaxHandleName 8\n");
    let mut session = Session::new("peer".to_string());
    let actions = session.step(&mut registry, &config, &received(b"abcdefgh\n"));
    assert_eq!(actions, vec![send("SYSTEM> abcdefghさん、ようこそ\n")]);
    assert_eq!(session.phase(), Phase::Active);
    assert!(registry.contains("abcdefgh"));
}

#[test]
fn a_handle_one_byte_over_the_limit_closes_the_connection() {
    let mut registry = HandleRegistry::new();
    let config = load_config("MaxHandleName 8\n");
    let mut session = Session::new("peer".to_string());
    let actions = session.step(&mut registry, &config, &received(b"abcdefghi\n"));
    assert_eq!(actions, vec![send("SYSTEM> ハンドルネームが長すぎます\n"), Action::Disconnect]);
    assert_eq!(session.phase(), Phase::Disconnected);
    assert_eq!(session.handle_name(), "");
    assert!(registry.is_empty());
}

#[test]
fn the_handle_limit_counts_bytes_not_characters() {
    let name = "日本語";
    assert_eq!(name.len(), 9);
    let mut registry = HandleRegistry::new();
    let mut fits = Session::new("peer".to_string());
    fits.step(&mut registry, &load_config("MaxHandleName 9\n"), &received("日本語\n".as_bytes()));
    assert_eq!(fits.phase(), Phase::Active);
    assert_eq!(fits.handle_name(), "日本語");
    let mut registry = HandleRegistry::new();
    let mut too_long = Session::new("peer".to_string());
    let actions =
        too_long.step(&mut registry, &load_config("MaxHandleName 8\n"), &received("日本語\n".as_bytes()));
    assert_eq!(actions.last(), Some(&Action::Disconnect));
    assert_eq!(too_long.phase(), Phase::Disconnected);
}

#[test]
fn lines_after_a_too_long_handle_are_not_read() {
    let mut registry = HandleRegistry::new();
    let config = load_config("MaxHandleName 4\n");
    let mut session = Session::new("peer".to_string());
    let actions = session.step(&mut registry, &config, &received(b"toolong\nbob\nhello\n"));
    assert_eq!(actions, vec![send("SYSTEM> ハンドルネームが長すぎます\n"), Action::Disconnect]);
    assert!(registry.is_empty());
    assert_eq!(session.pending_len(), 0);
}

#[test]
fn a_handle_with_white_space_or_control_characters_is_refused() {
    let mut registry = HandleRegistry::new();
    let config = Config::new();
    let mut session = Session::new("peer".to_string());
    for line in [&b"al ice\n"[..], b"al\tice\n", b"al\x07ice\n", b"\x19\n", "al\u{3000}ice\n".as_bytes()] {
        let actions = session.step(&mut registry, &config, &received(line));
        assert_eq!(
            actions,
            vec![send("SYSTEM> ハンドルネームに使えない文字が含まれています\n"), prompt()]
        );
        assert_eq!(session.phase(), Phase::AwaitingHandle);
        assert!(registry.is_empty());
    }
    let actions = session.step(&mut registry, &config, &received(b"alice\n"));
    assert_eq!(actions, vec![send("SYSTEM> aliceさん、ようこそ\n")]);
}

#[test]
fn bad_characters_are_reported_before_the_length() {
    let mut registry = HandleRegistry::new();
    let config = load_config("MaxHandleName 4\n");
    let mut session = Session::new("peer".to_string());
    let actions = session.step(&mut registry, &config, &received(b"much too long\n"));
    assert_eq!(
        actions,
        vec![send("SYSTEM> ハンドルネームに使えない文字が含まれています\n"), prompt()]
    );
    assert_eq!(session.phase(), Phase::AwaitingHandle);
}

#[test]
fn a_taken_handle_is_refused_and_the_client_may_try_again() {
    let mut registry = HandleRegistry::new();
    let config = Config::new();
    let _alice = active("alice", &mut registry, &config);
    let mut second = Session::new("peer2".to_string());
    let actions = second.step(&mut registry, &config, &received(b"alice\n"));
    assert_eq!(actions, vec![send("SYSTEM> そのハンドルネームは既に使われています\n"), prompt()]);
    assert_eq!(second.phase(), Phase::AwaitingHandle);
    assert_eq!(second.handle_name(), "");
    assert_eq!(registry.snapshot(), vec!["alice".to_string()]);
    let actions = second.step(&mut registry, &config, &received(b"alice2\n"));
    assert_eq!(actions, vec![send("SYSTEM> alice2さん、ようこそ\n")]);
    assert_eq!(registry.snapshot(), vec!["alice".to_string(), "alice2".to_string()]);
}

#[test]
fn an_empty_line_while_awaiting_is_skipped() {
    let mut registry = HandleRegistry::new();
    let config = Config::new();
    let mut session = Session::new("peer".to_string());
    for line in [&b"\n"[..], b"\r\n", b"   \n", b"\r"] {
        let actions = session.step(&mut registry, &config, &received(line));
        assert_eq!(actions, vec![prompt()]);
        assert_eq!(session.phase(), Phase::AwaitingHandle);
    }
}

#[test]
fn the_handle_is_trimmed() {
    let mut registry = HandleRegistry::new();
    let mut session = Session::new("peer".to_string());
    session.step(&mut registry, &Config::new(), &received(b"  alice \r\n"));
    assert_eq!(session.handle_name(), "alice");
    assert!(registry.contains("alice"));
}

#[test]
fn a_message_is_trimmed_and_an_empty_one_is_not_published() {
    let mut registry = HandleRegistry::new();
    let config = Config::new();
    let mut session = active("alice", &mut registry, &config);
    let actions = session.step(&mut registry, &config, &received(b"   hi  there \t\r\n"));
    assert_eq!(
        actions,
        vec![publish("alice> hi  there (2024/01/02 03:04)\n")]
    );
    for line in [&b"\n"[..], b"  \n", b"\r\n"] {
        assert_eq!(session.step(&mut registry, &config, &received(line)), Vec::<Action>::new());
    }
}

#[test]
fn carriage_return_ends_a_line_too() {
    let mut registry = HandleRegistry::new();
    let config = Config::new();
    let mut session = active("alice", &mut registry, &config);
    let actions = session.step(&mut registry, &config, &received(b"one\rtwo\r\nthree\n"));
    assert_eq!(
        actions,
        vec![
            publish("alice> one (2024/01/02 03:04)\n"),
            publish("alice> two (2024/01/02 03:04)\n"),
            publish("alice> three (2024/01/02 03:04)\n"),
        ]
    );
    assert_eq!(session.pending_len(), 0);
}

#[test]
fn several_lines_in_one_read_are_handled_in_order() {
    let mut registry = HandleRegistry::new();
    let config = Config::new();
    let mut session = Session::new("peer".to_string());
    let actions = session.step(&mut registry, &config, &received(b"alice\nhello\nworld\nrest"));
    assert_eq!(
        actions,
        vec![
            send("SYSTEM> aliceさん、ようこそ\n"),
            publish("alice> hello (2024/01/02 03:04)\n"),
            publish("alice> world (2024/01/02 03:04)\n"),
        ]
    );
    assert_eq!(session.pending_len(), 4);
}

#[test]
fn a_line_may_come_in_pieces() {
    let mut registry = HandleRegistry::new();
    let config = Config::new();
    let mut session = active("alice", &mut registry, &config);
    assert_eq!(session.step(&mut registry, &config, &received(b"hel")), Vec::<Action>::new());
    assert_eq!(session.pending_len(), 3);
    assert_eq!(session.step(&mut registry, &config, &received(b"lo wor")), Vec::<Action>::new());
    assert_eq!(session.pending_len(), 9);
    let actions = session.step(&mut registry, &config, &received(b"ld\nnext"));
    assert_eq!(actions, vec![publish("alice> hello world (2024/01/02 03:04)\n")]);
    assert_eq!(session.pending_len(), 4);
}

#[test]
fn a_partial_handle_is_prompted_for_again() {
    let mut registry = HandleRegistry::new();
    let config = Config::new();
    let mut session = Session::new("peer".to_string());
    assert_eq!(session.step(&mut registry, &config, &received(b"ali")), vec![prompt()]);
    assert_eq!(
        session.step(&mut registry, &config, &received(b"ce\n")),
        vec![send("SYSTEM> aliceさん、ようこそ\n")]
    );
}

#[test]
fn input_without_line_end_up_to_the_limit_is_dropped_with_a_warning() {
    let mut registry = HandleRegistry::new();
    let config = load_config("MaxMessageLength 16\n");
    let mut session = active("alice", &mut registry, &config);
    assert_eq!(session.step(&mut registry, &config, &received(b"0123456789")), Vec::<Action>::new());
    assert_eq!(session.step(&mut registry, &config, &received(b"01234")), Vec::<Action>::new());
    assert_eq!(session.pending_len(), 15);
    let actions = session.step(&mut registry, &config, &received(b"5"));
    assert_eq!(actions, vec![send("SYSTEM> 一行が長すぎます\n")]);
    assert_eq!(session.pending_len(), 0);
    assert_eq!(session.phase(), Phase::Active);
    assert_eq!(session.handle_name(), "alice");
    let actions = session.step(&mut registry, &config, &received(b"short\n"));
    assert_eq!(actions, vec![publish("alice> short (2024/01/02 03:04)\n")]);
}

#[test]
fn input_just_under_the_limit_is_read() {
    let mut registry = HandleRegistry::new();
    let config = load_config("MaxMessageLength 16\n");
    let mut session = active("alice", &mut registry, &config);
    let actions = session.step(&mut registry, &config, &received(b"0123456789abcd\n"));
    assert_eq!(actions, vec![publish("alice> 0123456789abcd (2024/01/02 03:04)\n")]);
}

#[test]
fn input_that_reaches_the_limit_is_dropped_even_with_line_ends_in_it() {
    let mut registry = HandleRegistry::new();
    let config = load_config("MaxMessageLength 16\n");
    let mut session = active("alice", &mut registry, &config);
    let actions = session.step(&mut registry, &config, &received(b"one\ntwo\nthree\nfour\n"));
    assert_eq!(actions, vec![send("SYSTEM> 一行が長すぎます\n")]);
    assert_eq!(session.pending_len(), 0);
}

#[test]
fn a_long_line_while_awaiting_is_warned_and_prompted() {
    let mut registry = HandleRegistry::new();
    let config = load_config("MaxMessageLength 8\n");
    let mut session = Session::new("peer".to_string());
    let actions = session.step(&mut registry, &config, &received(b"12345678"));
    assert_eq!(actions, vec![send("SYSTEM> 一行が長すぎます\n"), prompt()]);
    assert_eq!(session.phase(), Phase::AwaitingHandle);
}

#[test]
fn new_settings_count_from_the_next_event() {
    let mut registry = HandleRegistry::new();
    let wide = Config::new();
    let narrow = load_config("MaxMessageLength 8\n");
    let mut session = active("alice", &mut registry, &wide);
    assert_eq!(session.step(&mut registry, &wide, &received(b"0123456789")), Vec::<Action>::new());
    let actions = session.step(&mut registry, &narrow, &received(b"\n"));
    assert_eq!(actions, vec![send("SYSTEM> 一行が長すぎます\n")]);
    assert_eq!(session.pending_len(), 0);
}

#[test]
fn ctrl_y_gives_the_handle_up_and_the_next_line_is_a_new_handle() {
    let mut registry = HandleRegistry::new();
    let config = Config::new();
    let mut session = active("bob", &mut registry, &config);
    assert!(registry.contains("bob"));
    let actions = session.step(&mut registry, &config, &received(b"\x19\n"));
    assert_eq!(actions, vec![prompt()]);
    assert_eq!(session.phase(), Phase::AwaitingHandle);
    assert_eq!(session.handle_name(), "");
    assert!(!registry.contains("bob"));
    assert!(registry.is_empty());
    let actions = session.step(&mut registry, &config, &received(b"robert\n"));
    assert_eq!(actions, vec![send("SYSTEM> robertさん、ようこそ\n")]);
    assert_eq!(session.handle_name(), "robert");
    assert_eq!(registry.snapshot(), vec!["robert".to_string()]);
}

#[test]
fn ctrl_y_anywhere_in_a_line_resets_and_publishes_nothing() {
    let mut registry = HandleRegistry::new();
    let config = Config::new();
    let mut session = active("bob", &mut registry, &config);
    let actions = session.step(&mut registry, &config, &received(b"some text\x19 more\n"));
    assert_eq!(actions, vec![prompt()]);
    assert!(registry.is_empty());
}

#[test]
fn a_handle_can_be_changed_within_one_read() {
    let mut registry = HandleRegistry::new();
    let config = Config::new();
    let mut session = active("bob", &mut registry, &config);
    let actions = session.step(&mut registry, &config, &received(b"\x19\nbob\nback\n"));
    assert_eq!(
        actions,
        vec![send("SYSTEM> bobさん、ようこそ\n"), publish("bob> back (2024/01/02 03:04)\n")]
    );
    assert_eq!(registry.snapshot(), vec!["bob".to_string()]);
}

#[test]
fn ctrl_c_and_ctrl_d_end_the_session_and_release_the_handle() {
    for bytes in [&b"\x03"[..], b"\x04", b"\x03\n", b"bye\x04\n", b"half a line\x03"] {
        let mut registry = HandleRegistry::new();
        let config = Config::new();
        let mut session = active("alice", &mut registry, &config);
        let actions = session.step(&mut registry, &config, &received(bytes));
        assert_eq!(actions, vec![Action::Disconnect]);
        assert_eq!(session.phase(), Phase::Disconnected);
        assert_eq!(session.handle_name(), "");
        assert!(!registry.contains("alice"));
    }
}

#[test]
fn lines_in_front_of_a_disconnect_byte_are_handled_first() {
    let mut registry = HandleRegistry::new();
    let config = Config::new();
    let mut session = active("bob", &mut registry, &config);
    let actions = session.step(&mut registry, &config, &received(b"hi\n\x04\n"));
    assert_eq!(actions, vec![publish("bob> hi (2024/01/02 03:04)\n"), Action::Disconnect]);
    assert_eq!(session.phase(), Phase::Disconnected);
    assert!(registry.is_empty());
}

#[test]
fn a_disconnect_byte_stops_what_comes_behind_it() {
    let mut registry = HandleRegistry::new();
    let config = Config::new();
    let mut session = active("alice", &mut registry, &config);
    let actions =
        session.step(&mut registry, &config, &received(b"last words\nand\x03more\nnever read\n"));
    assert_eq!(actions, vec![publish("alice> last words (2024/01/02 03:04)\n"), Action::Disconnect]);
    assert_eq!(session.phase(), Phase::Disconnected);
    assert_eq!(session.pending_len(), 0);
    assert!(registry.is_empty());
}

#[test]
fn a_disconnect_byte_behind_the_last_line_end_does_not_wait_for_its_line() {
    let mut registry = HandleRegistry::new();
    let config = Config::new();
    let mut session = active("alice", &mut registry, &config);
    let actions = session.step(&mut registry, &config, &received(b"one\ntwo\nthr\x04"));
    assert_eq!(
        actions,
        vec![
            publish("alice> one (2024/01/02 03:04)\n"),
            publish("alice> two (2024/01/02 03:04)\n"),
            Action::Disconnect,
        ]
    );
    assert!(registry.is_empty());
}

#[test]
fn a_handle_claimed_in_front_of_a_disconnect_byte_is_released_again() {
    let mut registry = HandleRegistry::new();
    let config = Config::new();
    let mut session = Session::new("peer".to_string());
    let actions = session.step(&mut registry, &config, &received(b"alice\nhello\n\x03\n"));
    assert_eq!(
        actions,
        vec![
            send("SYSTEM> aliceさん、ようこそ\n"),
            publish("alice> hello (2024/01/02 03:04)\n"),
            Action::Disconnect,
        ]
    );
    assert_eq!(session.phase(), Phase::Disconnected);
    assert_eq!(session.handle_name(), "");
    assert!(registry.is_empty());
}

#[test]
fn a_line_with_reset_and_disconnect_bytes_disconnects() {
    let mut registry = HandleRegistry::new();
    let config = Config::new();
    let mut session = active("alice", &mut registry, &config);
    let actions = session.step(&mut registry, &config, &received(b"\x19\x04\n"));
    assert_eq!(actions, vec![Action::Disconnect]);
    assert!(registry.is_empty());
}

#[test]
fn a_disconnect_byte_in_pending_input_counts() {
    let mut registry = HandleRegistry::new();
    let config = Config::new();
    let mut session = active("alice", &mut registry, &config);
    assert_eq!(session.step(&mut registry, &config, &received(b"abc")), Vec::<Action>::new());
    let actions = session.step(&mut registry, &config, &received(b"\x04"));
    assert_eq!(actions, vec![Action::Disconnect]);
}

#[test]
fn ctrl_c_while_awaiting_ends_the_session_without_a_prompt() {
    let mut registry = HandleRegistry::new();
    let mut session = Session::new("peer".to_string());
    let actions = session.step(&mut registry, &Config::new(), &received(b"\x03"));
    assert_eq!(actions, vec![Action::Disconnect]);
    assert_eq!(session.phase(), Phase::Disconnected);
}

#[test]
fn the_length_limit_is_checked_before_disconnect_bytes() {
    let mut registry = HandleRegistry::new();
    let config = load_config("MaxMessageLength 4\n");
    let mut session = active("al", &mut registry, &config);
    let actions = session.step(&mut registry, &config, &received(b"ab\x03\n"));
    assert_eq!(actions, vec![send("SYSTEM> 一行が長すぎます\n")]);
    assert_eq!(session.phase(), Phase::Active);
    assert!(registry.contains("al"));
}

#[test]
fn a_lost_connection_ends_the_session_and_releases_the_handle() {
    let mut registry = HandleRegistry::new();
    let config = Config::new();
    let mut session = active("alice", &mut registry, &config);
    let actions = session.step(&mut registry, &config, &Event::ConnectionLost);
    assert_eq!(actions, vec![Action::Disconnect]);
    assert_eq!(session.phase(), Phase::Disconnected);
    assert!(registry.is_empty());
}

#[test]
fn a_lost_connection_while_awaiting_touches_no_name() {
    let mut registry = HandleRegistry::new();
    assert!(registry.claim("alice"));
    let mut session = Session::new("peer".to_string());
    let actions = session.on_connection_lost(&mut registry);
    assert_eq!(actions, vec![Action::Disconnect]);
    assert_eq!(registry.snapshot(), vec!["alice".to_string()]);
}

#[test]
fn a_restart_tells_the_client_and_releases_the_handle() {
    let mut registry = HandleRegistry::new();
    let config = Config::new();
    let mut session = active("alice", &mut registry, &config);
    let actions = session.step(&mut registry, &config, &Event::Restart);
    assert_eq!(actions, vec![send("サーバーを再起動するので切断します\n"), Action::Disconnect]);
    assert_eq!(session.phase(), Phase::Disconnected);
    assert!(registry.is_empty());
}

#[test]
fn a_broadcast_goes_to_the_client_byte_for_byte() {
    let mut registry = HandleRegistry::new();
    let config = Config::new();
    let mut session = active("alice", &mut registry, &config);
    let message = "bob> こんにちは \u{fffd}\t (2024/01/02 03:04)\n";
    let actions = session.step(&mut registry, &config, &Event::Broadcast(message.to_string()));
    assert_eq!(actions, vec![send(message)]);
    match &actions[0] {
        Action::Send(text) => assert_eq!(text.as_bytes(), message.as_bytes()),
        other => panic!("unexpected action {:?}", other),
    }
    assert_eq!(session.phase(), Phase::Active);
    assert_eq!(session.handle_name(), "alice");
    assert_eq!(registry.snapshot(), vec!["alice".to_string()]);
}

#[test]
fn a_session_gets_its_own_message_back() {
    let mut registry = HandleRegistry::new();
    let config = Config::new();
    let mut session = active("alice", &mut registry, &config);
    let published = match session.step(&mut registry, &config, &received(b"hi there\n")).pop() {
        Some(Action::Publish(line)) => line,
        other => panic!("unexpected action {:?}", other),
    };
    let actions = session.step(&mut registry, &config, &Event::Broadcast(published.clone()));
    assert_eq!(actions, vec![Action::Send(published)]);
}

#[test]
fn broadcasts_arrive_in_the_order_of_delivery() {
    let mut registry = HandleRegistry::new();
    let config = Config::new();
    let mut session = active("alice", &mut registry, &config);
    let mut written: Vec<String> = Vec::new();
    let messages: Vec<String> = (0..20).map(|i| format!("bob> message {} (s)\n", i)).collect();
    for message in &messages {
        for action in session.step(&mut registry, &config, &Event::Broadcast(message.clone())) {
            match action {
                Action::Send(text) => written.push(text),
                other => panic!("unexpected action {:?}", other),
            }
        }
    }
    assert_eq!(written, messages);
}

#[test]
fn a_session_that_awaits_its_handle_hears_broadcasts_too() {
    let mut registry = HandleRegistry::new();
    let mut session = Session::new("peer".to_string());
    let actions =
        session.step(&mut registry, &Config::new(), &Event::Broadcast("bob> hi (s)\n".to_string()));
    assert_eq!(actions, vec![send("bob> hi (s)\n"), prompt()]);
    assert_eq!(session.on_broadcast("bob> hi (s)\n"), vec![send("bob> hi (s)\n")]);
}

#[test]
fn a_session_that_is_over_does_nothing() {
    let mut registry = HandleRegistry::new();
    let config = Config::new();
    let mut session = active("alice", &mut registry, &config);
    session.step(&mut registry, &config, &Event::ConnectionLost);
    assert!(registry.claim("alice"));
    for event in [
        received(b"hello\n"),
        received(b"\x03"),
        Event::Broadcast("x".to_string()),
        Event::Restart,
        Event::ConnectionLost,
    ] {
        assert_eq!(session.step(&mut registry, &config, &event), Vec::<Action>::new());
        assert_eq!(session.phase(), Phase::Disconnected);
        assert_eq!(session.pending_len(), 0);
    }
    assert_eq!(session.on_broadcast("x"), Vec::<Action>::new());
    assert_eq!(registry.snapshot(), vec!["alice".to_string()]);
}

#[test]
fn ill_formed_utf8_is_replaced_not_refused() {
    let mut registry = HandleRegistry::new();
    let config = Config::new();
    let mut session = active("alice", &mut registry, &config);
    let actions = session.step(&mut registry, &config, &received(b"hi\xff there\n"));
    assert_eq!(actions, vec![publish("alice> hi\u{fffd} there (2024/01/02 03:04)\n")]);
    let actions = session.step(&mut registry, &config, &received(b"\xe6\x97\n"));
    assert_eq!(actions, vec![publish("alice> \u{fffd} (2024/01/02 03:04)\n")]);
}

#[test]
fn well_formed_utf8_is_decoded() {
    let mut registry = HandleRegistry::new();
    let config = Config::new();
    let mut session = Session::new("peer".to_string());
    session.step(&mut registry, &config, &received("太郎\n".as_bytes()));
    assert_eq!(session.handle_name(), "太郎");
    let actions = session.step(&mut registry, &config, &received("こんにちは 🌸\n".as_bytes()));
    assert_eq!(actions, vec![publish("太郎> こんにちは 🌸 (2024/01/02 03:04)\n")]);
}

#[test]
fn control_characters_other_than_the_special_ones_pass_in_messages() {
    let mut registry = HandleRegistry::new();
    let config = Config::new();
    let mut session = active("alice", &mut registry, &config);
    let actions = session.step(&mut registry, &config, &received(b"a\x07b\x1bc\n"));
    assert_eq!(actions, vec![publish("alice> a\u{7}b\u{1b}c (2024/01/02 03:04)\n")]);
}

#[test]
fn on_line_takes_a_decoded_line() {
    let mut registry = HandleRegistry::new();
    let config = Config::new();
    let mut session = Session::new("peer".to_string());
    assert_eq!(
        session.on_line(&mut registry, &config, false, " alice\r\n", STAMP),
        vec![send("SYSTEM> aliceさん、ようこそ\n")]
    );
    assert_eq!(
        session.on_line(&mut registry, &config, false, "hello\n", "12:00"),
        vec![publish("alice> hello (12:00)\n")]
    );
    assert_eq!(session.on_line(&mut registry, &config, false, "\n", STAMP), Vec::<Action>::new());
    assert_eq!(session.on_line(&mut registry, &config, true, "hello\n", STAMP), Vec::<Action>::new());
    assert_eq!(session.phase(), Phase::AwaitingHandle);
    assert!(registry.is_empty());
}

#[test]
fn on_input_does_not_prompt_by_itself() {
    let mut registry = HandleRegistry::new();
    let config = Config::new();
    let mut session = Session::new("peer".to_string());
    assert_eq!(session.on_input(&mut registry, &config, b"\n", STAMP), Vec::<Action>::new());
    assert_eq!(
        session.on_input(&mut registry, &config, b"a b\n", STAMP),
        vec![send("SYSTEM> ハンドルネームに使えない文字が含まれています\n")]
    );
}

#[test]
fn on_restart_and_on_connection_lost_differ_in_the_notice_only() {
    let config = Config::new();
    let mut registry = HandleRegistry::new();
    let mut first = active("alice", &mut registry, &config);
    let mut second = active("bob", &mut registry, &config);
    assert_eq!(
        first.on_restart(&mut registry),
        vec![send("サーバーを再起動するので切断します\n"), Action::Disconnect]
    );
    assert_eq!(registry.snapshot(), vec!["bob".to_string()]);
    assert_eq!(second.on_connection_lost(&mut registry), vec![Action::Disconnect]);
    assert!(registry.is_empty());
}

#[test]
fn a_chat_line_has_handle_text_and_stamp() {
    assert_eq!(format_chat_line("alice", "hi there", "2024/01/02 03:04"), "alice> hi there (2024/01/02 03:04)\n");
    assert_eq!(format_chat_line("", "", ""), ">  ()\n");
}

#[test]
fn actions_and_events_can_be_copied_and_compared() {
    let action = send("x");
    assert_eq!(action.clone(), action);
    assert_ne!(action, Action::SendRequired("x".to_string()));
    assert_ne!(action, publish("x"));
    let event = received(b"abc");
    assert_eq!(event.clone(), event);
    assert_ne!(event, Event::Restart);
}
