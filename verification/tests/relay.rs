use room_relay::bytes_eq;
use room_relay::ids::IdCounter;
use room_relay::logfile::LogFile;
use room_relay::logger::Logger;
use room_relay::registry::RoomRegistry;
use room_relay::room::Room;
use room_relay::session::session_step;
use room_relay::session::user_message;
use room_relay::session::InboundFrame;
use room_relay::session::SessionAction;
use room_relay::session::SessionEvent;
use room_relay::session::SessionState;
use room_relay::text::format_line;
use room_relay::text::log_line;
use room_relay::text::log_path;
use room_relay::text::terminated;
use room_relay::text::u64_to_dec;

#[test]
fn test_default_logger() {
    let logger: Logger<u32> = Logger::new();
    assert_eq!(0, logger.len());
}

#[test]
fn test_logger_one_room() {
    let mut logger: Logger<u32> = Logger::new();
    let room = b"test".to_vec();
    if logger.get_log_writer(&room).is_none() {
        logger.register_log_writer(&room, 7);
    }
    match logger.get_log_writer(&room) {
        Some(_) => {
            assert_eq!(1, logger.len());
        }
        None => {
            assert!(false, "Failed to create a LogWriterHandle");
        }
    }
}

#[test]
fn test_log_writer_handle_log_message() {
    // The file behind a writer, as the single log writer appends to it.
    let mut logger: Logger<u32> = Logger::new();
    let room = b"test".to_vec();
    if logger.get_log_writer(&room).is_none() {
        logger.register_log_writer(&room, 7);
    }
    assert!(
        logger.get_log_writer(&room).is_some(),
        "failed to log message using LogWriterHandle"
    );
    assert_eq!(b"logs/test.log".to_vec(), log_path(&room));
    let mut file = LogFile::new();
    file.append_line(&b"test message\n".to_vec());
    assert_eq!(&b"test message\n".to_vec(), file.bytes());
    assert_eq!(1, file.count_lines());
}

#[test]
fn fresh_ids_are_distinct_and_increasing() {
    let mut counter = IdCounter::new();
    let a = counter.fresh_id();
    let b = counter.fresh_id();
    let c = counter.fresh_id();
    assert_eq!(1, a);
    assert_eq!(2, b);
    assert_eq!(3, c);
    assert!(a < b && b < c);
    assert_eq!(4, counter.peek_next_id());
}

#[test]
fn decimal_rendering() {
    assert_eq!(b"0".to_vec(), u64_to_dec(0));
    assert_eq!(b"7".to_vec(), u64_to_dec(7));
    assert_eq!(b"10".to_vec(), u64_to_dec(10));
    assert_eq!(b"1234567890".to_vec(), u64_to_dec(1234567890));
    assert_eq!(b"18446744073709551615".to_vec(), u64_to_dec(u64::MAX));
}

#[test]
fn display_line_formatting() {
    assert_eq!(b"<User#42>: hello".to_vec(), format_line(42, &b"hello".to_vec()));
    assert_eq!(b"<User#7>: ".to_vec(), format_line(7, &b"".to_vec()));
    assert_eq!(b"<User#42>: hello\n".to_vec(), log_line(42, &b"hello".to_vec()));
    assert_eq!(
        terminated(&format_line(42, &b"hello".to_vec())),
        log_line(42, &b"hello".to_vec())
    );
    assert_eq!(b"logs/lobby.log".to_vec(), log_path(&b"lobby".to_vec()));
}

#[test]
fn byte_string_equality() {
    assert!(bytes_eq(&b"lobby".to_vec(), &b"lobby".to_vec()));
    assert!(!bytes_eq(&b"lobby".to_vec(), &b"lobbyx".to_vec()));
    assert!(!bytes_eq(&b"lobby".to_vec(), &b"lobbz".to_vec()));
    assert!(bytes_eq(&b"".to_vec(), &b"".to_vec()));
}

#[test]
fn fanout_reaches_each_peer_once_and_never_the_sender() {
    let mut room: Room<u32> = Room::new();
    room.join(1, 100);
    room.join(2, 200);
    room.join(3, 300);
    let r = room.recipients(1);
    assert_eq!(2, r.len());
    assert_eq!(1, r.iter().filter(|&&id| id == 2).count());
    assert_eq!(1, r.iter().filter(|&&id| id == 3).count());
    assert!(!r.contains(&1));
}

#[test]
fn departed_client_is_no_longer_a_recipient() {
    let mut room: Room<u32> = Room::new();
    room.join(1, 100);
    room.join(2, 200);
    room.join(3, 300);
    room.leave(3);
    let r = room.recipients(1);
    assert_eq!(vec![2], r);
    assert!(!r.contains(&3));
    assert!(room.get(3).is_none());
    assert_eq!(2, room.member_count());
    // leaving again, or an id never present, is tolerated
    room.leave(3);
    room.leave(99);
    assert_eq!(2, room.member_count());
}

#[test]
fn rejoining_replaces_the_handle() {
    let mut room: Room<u32> = Room::new();
    room.join(5, 100);
    room.join(5, 200);
    assert_eq!(1, room.member_count());
    assert_eq!(Some(&200), room.get(5));
}

#[test]
fn messages_never_cross_rooms() {
    let mut reg: RoomRegistry<u32> = RoomRegistry::new();
    let x = b"alpha".to_vec();
    let y = b"beta".to_vec();
    reg.join(&x, 1, 100);
    reg.join(&x, 2, 200);
    reg.join(&y, 3, 300);
    let rx = reg.recipients(&x, 1);
    assert_eq!(vec![2], rx);
    assert!(!rx.contains(&3));
    let ry = reg.recipients(&y, 3);
    assert!(ry.is_empty());
    assert_eq!(2, reg.len());
}

#[test]
fn unknown_room_has_no_recipients() {
    let reg: RoomRegistry<u32> = RoomRegistry::new();
    assert!(reg.recipients(&b"nowhere".to_vec(), 1).is_empty());
    assert!(reg.get(&b"nowhere".to_vec(), 1).is_none());
}

#[test]
fn leaving_keeps_the_room_itself() {
    let mut reg: RoomRegistry<u32> = RoomRegistry::new();
    let room = b"lobby".to_vec();
    reg.join(&room, 1, 100);
    reg.leave(&room, 1);
    assert_eq!(1, reg.len());
    assert!(reg.recipients(&room, 2).is_empty());
}

#[test]
fn n_appends_make_n_lines_in_order() {
    let mut file = LogFile::new();
    assert_eq!(0, file.count_lines());
    let lines = [
        log_line(1, &b"first".to_vec()),
        log_line(2, &b"second".to_vec()),
        log_line(1, &b"third".to_vec()),
    ];
    for line in &lines {
        file.append_line(line);
    }
    assert_eq!(3, file.count_lines());
    let mut expected: Vec<u8> = Vec::new();
    for line in &lines {
        expected.extend_from_slice(line);
    }
    assert_eq!(&expected, file.bytes());
}

#[test]
fn at_most_one_writer_per_room() {
    let mut logger: Logger<u32> = Logger::new();
    let room = b"lobby".to_vec();
    // two racing openers both check before inserting; only the first inserts
    if logger.get_log_writer(&room).is_none() {
        logger.register_log_writer(&room, 100);
    }
    if logger.get_log_writer(&room).is_none() {
        logger.register_log_writer(&room, 200);
    }
    assert_eq!(1, logger.len());
    assert_eq!(Some(&100), logger.get_log_writer(&room));
    // a second room gets its own writer, the first keeps its handle
    let other = b"den".to_vec();
    if logger.get_log_writer(&other).is_none() {
        logger.register_log_writer(&other, 300);
    }
    assert_eq!(2, logger.len());
    assert_eq!(Some(&100), logger.get_log_writer(&room));
    assert_eq!(Some(&300), logger.get_log_writer(&other));
}

#[test]
fn session_lifecycle() {
    let (state, action) = session_step(SessionState::Connecting, 9, SessionEvent::Accepted);
    assert!(matches!(state, SessionState::Joined));
    assert!(matches!(action, SessionAction::Register));
    let (state, action) = session_step(state, 9, SessionEvent::Registered);
    assert!(matches!(state, SessionState::Reading));
    assert!(matches!(action, SessionAction::Ignore));
    let (state, action) = session_step(
        state,
        9,
        SessionEvent::Inbound(InboundFrame::Text(b"hi".to_vec())),
    );
    assert!(matches!(state, SessionState::Reading));
    match action {
        SessionAction::Broadcast(line) => assert_eq!(b"<User#9>: hi".to_vec(), line),
        _ => panic!("a text frame must be broadcast"),
    }
    let (state, action) = session_step(state, 9, SessionEvent::Inbound(InboundFrame::NonText));
    assert!(matches!(state, SessionState::Reading));
    assert!(matches!(action, SessionAction::Ignore));
    let (state, action) = session_step(state, 9, SessionEvent::Inbound(InboundFrame::ReadError));
    assert!(matches!(state, SessionState::Disconnected));
    assert!(matches!(action, SessionAction::Leave));
    let (state, action) = session_step(state, 9, SessionEvent::Inbound(InboundFrame::Closed));
    assert!(matches!(state, SessionState::Disconnected));
    assert!(matches!(action, SessionAction::Ignore));
}

#[test]
fn session_close_disconnects() {
    let (state, action) = session_step(
        SessionState::Reading,
        4,
        SessionEvent::Inbound(InboundFrame::Closed),
    );
    assert!(matches!(state, SessionState::Disconnected));
    assert!(matches!(action, SessionAction::Leave));
}

#[test]
fn lobby_scenario() {
    // clients A and B join "lobby"; A sends "hi"
    let mut counter = IdCounter::new();
    let a = counter.fresh_id();
    let b = counter.fresh_id();
    let lobby = b"lobby".to_vec();
    let mut reg: RoomRegistry<u32> = RoomRegistry::new();
    reg.join(&lobby, a, 100);
    reg.join(&lobby, b, 200);
    let (line, targets) = user_message(&reg, a, &lobby, &b"hi".to_vec());
    // B's outbound queue receives the attributed line; A's receives nothing
    assert_eq!(b"<User#1>: hi".to_vec(), line);
    assert_eq!(vec![b], targets);
    assert!(!targets.contains(&a));
    assert_eq!(Some(&200), reg.get(&lobby, b));
    // the lobby log gains the same line, newline-terminated
    let mut file = LogFile::new();
    file.append_line(&terminated(&line));
    assert_eq!(&b"<User#1>: hi\n".to_vec(), file.bytes());
    assert_eq!(1, file.count_lines());
    assert_eq!(b"logs/lobby.log".to_vec(), log_path(&lobby));
}
