use load_balancer::{Direction, ReadOutcome, RelayAction, RelaySession, CHUNK_SIZE};

#[test]
fn bytes_then_close_ends_direction() {
    let mut session = RelaySession::new();
    assert_eq!(
        session.on_read(Direction::ToBackend, ReadOutcome::Data(5)),
        RelayAction::Forward(5)
    );
    assert!(session.on_write(Direction::ToBackend, true));
    assert_eq!(
        session.on_read(Direction::ToBackend, ReadOutcome::Data(0)),
        RelayAction::Finish
    );
    assert!(!session.is_open(Direction::ToBackend));
    assert!(session.is_open(Direction::ToClient));
    assert!(!session.is_complete());
    assert_eq!(
        session.on_read(Direction::ToClient, ReadOutcome::Data(CHUNK_SIZE)),
        RelayAction::Forward(1024)
    );
    assert_eq!(
        session.on_read(Direction::ToClient, ReadOutcome::Data(0)),
        RelayAction::Finish
    );
    assert!(session.is_complete());
}

#[test]
fn failed_read_or_write_ends_direction() {
    let mut session = RelaySession::new();
    assert_eq!(
        session.on_read(Direction::ToClient, ReadOutcome::Failed),
        RelayAction::Finish
    );
    assert!(!session.is_open(Direction::ToClient));
    assert!(!session.on_write(Direction::ToBackend, false));
    assert!(session.is_complete());
}

#[test]
fn ended_direction_stays_ended() {
    let mut session = RelaySession::new();
    session.on_read(Direction::ToBackend, ReadOutcome::Data(0));
    assert_eq!(
        session.on_read(Direction::ToBackend, ReadOutcome::Data(7)),
        RelayAction::Finish
    );
    assert!(!session.on_write(Direction::ToBackend, true));
    assert!(!session.is_open(Direction::ToBackend));
}
