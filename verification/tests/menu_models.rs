use orb::menu::{parse_menu_choice, parse_receiver_choice, receiver_index, receiver_line, MenuChoice};
use orb::models::{FileState, VectorClock};
use orb::peers::{IpAddress, Peer, PeerAddress};
use orb::state::State;

#[test]
fn menu_choices() {
    assert_eq!(parse_menu_choice("1\n"), MenuChoice::Send);
    assert_eq!(parse_menu_choice(" 2 "), MenuChoice::Receive);
    assert_eq!(parse_menu_choice("3"), MenuChoice::Exit);
    assert_eq!(parse_menu_choice("4"), MenuChoice::Invalid);
    assert_eq!(parse_menu_choice(""), MenuChoice::Invalid);
    assert_eq!(parse_menu_choice("11"), MenuChoice::Invalid);
    assert_eq!(MenuChoice::Send.working_state(), Some(State::Send));
    assert_eq!(MenuChoice::Receive.working_state(), Some(State::Receive));
    assert_eq!(MenuChoice::Exit.working_state(), None);
    assert!(MenuChoice::Send.continues());
    assert!(!MenuChoice::Invalid.continues());
    assert!(!MenuChoice::Exit.continues());
}

#[test]
fn receiver_choices() {
    assert_eq!(parse_receiver_choice(" 2\n"), 2);
    assert_eq!(parse_receiver_choice("x"), 0);
    assert_eq!(parse_receiver_choice("99999999999"), 0);
    assert_eq!(receiver_index(3, 1), Some(0));
    assert_eq!(receiver_index(3, 3), Some(2));
    assert_eq!(receiver_index(3, 4), None);
    assert_eq!(receiver_index(3, 0), None);
    assert_eq!(receiver_index(0, 1), None);
}

#[test]
fn receiver_listing_line() {
    let p = Peer {
        id: "abc".into(),
        name: "box-bob".into(),
        state: State::Receive,
        address: PeerAddress { ip: IpAddress::V4([1, 2, 3, 4]), port: 1 },
        last_seen: 0,
    };
    assert_eq!(receiver_line(1, &p), " 1: box-bob (abc) is [RECEIVE]");
}

#[test]
fn vector_clock_ticks() {
    let mut c = VectorClock::new();
    assert_eq!(c.version("a"), 0);
    c.tick("a");
    c.tick("a");
    c.tick("b");
    assert_eq!(c.version("a"), 2);
    assert_eq!(c.version("b"), 1);
    assert_eq!(c.version("c"), 0);
}

#[test]
fn vector_clock_comparison() {
    let mut a = VectorClock::new();
    let mut b = VectorClock::new();
    assert!(a.same_versions(&b));
    a.tick("x");
    a.tick("y");
    assert!(!a.same_versions(&b));
    b.tick("y");
    b.tick("x");
    assert!(a.same_versions(&b));
    b.tick("x");
    assert!(!a.same_versions(&b));
    a.tick("z");
    assert!(!a.same_versions(&b));
}

#[test]
fn file_state_starts_with_empty_clock() {
    let mut v = VectorClock::new();
    v.tick("n");
    let f = FileState::new("p".into(), "h".into(), 42, v);
    assert_eq!(f.path, "p");
    assert_eq!(f.hash, "h");
    assert_eq!(f.last_modified, 42);
    assert!(f.version.same_versions(&VectorClock::new()));
}
