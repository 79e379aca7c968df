use albatross::autonat::{NatNotice, NatState, NatStatus};

fn addr(name: &str) -> Vec<u8> {
    name.as_bytes().to_vec()
}

#[test]
fn fresh_state_knows_nothing() {
    let state = NatState::new();
    assert_eq!(state.status(), NatStatus::Unknown);
    assert_eq!(state.listen_address_status(&addr("a")), None);
    assert!(!state.is_confirmed(&addr("a")));
    assert_eq!(NatStatus::default(), NatStatus::Unknown);
}

#[test]
fn listen_address_starts_unknown() {
    let mut state = NatState::new();
    state.add_listen_address(addr("a"));
    assert_eq!(state.listen_address_status(&addr("a")), Some(NatStatus::Unknown));
    assert_eq!(state.listen_address_status(&addr("b")), None);
    assert_eq!(state.status(), NatStatus::Unknown);
}

#[test]
fn confirming_makes_public() {
    let mut state = NatState::new();
    state.add_listen_address(addr("a"));
    state.add_listen_address(addr("b"));
    let notice = state.add_confirmed_address(addr("b"));
    assert_eq!(notice, Some(NatNotice::Reachable { old: NatStatus::Unknown }));
    assert_eq!(state.status(), NatStatus::Public);
    assert_eq!(state.listen_address_status(&addr("b")), Some(NatStatus::Public));
    assert_eq!(state.listen_address_status(&addr("a")), Some(NatStatus::Unknown));
    assert!(state.is_confirmed(&addr("b")));
    assert!(!state.is_confirmed(&addr("a")));
    // Confirming again changes nothing and tells nothing.
    assert_eq!(state.add_confirmed_address(addr("b")), None);
    assert_eq!(state.status(), NatStatus::Public);
}

#[test]
fn unknown_address_is_left_alone() {
    let mut state = NatState::new();
    state.add_listen_address(addr("a"));
    assert_eq!(state.add_confirmed_address(addr("x")), None);
    assert_eq!(state.remove_confirmed_address(&addr("x")), None);
    assert_eq!(state.set_listen_address_nat_status(addr("x"), NatStatus::Public), None);
    assert_eq!(state.status(), NatStatus::Unknown);
    assert_eq!(state.listen_address_status(&addr("x")), None);
    assert!(!state.is_confirmed(&addr("x")));
}

#[test]
fn all_private_makes_private() {
    let mut state = NatState::new();
    state.add_listen_address(addr("a"));
    state.add_listen_address(addr("b"));
    assert_eq!(state.remove_confirmed_address(&addr("a")), None);
    assert_eq!(state.status(), NatStatus::Unknown);
    assert_eq!(state.remove_confirmed_address(&addr("b")), Some(NatNotice::Unreachable));
    assert_eq!(state.status(), NatStatus::Private);
    assert_eq!(state.listen_address_status(&addr("a")), Some(NatStatus::Private));
}

#[test]
fn status_follows_set_status() {
    let mut state = NatState::new();
    state.add_listen_address(addr("a"));
    assert_eq!(
        state.set_listen_address_nat_status(addr("a"), NatStatus::Public),
        Some(NatNotice::Reachable { old: NatStatus::Unknown })
    );
    assert!(state.is_confirmed(&addr("a")));
    assert_eq!(state.set_listen_address_nat_status(addr("a"), NatStatus::Private), Some(NatNotice::Unreachable));
    assert!(!state.is_confirmed(&addr("a")));
    assert_eq!(state.status(), NatStatus::Private);
    assert_eq!(state.set_listen_address_nat_status(addr("a"), NatStatus::Unknown), None);
    assert_eq!(state.status(), NatStatus::Unknown);
    assert_eq!(
        state.set_listen_address_nat_status(addr("a"), NatStatus::Public),
        Some(NatNotice::Reachable { old: NatStatus::Unknown })
    );
    assert_eq!(state.set_listen_address_nat_status(addr("a"), NatStatus::Unknown), None);
    assert_eq!(state.status(), NatStatus::Unknown);
    assert!(!state.is_confirmed(&addr("a")));
}

#[test]
fn private_to_public_tells_the_old_status() {
    let mut state = NatState::new();
    state.add_listen_address(addr("a"));
    state.remove_confirmed_address(&addr("a"));
    assert_eq!(state.status(), NatStatus::Private);
    assert_eq!(state.add_confirmed_address(addr("a")), Some(NatNotice::Reachable { old: NatStatus::Private }));
}

#[test]
fn removing_the_last_confirmed_address() {
    let mut state = NatState::new();
    state.add_listen_address(addr("a"));
    state.add_listen_address(addr("b"));
    state.add_confirmed_address(addr("a"));
    assert_eq!(state.remove_listen_address(&addr("a")), None);
    // One listen address is left, of which nothing is known.
    assert_eq!(state.status(), NatStatus::Unknown);
    assert_eq!(state.listen_address_status(&addr("a")), None);
    assert!(!state.is_confirmed(&addr("a")));
    // With no listen address left, every one of them is private.
    assert_eq!(state.remove_listen_address(&addr("b")), Some(NatNotice::Unreachable));
    assert_eq!(state.status(), NatStatus::Private);
}

#[test]
fn adding_again_forgets_the_status_and_keeps_the_confirmation() {
    let mut state = NatState::new();
    state.add_listen_address(addr("a"));
    state.add_confirmed_address(addr("a"));
    state.add_listen_address(addr("a"));
    assert_eq!(state.listen_address_status(&addr("a")), Some(NatStatus::Unknown));
    assert!(state.is_confirmed(&addr("a")));
    assert_eq!(state.status(), NatStatus::Public);
}

#[test]
fn adding_does_not_work_out_the_status() {
    let mut state = NatState::new();
    state.add_listen_address(addr("a"));
    state.remove_confirmed_address(&addr("a"));
    assert_eq!(state.status(), NatStatus::Private);
    state.add_listen_address(addr("b"));
    assert_eq!(state.status(), NatStatus::Private);
    // The next change does.
    assert_eq!(state.remove_listen_address(&addr("zzz")), None);
    assert_eq!(state.status(), NatStatus::Unknown);
}

#[test]
fn addresses_are_told_apart_by_their_bytes() {
    let mut state = NatState::new();
    state.add_listen_address(vec![1, 2, 3]);
    state.add_listen_address(vec![1, 2]);
    state.add_listen_address(vec![]);
    state.add_confirmed_address(vec![1, 2]);
    assert_eq!(state.listen_address_status(&vec![1, 2, 3]), Some(NatStatus::Unknown));
    assert_eq!(state.listen_address_status(&vec![1, 2]), Some(NatStatus::Public));
    assert_eq!(state.listen_address_status(&vec![]), Some(NatStatus::Unknown));
    assert_eq!(state.listen_address_status(&vec![1, 2, 4]), None);
}

#[test]
fn notices() {
    let private = NatStatus::Private;
    let public = NatStatus::Public;
    let unknown = NatStatus::Unknown;
    assert_eq!(NatState::handle_new_status(public, public), None);
    assert_eq!(NatState::handle_new_status(private, private), None);
    assert_eq!(NatState::handle_new_status(unknown, unknown), None);
    assert_eq!(NatState::handle_new_status(public, private), Some(NatNotice::Unreachable));
    assert_eq!(NatState::handle_new_status(unknown, private), Some(NatNotice::Unreachable));
    assert_eq!(NatState::handle_new_status(private, public), Some(NatNotice::Reachable { old: private }));
    assert_eq!(NatState::handle_new_status(unknown, public), Some(NatNotice::Reachable { old: unknown }));
    assert_eq!(NatState::handle_new_status(public, unknown), None);
    assert_eq!(NatState::handle_new_status(private, unknown), None);
}
