use ocaml::handle::{Event, Handle, State};

#[test]
fn a_handle_goes_from_entry_to_return() {
    let mut h = Handle::new();
    assert_eq!(h.current(), State::Uninitialized);
    assert!(!h.is_active());
    assert!(h.step(Event::Enter));
    assert!(h.is_active());
    assert!(h.step(Event::Leave));
    assert_eq!(h.current(), State::Returned);
    for e in [Event::Enter, Event::Call, Event::Back, Event::Leave] {
        assert!(!h.step(e));
        assert_eq!(h.current(), State::Returned);
    }
}

#[test]
fn an_active_handle_cannot_be_entered_again() {
    let mut h = Handle::new();
    assert!(!h.step(Event::Call));
    assert!(!h.step(Event::Back));
    assert!(!h.step(Event::Leave));
    assert!(h.step(Event::Enter));
    assert!(!h.step(Event::Enter));
    assert!(!h.step(Event::Back));
    assert_eq!(h.current(), State::Active);
    assert_eq!(h.depth(), 0);
}

#[test]
fn frames_nest_through_calls() {
    let mut h = Handle::new();
    assert!(h.step(Event::Enter));
    assert!(h.step(Event::Call));
    assert_eq!(h.current(), State::Suspended);
    assert_eq!(h.depth(), 1);
    assert!(!h.step(Event::Leave));
    assert!(h.step(Event::Enter));
    assert_eq!(h.current(), State::Active);
    assert!(h.step(Event::Call));
    assert_eq!(h.depth(), 2);
    assert!(h.step(Event::Back));
    assert_eq!(h.depth(), 1);
    assert!(h.step(Event::Leave));
    assert_eq!(h.current(), State::Suspended);
    assert!(h.step(Event::Back));
    assert_eq!(h.current(), State::Active);
    assert_eq!(h.depth(), 0);
    assert!(h.step(Event::Leave));
    assert_eq!(h.current(), State::Returned);
}
