use polite_crawler::session::{context_window, InputError, PhiSession, CONTEXT_WINDOW};

#[test]
fn new_session_has_no_tokens() {
    let session = PhiSession::new();
    assert!(session.get_current_tokens().is_empty());
    assert!(session.tokens().is_empty());
}

#[test]
fn fed_tokens_are_appended_in_order() {
    let mut session = PhiSession::new();
    session.feed_tokens(&[1, 2, 3]);
    session.feed_tokens(&[]);
    session.feed_tokens(&[4]);
    assert_eq!(session.get_current_tokens(), &[1, 2, 3, 4]);
    assert_eq!(session.tokens(), &[1, 2, 3, 4]);
}

#[test]
fn restored_session_has_the_tokens_it_was_given() {
    let session = PhiSession::from_tokens(vec![7, 8, 9]);
    assert_eq!(session.get_current_tokens(), &[7, 8, 9]);
}

#[test]
fn cloned_session_is_independent() {
    let mut session = PhiSession::from_tokens(vec![1, 2]);
    let copy = session.clone();
    session.feed_tokens(&[3]);
    assert_eq!(copy.get_current_tokens(), &[1, 2]);
    assert_eq!(session.get_current_tokens(), &[1, 2, 3]);
}

#[test]
fn empty_input_cannot_be_run() {
    assert_eq!(context_window(&[]).err(), Some(InputError::Empty));
}

#[test]
fn short_input_is_the_whole_window() {
    assert_eq!(context_window(&[5, 6, 7]).unwrap(), &[5, 6, 7]);
    let exact: Vec<u32> = (0..CONTEXT_WINDOW as u32).collect();
    assert_eq!(context_window(&exact).unwrap(), exact.as_slice());
}

#[test]
fn long_input_keeps_its_last_tokens() {
    assert_eq!(CONTEXT_WINDOW, 4096);
    let long: Vec<u32> = (0..5000).collect();
    let window = context_window(&long).unwrap();
    assert_eq!(window.len(), 4096);
    assert_eq!(window[0], 904);
    assert_eq!(window[4095], 4999);
    let one_over: Vec<u32> = (0..4097).collect();
    let window = context_window(&one_over).unwrap();
    assert_eq!(window.len(), 4096);
    assert_eq!(window[0], 1);
}
