use chat_host::identity::{classify, IdentityCounter, Source, FIRST_IDENTITY, LISTENER_TOKEN};

#[test]
fn token_zero_is_the_listener() {
    assert_eq!(LISTENER_TOKEN, 0);
    assert_eq!(classify(0), Source::Listener);
}

#[test]
fn other_tokens_are_connections() {
    assert_eq!(classify(1), Source::Connection(1));
    assert_eq!(classify(2), Source::Connection(2));
    assert_eq!(classify(usize::MAX), Source::Connection(usize::MAX));
}

#[test]
fn identities_start_at_one() {
    assert_eq!(FIRST_IDENTITY, 1);
    let mut counter = IdentityCounter::new();
    assert_eq!(counter.allocate(), Some(1));
}

#[test]
fn identities_are_strictly_increasing() {
    let mut counter = IdentityCounter::new();
    let mut last = 0usize;
    for expected in 1..=1000usize {
        let id = counter.allocate().unwrap();
        assert_eq!(id, expected);
        assert!(id > last);
        assert_ne!(classify(id), Source::Listener);
        last = id;
    }
}
