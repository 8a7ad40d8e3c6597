use ring_buffer::server::{connection_closed, server_should_stop};

#[test]
fn server_stops_after_five_minutes() {
    assert!(!server_should_stop(0));
    assert!(!server_should_stop(299));
    assert!(server_should_stop(300));
    assert!(server_should_stop(10_000));
}

#[test]
fn connection_ends_when_nothing_is_received() {
    assert!(connection_closed(0));
    assert!(!connection_closed(12));
    assert!(!connection_closed(-1));
}
