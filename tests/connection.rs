use tcp_relay::connection::{Connection, ConnectionResult, Interest, TokenReady, TokenStream};
use tcp_relay::memory::MemoryStream;

const CLIENT: usize = 1;
const SERVER: usize = 2;

fn both() -> Interest {
    Interest { readable: true, writable: true }
}

fn connection(up: Vec<u8>, down: Vec<u8>, chunk: usize, cap: usize) -> Connection<MemoryStream> {
    Connection::with_capacity(
        TokenStream { token: CLIENT, stream: MemoryStream::new(up, chunk) },
        TokenStream { token: SERVER, stream: MemoryStream::new(down, chunk) },
        cap,
    )
}

fn pattern(n: usize, seed: u8) -> Vec<u8> {
    (0..n).map(|i| (i as u8).wrapping_mul(31).wrapping_add(seed)).collect()
}

/// Delivers readiness to both sockets in turn until the connection finishes.
fn run_to_close(conn: &mut Connection<MemoryStream>) -> usize {
    for round in 0..100_000 {
        for token in [CLIENT, SERVER] {
            match conn.handle_event(token, both()).ok().unwrap() {
                ConnectionResult::Close => return round,
                ConnectionResult::Continue(_, _) => {}
            }
        }
    }
    panic!("the connection never finished");
}

fn round_trip(n_up: usize, n_down: usize, chunk: usize, cap: usize) {
    let up = pattern(n_up, 7);
    let down = pattern(n_down, 101);
    let mut conn = connection(up.clone(), down.clone(), chunk, cap);
    run_to_close(&mut conn);
    assert_eq!(conn.server().output(), &up);
    assert_eq!(conn.client().output(), &down);
    assert!(conn.server().write_shut());
    assert!(conn.client().write_shut());
    assert!(conn.all_closed());
}

#[test]
fn round_trip_buffer_smaller_than_stream() {
    round_trip(1000, 777, 5, 16);
}

#[test]
fn round_trip_buffer_larger_than_stream() {
    round_trip(100, 50, 64, 8192);
}

#[test]
fn round_trip_empty_streams() {
    round_trip(0, 0, 4, 8);
}

#[test]
fn round_trip_default_buffer() {
    let up = pattern(20_000, 3);
    let mut conn = Connection::new(
        TokenStream { token: CLIENT, stream: MemoryStream::new(up.clone(), 1500) },
        TokenStream { token: SERVER, stream: MemoryStream::new(Vec::new(), 1500) },
    );
    run_to_close(&mut conn);
    assert_eq!(conn.server().output(), &up);
    assert!(conn.client().output().is_empty());
}

#[test]
fn tokens_are_reported() {
    let conn = connection(Vec::new(), Vec::new(), 4, 8);
    assert_eq!(conn.tokens(), (CLIENT, SERVER));
}

#[test]
fn interest_sets_follow_the_buffers() {
    let mut conn = connection(b"hello".to_vec(), Vec::new(), 64, 16);
    let r = conn.handle_event(CLIENT, Interest { readable: true, writable: false }).ok().unwrap();
    assert_eq!(
        r,
        ConnectionResult::Continue(
            TokenReady { token: CLIENT, ready: Interest { readable: true, writable: false } },
            TokenReady { token: SERVER, ready: Interest { readable: true, writable: true } },
        )
    );
    let r = conn.handle_event(SERVER, Interest { readable: false, writable: true }).ok().unwrap();
    assert_eq!(
        r,
        ConnectionResult::Continue(
            TokenReady { token: SERVER, ready: Interest { readable: true, writable: false } },
            TokenReady { token: CLIENT, ready: Interest { readable: true, writable: false } },
        )
    );
    assert_eq!(conn.server().output().as_slice(), b"hello");
}

#[test]
fn full_buffer_drops_read_interest() {
    let mut conn = connection(pattern(50, 1), Vec::new(), 64, 8);
    let r = conn.handle_event(CLIENT, Interest { readable: true, writable: false }).ok().unwrap();
    assert_eq!(
        r,
        ConnectionResult::Continue(
            TokenReady { token: CLIENT, ready: Interest { readable: false, writable: false } },
            TokenReady { token: SERVER, ready: Interest { readable: true, writable: true } },
        )
    );
}

#[test]
fn upstream_end_waits_for_delivery() {
    let up = pattern(100, 9);
    let mut conn = connection(up.clone(), Vec::new(), 4096, 8192);
    let read_only = Interest { readable: true, writable: false };
    // the client sends 100 bytes, then its end of stream
    conn.handle_event(CLIENT, read_only).ok().unwrap();
    conn.handle_event(CLIENT, read_only).ok().unwrap();
    // the server has read nothing yet: its write side must stay open
    assert!(conn.server().output().is_empty());
    assert!(!conn.server().write_shut());
    assert!(!conn.all_closed());
    // the server becomes writable: all 100 bytes go out, then the half-close
    let r = conn.handle_event(SERVER, Interest { readable: false, writable: true }).ok().unwrap();
    assert!(matches!(r, ConnectionResult::Continue(_, _)));
    assert_eq!(conn.server().output(), &up);
    assert!(conn.server().write_shut());
    assert!(!conn.client().write_shut());
    // the server's own end of stream finishes the connection
    let r = conn.handle_event(SERVER, read_only).ok().unwrap();
    assert_eq!(r, ConnectionResult::Close);
    assert!(conn.client().write_shut());
}

#[test]
fn half_close_keeps_the_other_direction_open() {
    let down = pattern(300, 55);
    let mut conn = connection(Vec::new(), down.clone(), 16, 32);
    // the client ends at once
    conn.handle_event(CLIENT, both()).ok().unwrap();
    conn.handle_event(SERVER, Interest { readable: false, writable: true }).ok().unwrap();
    assert!(conn.server().write_shut());
    assert!(!conn.all_closed());
    // bytes from the server still reach the client
    for _ in 0..200 {
        if let ConnectionResult::Close = conn.handle_event(SERVER, both()).ok().unwrap() {
            break;
        }
        if let ConnectionResult::Close = conn.handle_event(CLIENT, both()).ok().unwrap() {
            break;
        }
    }
    assert_eq!(conn.client().output(), &down);
    assert!(conn.all_closed());
}

#[test]
fn close_only_when_both_directions_close() {
    let mut conn = connection(b"a".to_vec(), b"b".to_vec(), 8, 8);
    let mut closes = 0;
    for _ in 0..20 {
        for token in [CLIENT, SERVER] {
            if conn.all_closed() {
                break;
            }
            let r = conn.handle_event(token, both()).ok().unwrap();
            assert_eq!(r == ConnectionResult::Close, conn.all_closed());
            if r == ConnectionResult::Close {
                closes += 1;
            }
        }
    }
    assert_eq!(closes, 1);
}
