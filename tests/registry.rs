use tcp_relay::connection::{Connection, Interest, TokenStream};
use tcp_relay::memory::MemoryStream;
use tcp_relay::registry::{Dispatch, Registry, MAX_CONNECTIONS_COUNT};
use tcp_relay::token_gen::TokenGen;

fn new_connection(gen: &mut TokenGen, up: &[u8]) -> Connection<MemoryStream> {
    let c = gen.next_token();
    let s = gen.next_token();
    Connection::with_capacity(
        TokenStream { token: c, stream: MemoryStream::new(up.to_vec(), 64) },
        TokenStream { token: s, stream: MemoryStream::new(Vec::new(), 64) },
        64,
    )
}

#[test]
fn tokens_are_unique_and_increasing() {
    let mut gen = TokenGen::new();
    let a = gen.next_token();
    let b = gen.next_token();
    let c = gen.next_token();
    assert_eq!((a, b, c), (0, 1, 2));
    assert!(gen.can_issue());
}

#[test]
fn full_registry_turns_new_connections_away() {
    let mut gen = TokenGen::new();
    let _listener = gen.next_token();
    let mut reg: Registry<MemoryStream> = Registry::new(2);
    let first = new_connection(&mut gen, b"");
    let (c1, _s1) = first.tokens();
    assert!(reg.insert(first).is_ok());
    assert!(reg.insert(new_connection(&mut gen, b"x")).is_ok());
    assert_eq!(reg.len(), 2);
    assert!(!reg.has_room());
    let third = new_connection(&mut gen, b"y");
    let third_tokens = third.tokens();
    let back = reg.insert(third);
    assert!(back.is_err());
    assert_eq!(back.err().unwrap().tokens(), third_tokens);
    assert_eq!(reg.len(), 2);

    // the first connection has nothing to relay: it finishes
    let both = Interest { readable: true, writable: true };
    let mut finished = false;
    for _ in 0..10 {
        let (c, s) = (c1, c1 + 1);
        for token in [c, s] {
            match reg.dispatch(token, both) {
                Dispatch::Closed(conn) => {
                    assert_eq!(conn.tokens(), (c1, c1 + 1));
                    finished = true;
                }
                Dispatch::Reregister(a, _) => assert_eq!(a.token, token),
                Dispatch::Failed(_, _) => panic!("unexpected failure"),
                Dispatch::Unknown => {}
            }
        }
        if finished {
            break;
        }
    }
    assert!(finished);
    assert_eq!(reg.len(), 1);
    assert!(reg.has_room());
    assert!(!reg.contains_token(c1));
    assert!(reg.insert(new_connection(&mut gen, b"z")).is_ok());
    assert_eq!(reg.len(), 2);
}

#[test]
fn unknown_token_is_reported() {
    let mut reg: Registry<MemoryStream> = Registry::new(MAX_CONNECTIONS_COUNT);
    let both = Interest { readable: true, writable: true };
    assert!(matches!(reg.dispatch(42, both), Dispatch::Unknown));
    assert_eq!(reg.len(), 0);
}

#[test]
fn clashing_tokens_are_refused() {
    let mut reg: Registry<MemoryStream> = Registry::new(4);
    let mut gen = TokenGen::new();
    let a = new_connection(&mut gen, b"");
    assert!(reg.insert(a).is_ok());
    let mut again = TokenGen::new();
    let b = new_connection(&mut again, b"");
    assert!(reg.insert(b).is_err());
    assert_eq!(reg.len(), 1);
    assert!(reg.contains_token(0));
    assert!(reg.contains_token(1));
    assert!(!reg.contains_token(2));
}
