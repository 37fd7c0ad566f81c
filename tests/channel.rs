use tcp_relay::channel::{Channel, ChannelResult};
use tcp_relay::memory::MemoryStream;
use tcp_relay::stream::{ByteStream, StreamError};

#[test]
fn new_channel_is_empty() {
    let ch = Channel::new(8);
    assert_eq!(ch.bytes_available(), 0);
    assert_eq!(ch.free_space(), 7);
    assert!(!ch.src_closed());
    assert!(!ch.dest_closed());
}

#[test]
fn receive_then_send_five_bytes() {
    let mut ch = Channel::new(8);
    let mut src = MemoryStream::new(b"ABCDE".to_vec(), 64);
    let mut dest = MemoryStream::new(Vec::new(), 64);
    let r = ch.recv_bytes(&mut src).ok().unwrap();
    assert_eq!(r, ChannelResult::Success(5));
    assert_eq!(ch.bytes_available(), 5);
    assert_eq!(ch.free_space(), 2);
    let w = ch.send_bytes(&mut dest).ok().unwrap();
    assert_eq!(w, ChannelResult::Success(5));
    assert_eq!(ch.bytes_available(), 0);
    assert_eq!(ch.free_space(), 7);
    assert_eq!(dest.output().as_slice(), b"ABCDE");
}

#[test]
fn available_plus_free_is_capacity_less_one() {
    let mut ch = Channel::new(8);
    let data: Vec<u8> = (0u8..40).collect();
    let mut src = MemoryStream::new(data.clone(), 3);
    let mut dest = MemoryStream::new(Vec::new(), 2);
    for step in 0..60 {
        if step % 3 == 0 {
            let _ = ch.send_bytes(&mut dest).ok().unwrap();
        } else {
            let _ = ch.recv_bytes(&mut src).ok().unwrap();
        }
        assert_eq!(ch.bytes_available() + ch.free_space(), 7);
    }
    while ch.bytes_available() > 0 {
        let _ = ch.send_bytes(&mut dest).ok().unwrap();
    }
    assert_eq!(dest.output(), &data);
}

#[test]
fn full_buffer_reads_nothing() {
    let mut ch = Channel::new(4);
    let mut src = MemoryStream::new(b"abcdef".to_vec(), 64);
    assert_eq!(ch.recv_bytes(&mut src).ok().unwrap(), ChannelResult::Success(3));
    assert_eq!(ch.free_space(), 0);
    assert_eq!(ch.recv_bytes(&mut src).ok().unwrap(), ChannelResult::Success(0));
    assert_eq!(ch.bytes_available(), 3);
}

#[test]
fn wrapped_region_is_sent_in_two_steps() {
    let mut ch = Channel::new(4);
    let mut src = MemoryStream::new(b"abcdef".to_vec(), 64);
    let mut dest = MemoryStream::new(Vec::new(), 2);
    assert_eq!(ch.recv_bytes(&mut src).ok().unwrap(), ChannelResult::Success(3));
    assert_eq!(ch.send_bytes(&mut dest).ok().unwrap(), ChannelResult::Success(2));
    // the free region now wraps: one byte at the end of the storage
    assert_eq!(ch.recv_bytes(&mut src).ok().unwrap(), ChannelResult::Success(1));
    assert_eq!(ch.recv_bytes(&mut src).ok().unwrap(), ChannelResult::Success(1));
    assert_eq!(ch.bytes_available(), 3);
    assert_eq!(ch.send_bytes(&mut dest).ok().unwrap(), ChannelResult::Success(2));
    assert_eq!(ch.send_bytes(&mut dest).ok().unwrap(), ChannelResult::Success(1));
    assert_eq!(dest.output().as_slice(), b"abcde");
}

#[test]
fn end_of_stream_closes_the_read_side() {
    let mut ch = Channel::new(8);
    let mut src = MemoryStream::new(b"xy".to_vec(), 64);
    assert_eq!(ch.recv_bytes(&mut src).ok().unwrap(), ChannelResult::Success(2));
    assert_eq!(ch.recv_bytes(&mut src).ok().unwrap(), ChannelResult::ReadClosed);
    assert!(ch.src_closed());
    assert_eq!(ch.recv_bytes(&mut src).ok().unwrap(), ChannelResult::ReadClosed);
    assert_eq!(ch.bytes_available(), 2);
}

#[test]
fn shutdown_waits_for_delivery() {
    let mut ch = Channel::new(8);
    let mut src = MemoryStream::new(b"xyz".to_vec(), 64);
    let mut dest = MemoryStream::new(Vec::new(), 64);
    assert_eq!(ch.check_shutdown(&mut dest).ok().unwrap(), false);
    let _ = ch.recv_bytes(&mut src).ok().unwrap();
    assert_eq!(ch.recv_bytes(&mut src).ok().unwrap(), ChannelResult::ReadClosed);
    assert_eq!(ch.check_shutdown(&mut dest).ok().unwrap(), false);
    assert!(!dest.write_shut());
    assert_eq!(ch.send_bytes(&mut dest).ok().unwrap(), ChannelResult::Success(3));
    assert_eq!(ch.check_shutdown(&mut dest).ok().unwrap(), true);
    assert!(dest.write_shut());
    assert!(ch.dest_closed());
    assert_eq!(ch.send_bytes(&mut dest).ok().unwrap(), ChannelResult::WriteClosed);
    assert_eq!(ch.check_shutdown(&mut dest).ok().unwrap(), false);
}

#[test]
fn writing_after_shutdown_fails() {
    let mut dest = MemoryStream::new(Vec::new(), 64);
    assert!(dest.shutdown_write().is_ok());
    assert!(matches!(dest.write_bytes(b"a"), Err(StreamError::WriteShut)));
}

#[test]
fn capacity_one_holds_nothing() {
    let mut ch = Channel::new(1);
    let mut src = MemoryStream::new(b"a".to_vec(), 64);
    assert_eq!(ch.free_space(), 0);
    assert_eq!(ch.recv_bytes(&mut src).ok().unwrap(), ChannelResult::Success(0));
}

#[test]
fn accept_read_takes_in_a_read_result() {
    let mut ch = Channel::new(8);
    assert!(matches!(ch.accept_read(&[0u8; 8]), Err(StreamError::Overrun)));
    assert_eq!(ch.bytes_available(), 0);
    assert_eq!(ch.accept_read(b"ABCDE").ok().unwrap(), ChannelResult::Success(5));
    assert_eq!(ch.bytes_available(), 5);
    assert_eq!(ch.accept_read(b"").ok().unwrap(), ChannelResult::ReadClosed);
    assert!(ch.src_closed());
    assert_eq!(ch.bytes_available(), 5);
}

#[test]
fn accept_write_takes_in_a_write_result() {
    let mut ch = Channel::new(8);
    assert_eq!(ch.accept_read(b"ABCDE").ok().unwrap(), ChannelResult::Success(5));
    assert!(matches!(ch.accept_write(6), Err(StreamError::Overrun)));
    assert_eq!(ch.bytes_available(), 5);
    assert_eq!(ch.accept_write(2).ok().unwrap(), ChannelResult::Success(2));
    assert_eq!(ch.bytes_available(), 3);
    let mut dest = MemoryStream::new(Vec::new(), 64);
    assert_eq!(ch.send_bytes(&mut dest).ok().unwrap(), ChannelResult::Success(3));
    assert_eq!(dest.output().as_slice(), b"CDE");
}
