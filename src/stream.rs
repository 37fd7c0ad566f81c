use vstd::prelude::*;

verus! {

/// Why a stream operation failed.
pub enum StreamError {
    /// The underlying transport reported an error, described by the text.
    Io(String),
    /// A source handed back more bytes than were asked for, or a sink claimed
    /// to have taken more bytes than it was given.
    Overrun,
    /// A write was attempted after the write half had been shut down.
    WriteShut,
}

/// A bidirectional byte stream, such as a connected socket.
///
/// Its state is described by three records: the bytes read from it so far,
/// the bytes written to it so far, and whether its write half is shut down.
/// Each operation changes only the record it is about.
pub trait ByteStream {
    /// Every byte read from this stream so far, in order.
    closed spec fn taken(&self) -> Seq<u8> {
        Seq::empty()
    }

    /// Every byte this stream has accepted for writing so far, in order.
    closed spec fn sent(&self) -> Seq<u8> {
        Seq::empty()
    }

    /// Whether the write half has been shut down.
    closed spec fn is_shut(&self) -> bool {
        false
    }

    /// Reads at most `max` bytes; `max` is at least one. An empty result
    /// means the stream is at end of stream.
    fn read_bytes(&mut self, max: usize) -> (r: Result<Vec<u8>, StreamError>)
        ensures
            final(self).sent() == old(self).sent(),
            final(self).is_shut() == old(self).is_shut(),
            r matches Ok(v) ==> final(self).taken() == old(self).taken() + v@,
            r is Err ==> final(self).taken() == old(self).taken(),
    ;

    /// Writes a prefix of `data`, returning how many bytes were taken.
    fn write_bytes(&mut self, data: &[u8]) -> (r: Result<usize, StreamError>)
        ensures
            final(self).taken() == old(self).taken(),
            final(self).is_shut() == old(self).is_shut(),
            r matches Ok(n) ==> n <= data@.len() ==> final(self).sent() == old(self).sent()
                + data@.subrange(0, n as int),
            r is Err ==> final(self).sent() == old(self).sent(),
    ;

    /// Half-closes the stream: the peer then sees end of stream.
    fn shutdown_write(&mut self) -> (r: Result<(), StreamError>)
        ensures
            final(self).taken() == old(self).taken(),
            final(self).sent() == old(self).sent(),
            r is Ok ==> final(self).is_shut(),
            r is Err ==> final(self).is_shut() == old(self).is_shut(),
    ;
}

} // verus!
