use vstd::prelude::*;
use vstd::slice::slice_subrange;

use crate::stream::{ByteStream, StreamError};

verus! {

/// Outcome of one transfer step of a [`Channel`].
#[derive(PartialEq, Eq, Structural, Debug, Clone, Copy)]
pub enum ChannelResult {
    /// This many bytes were moved.
    Success(usize),
    /// The source is at end of stream; nothing more will be read.
    ReadClosed,
    /// The destination has been half-closed; nothing more will be written.
    WriteClosed,
}

/// A fixed-capacity circular byte buffer between a source and a destination.
///
/// The occupied region runs from `begin` up to `end`, wrapping around the end
/// of the storage. One byte of the storage always stays unused, so that
/// `begin == end` means "empty" and nothing else: a buffer of capacity `C`
/// holds at most `C - 1` bytes.
pub struct Channel {
    buffer: Vec<u8>,
    begin: usize,
    end: usize,
    capacity: usize,
    src_closed: bool,
    dest_closed: bool,
    received: Ghost<Seq<u8>>,
    delivered: Ghost<Seq<u8>>,
}

impl View for Channel {
    type V = Seq<u8>;

    /// The bytes held, oldest first.
    closed spec fn view(&self) -> Seq<u8> {
        if self.begin <= self.end {
            self.buffer@.subrange(self.begin as int, self.end as int)
        } else {
            self.buffer@.subrange(self.begin as int, self.capacity as int)
                + self.buffer@.subrange(0, self.end as int)
        }
    }
}

impl Channel {
    /// The size of the storage; at most one less than this is usable.
    pub closed spec fn cap(&self) -> nat {
        self.capacity as nat
    }

    /// The source has reported end of stream.
    pub closed spec fn read_closed(&self) -> bool {
        self.src_closed
    }

    /// The destination's write half has been shut down.
    pub closed spec fn write_closed(&self) -> bool {
        self.dest_closed
    }

    /// Every byte ever taken in from the source, in order.
    pub closed spec fn received(&self) -> Seq<u8> {
        self.received@
    }

    /// Every byte ever handed to the destination, in order.
    pub closed spec fn delivered(&self) -> Seq<u8> {
        self.delivered@
    }

    pub closed spec fn wf(&self) -> bool {
        &&& self.capacity > 0
        &&& self.buffer@.len() == self.capacity
        &&& self.begin < self.capacity
        &&& self.end < self.capacity
        &&& self.delivered@ + self@ == self.received@
        &&& self.dest_closed ==> self.src_closed && self.begin == self.end
    }

    /// Number of bytes the next read may take in: the free region that
    /// starts at `end` and does not wrap.
    pub closed spec fn recv_window(&self) -> nat {
        if self.begin <= self.end {
            if self.begin == 0 {
                (self.capacity - 1 - self.end) as nat
            } else {
                (self.capacity - self.end) as nat
            }
        } else {
            (self.begin - 1 - self.end) as nat
        }
    }

    /// Number of bytes the next write may hand out: the occupied region that
    /// starts at `begin` and does not wrap.
    pub closed spec fn send_window(&self) -> nat {
        if self.begin <= self.end {
            (self.end - self.begin) as nat
        } else {
            (self.capacity - self.begin) as nat
        }
    }

    /// The state apart from the two close flags.
    pub open spec fn same_data(&self, other: &Channel) -> bool {
        &&& self@ == other@
        &&& self.cap() == other.cap()
        &&& self.received() == other.received()
        &&& self.delivered() == other.delivered()
        &&& self.recv_window() == other.recv_window()
    }

    /// A well-formed buffer holds at most its capacity less one, and what it
    /// holds is exactly what came in and has not yet gone out, in order.
    pub proof fn lemma_no_loss(&self)
        requires
            self.wf(),
        ensures
            self@.len() <= self.cap() - 1,
            self.delivered() + self@ == self.received(),
            self.received().subrange(0, self.delivered().len() as int) == self.delivered(),
            self@.len() == 0 <==> self.send_window() == 0,
            self.send_window() <= self@.len(),
            self@.len() < self.cap() - 1 <==> self.recv_window() > 0,
    {
        assert(self.received().subrange(0, self.delivered().len() as int) =~= self.delivered());
    }

    /// Once the destination has been half-closed, the source had ended and
    /// every byte taken in had been handed on: the destination saw the whole
    /// stream, in order, before its end.
    pub proof fn lemma_half_close_after_delivery(&self)
        requires
            self.wf(),
            self.write_closed(),
        ensures
            self.read_closed(),
            self@.len() == 0,
            self.delivered() == self.received(),
    {
        assert(self.delivered() =~= self.delivered() + self@);
    }

    /// Creates an empty buffer with `buf_size` bytes of storage.
    pub fn new(buf_size: usize) -> (r: Channel)
        requires
            buf_size > 0,
        ensures
            r.wf(),
            r.cap() == buf_size,
            r@ == Seq::<u8>::empty(),
            r.received() == Seq::<u8>::empty(),
            r.delivered() == Seq::<u8>::empty(),
            !r.read_closed(),
            !r.write_closed(),
    {
        let r = Channel {
            buffer: vec![0u8; buf_size],
            begin: 0,
            end: 0,
            capacity: buf_size,
            src_closed: false,
            dest_closed: false,
            received: Ghost(Seq::empty()),
            delivered: Ghost(Seq::empty()),
        };
        assert(r@ =~= Seq::<u8>::empty());
        r
    }

    /// Whether the source has reported end of stream.
    pub fn src_closed(&self) -> (r: bool)
        ensures
            r == self.read_closed(),
    {
        self.src_closed
    }

    /// Whether the destination's write half has been shut down.
    pub fn dest_closed(&self) -> (r: bool)
        ensures
            r == self.write_closed(),
    {
        self.dest_closed
    }

    /// Number of bytes held.
    pub fn bytes_available(&self) -> (r: usize)
        requires
            self.wf(),
        ensures
            r == self@.len(),
    {
        if self.begin <= self.end {
            self.end - self.begin
        } else {
            self.capacity - self.begin + self.end
        }
    }

    /// Number of bytes that can still be taken in before the buffer is full.
    pub fn free_space(&self) -> (r: usize)
        requires
            self.wf(),
        ensures
            r == self.cap() - 1 - self@.len(),
    {
        if self.begin <= self.end {
            self.capacity - 1 - (self.end - self.begin)
        } else {
            self.begin - self.end - 1
        }
    }

    fn recv_limit(&self) -> (r: usize)
        requires
            self.wf(),
        ensures
            self.end <= r,
            r - self.end == self.recv_window(),
            r <= self.capacity,
    {
        if self.begin <= self.end {
            if self.begin == 0 {
                self.capacity - 1
            } else {
                self.capacity
            }
        } else {
            self.begin - 1
        }
    }

    fn send_limit(&self) -> (r: usize)
        requires
            self.wf(),
        ensures
            self.begin <= r <= self.capacity,
            r - self.begin == self.send_window(),
            self@.subrange(0, self.send_window() as int)
                == self.buffer@.subrange(self.begin as int, r as int),
    {
        if self.begin <= self.end {
            self.end
        } else {
            self.capacity
        }
    }

    /// Appends `data`, which must fit in the receive window.
    fn store(&mut self, data: &[u8])
        requires
            old(self).wf(),
            !old(self).read_closed(),
            0 < data@.len() <= old(self).recv_window(),
        ensures
            final(self).wf(),
            final(self)@ == old(self)@ + data@,
            final(self).received() == old(self).received() + data@,
            final(self).delivered() == old(self).delivered(),
            final(self).cap() == old(self).cap(),
            final(self).read_closed() == old(self).read_closed(),
            final(self).write_closed() == old(self).write_closed(),
    {
        let ghost old_view = self@;
        let ghost old_buf = self.buffer@;
        let start = self.end;
        let n = data.len();
        let limit = self.recv_limit();
        let mut i: usize = 0;
        while i < n
            invariant
                i <= n,
                n == data@.len(),
                start + n <= limit,
                limit <= self.capacity,
                self.buffer@.len() == old_buf.len(),
                self.capacity == old(self).capacity,
                start == old(self).end,
                forall|k: int| 0 <= k < start ==> self.buffer@[k] == old_buf[k],
                forall|k: int| start + n <= k < old_buf.len() ==> self.buffer@[k] == old_buf[k],
                forall|k: int| 0 <= k < i ==> self.buffer@[start + k] == data@[k],
                self.begin == old(self).begin,
                self.end == old(self).end,
                self.capacity == old_buf.len(),
                self.received == old(self).received,
                self.delivered == old(self).delivered,
                self.src_closed == old(self).src_closed,
                self.dest_closed == old(self).dest_closed,
            decreases n - i,
        {
            self.buffer.set(start + i, data[i]);
            i = i + 1;
        }
        let new_end = start + n;
        if new_end == self.capacity {
            self.end = 0;
        } else {
            self.end = new_end;
        }
        self.received = Ghost(self.received@ + data@);
        proof {
            let b = self.begin as int;
            let s = start as int;
            let c = self.capacity as int;
            assert(self.buffer@.subrange(s, s + n as int) =~= data@);
            if old(self).begin <= old(self).end {
                assert(old_view =~= old_buf.subrange(b, s));
                assert(self.buffer@.subrange(b, s) =~= old_buf.subrange(b, s));
                assert(self.buffer@.subrange(b, s + n as int) =~= self.buffer@.subrange(b, s)
                    + self.buffer@.subrange(s, s + n as int));
                if new_end == self.capacity {
                    assert(self.buffer@.subrange(0, 0) =~= Seq::<u8>::empty());
                    assert(self@ =~= self.buffer@.subrange(b, c));
                }
                assert(self@ =~= old_view + data@);
            } else {
                assert(self.buffer@.subrange(b, c) =~= old_buf.subrange(b, c));
                assert(self.buffer@.subrange(0, s) =~= old_buf.subrange(0, s));
                assert(self.buffer@.subrange(0, s + n as int) =~= self.buffer@.subrange(0, s)
                    + self.buffer@.subrange(s, s + n as int));
                assert(self@ =~= old_view + data@);
            }
            assert(self.delivered@ + self@ =~= self.received@);
        }
    }

    /// Drops the `n` oldest bytes, which must lie in the send window.
    fn consume(&mut self, n: usize)
        requires
            old(self).wf(),
            n <= old(self).send_window(),
        ensures
            final(self).wf(),
            final(self)@ == old(self)@.subrange(n as int, old(self)@.len() as int),
            final(self).delivered() == old(self).delivered() + old(self)@.subrange(0, n as int),
            final(self).received() == old(self).received(),
            final(self).cap() == old(self).cap(),
            final(self).read_closed() == old(self).read_closed(),
            final(self).write_closed() == old(self).write_closed(),
    {
        let ghost old_view = self@;
        let new_begin = self.begin + n;
        if new_begin == self.capacity {
            self.begin = 0;
        } else {
            self.begin = new_begin;
        }
        self.delivered = Ghost(self.delivered@ + old_view.subrange(0, n as int));
        proof {
            let b = old(self).begin as int;
            let e = self.end as int;
            let c = self.capacity as int;
            let buf = self.buffer@;
            if old(self).begin <= old(self).end {
                assert(self@ =~= old_view.subrange(n as int, old_view.len() as int));
            } else {
                if new_begin == self.capacity {
                    assert(self@ =~= buf.subrange(0, e));
                }
                assert(self@ =~= old_view.subrange(n as int, old_view.len() as int));
            }
            assert(self.delivered@ + self@ =~= old(self).delivered@ + old_view);
        }
    }

    /// Takes in the result of one read of at most [`Self::recv_window`] bytes:
    /// more bytes than that is an error, none means end of stream, and
    /// otherwise the bytes are appended.
    pub fn accept_read(&mut self, data: &[u8]) -> (r: Result<ChannelResult, StreamError>)
        requires
            old(self).wf(),
            !old(self).read_closed(),
            old(self).recv_window() > 0,
        ensures
            final(self).wf(),
            final(self).write_closed() == old(self).write_closed(),
            final(self).delivered() == old(self).delivered(),
            final(self).cap() == old(self).cap(),
            data@.len() > old(self).recv_window() ==> (r matches Err(StreamError::Overrun))
                && *final(self) == *old(self),
            data@.len() == 0 ==> (r matches Ok(ChannelResult::ReadClosed))
                && final(self).read_closed() && final(self).same_data(old(self)),
            0 < data@.len() <= old(self).recv_window() ==> (r matches Ok(
                ChannelResult::Success(n),
            ) && n == data@.len()),
            0 < data@.len() <= old(self).recv_window() ==> !final(self).read_closed()
                && final(self)@ == old(self)@ + data@ && final(self).received() == old(
                self).received() + data@,
    {
        let max = self.recv_limit() - self.end;
        if data.len() > max {
            return Err(StreamError::Overrun);
        }
        if data.len() == 0 {
            self.src_closed = true;
            return Ok(ChannelResult::ReadClosed);
        }
        self.store(data);
        Ok(ChannelResult::Success(data.len()))
    }

    /// Reads once from `src` into the free region that starts at `end`.
    ///
    /// Once the source has reported end of stream nothing more is read. When
    /// that region is empty `src` is not touched. Otherwise `src` is asked for
    /// at most [`Self::recv_window`] bytes and [`Self::accept_read`] takes the
    /// result in.
    pub fn recv_bytes<R: ByteStream>(&mut self, src: &mut R) -> (r: Result<
        ChannelResult,
        StreamError,
    >)
        requires
            old(self).wf(),
        ensures
            final(self).wf(),
            final(self).write_closed() == old(self).write_closed(),
            final(self).delivered() == old(self).delivered(),
            final(self).cap() == old(self).cap(),
            old(self).read_closed() ==> (r matches Ok(ChannelResult::ReadClosed))
                && *final(self) == *old(self) && *final(src) == *old(src),
            !old(self).read_closed() && old(self).recv_window() == 0 ==> (r matches Ok(
                ChannelResult::Success(0),
            )) && *final(self) == *old(self) && *final(src) == *old(src),
            final(src).sent() == old(src).sent(),
            final(src).is_shut() == old(src).is_shut(),
            r is Err ==> *final(self) == *old(self),
            (r matches Ok(ChannelResult::ReadClosed)) ==> final(self).read_closed()
                && final(self).same_data(old(self)),
            r is Ok && r->Ok_0 != ChannelResult::ReadClosed ==> final(self).read_closed()
                == old(self).read_closed(),
            r is Ok ==> r->Ok_0 != ChannelResult::WriteClosed,
            r is Err ==> final(src).taken() == old(src).taken() || final(src).taken().len()
                > old(src).taken().len() + old(self).recv_window(),
            r is Ok ==> final(src).taken() == old(src).taken() + final(self).received().subrange(
                old(self).received().len() as int,
                final(self).received().len() as int,
            ),
            r matches Ok(ChannelResult::Success(n)) ==> {
                &&& n <= old(self).recv_window()
                &&& (n == 0 <==> old(self).recv_window() == 0)
                &&& final(self)@.len() == old(self)@.len() + n
                &&& final(self)@.subrange(0, old(self)@.len() as int) == old(self)@
                &&& final(self).received() == old(self).received() + final(self)@.subrange(
                    old(self)@.len() as int,
                    final(self)@.len() as int,
                )
            },
    {
        let ghost old_received = self.received@;
        proof {
            assert(old_received.subrange(old_received.len() as int, old_received.len() as int)
                =~= Seq::<u8>::empty());
            assert(src.taken() + Seq::<u8>::empty() =~= src.taken());
        }
        if self.src_closed {
            return Ok(ChannelResult::ReadClosed);
        }
        let limit = self.recv_limit();
        if limit == self.end {
            return Ok(ChannelResult::Success(0));
        }
        let max = limit - self.end;
        let data = match src.read_bytes(max) {
            Ok(d) => d,
            Err(e) => return Err(e),
        };
        let ghost old_view = self@;
        let r = self.accept_read(data.as_slice());
        proof {
            if r is Ok && data@.len() > 0 {
                assert(self@.subrange(0, old_view.len() as int) =~= old_view);
                assert(self@.subrange(old_view.len() as int, self@.len() as int) =~= data@);
                assert(self.received@.subrange(old_received.len() as int, self.received@.len() as int)
                    =~= data@);
            }
        }
        r
    }

    /// Takes in the result of one write from the send window: more bytes than
    /// the window holds is an error, and otherwise that many bytes are
    /// removed from the front.
    pub fn accept_write(&mut self, written: usize) -> (r: Result<ChannelResult, StreamError>)
        requires
            old(self).wf(),
        ensures
            final(self).wf(),
            final(self).read_closed() == old(self).read_closed(),
            final(self).write_closed() == old(self).write_closed(),
            final(self).received() == old(self).received(),
            final(self).cap() == old(self).cap(),
            written > old(self).send_window() ==> (r matches Err(StreamError::Overrun))
                && *final(self) == *old(self),
            written <= old(self).send_window() ==> (r matches Ok(ChannelResult::Success(n))
                && n == written),
            written <= old(self).send_window() ==> final(self)@ == old(self)@.subrange(
                written as int,
                old(self)@.len() as int,
            ) && final(self).delivered() == old(self).delivered() + old(self)@.subrange(
                0,
                written as int,
            ),
    {
        let limit = self.send_limit();
        if written > limit - self.begin {
            return Err(StreamError::Overrun);
        }
        self.consume(written);
        Ok(ChannelResult::Success(written))
    }

    /// Writes once to `dest` from the occupied region that starts at `begin`.
    ///
    /// Once the destination has been half-closed nothing more is written.
    /// When the buffer is empty `dest` is not touched. Otherwise `dest` is
    /// handed the first [`Self::send_window`] bytes held and
    /// [`Self::accept_write`] takes the result in.
    pub fn send_bytes<W: ByteStream>(&mut self, dest: &mut W) -> (r: Result<
        ChannelResult,
        StreamError,
    >)
        requires
            old(self).wf(),
        ensures
            final(self).wf(),
            final(self).read_closed() == old(self).read_closed(),
            final(self).write_closed() == old(self).write_closed(),
            final(self).received() == old(self).received(),
            final(self).cap() == old(self).cap(),
            old(self).write_closed() ==> (r matches Ok(ChannelResult::WriteClosed))
                && *final(self) == *old(self) && *final(dest) == *old(dest),
            !old(self).write_closed() && old(self)@.len() == 0 ==> (r matches Ok(
                ChannelResult::Success(0),
            )) && *final(self) == *old(self) && *final(dest) == *old(dest),
            final(dest).taken() == old(dest).taken(),
            final(dest).is_shut() == old(dest).is_shut(),
            r is Err ==> *final(self) == *old(self),
            r is Err ==> final(dest).sent() == old(dest).sent() || (r matches Err(
                StreamError::Overrun,
            )),
            r is Ok ==> r->Ok_0 != ChannelResult::ReadClosed,
            (r matches Ok(ChannelResult::WriteClosed)) ==> old(self).write_closed(),
            r matches Ok(ChannelResult::Success(n)) ==> {
                &&& n <= old(self).send_window()
                &&& n <= old(self)@.len()
                &&& final(self)@ == old(self)@.subrange(n as int, old(self)@.len() as int)
                &&& final(self).delivered() == old(self).delivered() + old(self)@.subrange(
                    0,
                    n as int,
                )
                &&& final(dest).sent() == old(dest).sent() + old(self)@.subrange(0, n as int)
            },
    {
        if self.dest_closed {
            return Ok(ChannelResult::WriteClosed);
        }
        let limit = self.send_limit();
        proof {
            self.lemma_no_loss();
        }
        if limit == self.begin {
            return Ok(ChannelResult::Success(0));
        }
        let region = slice_subrange(self.buffer.as_slice(), self.begin, limit);
        let ghost held = self@;
        let written = match dest.write_bytes(region) {
            Ok(n) => n,
            Err(e) => return Err(e),
        };
        let r = self.accept_write(written);
        proof {
            if r is Ok {
                assert(region@.subrange(0, written as int) =~= held.subrange(0, written as int));
            }
        }
        r
    }

    /// Whether the destination is due to be half-closed: the source has
    /// reported end of stream, every byte has been delivered, and the
    /// destination is still open for writing.
    pub open spec fn shutdown_due(&self) -> bool {
        self.read_closed() && !self.write_closed() && self@.len() == 0
    }

    /// Half-closes `dest` when [`Self::shutdown_due`] holds, and records it.
    /// Returns whether the half-close happened in this call.
    pub fn check_shutdown<W: ByteStream>(&mut self, dest: &mut W) -> (r: Result<bool, StreamError>)
        requires
            old(self).wf(),
        ensures
            final(self).wf(),
            final(self).same_data(old(self)),
            final(self).read_closed() == old(self).read_closed(),
            !old(self).shutdown_due() ==> (r matches Ok(false)) && *final(self) == *old(self),
            r is Err ==> *final(self) == *old(self),
            (r matches Ok(true)) ==> old(self).shutdown_due() && final(self).write_closed()
                && final(dest).is_shut(),
            !old(self).shutdown_due() ==> *final(dest) == *old(dest),
            old(dest).is_shut() ==> final(dest).is_shut(),
            final(dest).taken() == old(dest).taken(),
            final(dest).sent() == old(dest).sent(),
            old(self).shutdown_due() ==> (r is Err || (r matches Ok(true))),
    {
        if self.src_closed && !self.dest_closed {
            if self.bytes_available() == 0 {
                match dest.shutdown_write() {
                    Ok(()) => {},
                    Err(e) => return Err(e),
                }
                self.dest_closed = true;
                return Ok(true);
            }
        }
        Ok(false)
    }
}

} // verus!
