use vstd::prelude::*;

use crate::channel::{Channel, ChannelResult};
use crate::stream::{ByteStream, StreamError};

verus! {

/// Storage size of each direction's buffer.
pub const BUFFER_SIZE: usize = 8192;

/// A set of readiness conditions: what a socket waits for, or what it shows.
#[derive(PartialEq, Eq, Structural, Debug, Clone, Copy)]
pub struct Interest {
    pub readable: bool,
    pub writable: bool,
}

/// A stream together with the identifier its readiness is reported under.
pub struct TokenStream<S> {
    pub token: usize,
    pub stream: S,
}

/// The interest set computed for one socket after an event.
#[derive(PartialEq, Eq, Structural, Debug, Clone, Copy)]
pub struct TokenReady {
    pub token: usize,
    pub ready: Interest,
}

/// What the caller is to do after an event.
#[derive(PartialEq, Eq, Structural, Debug, Clone, Copy)]
pub enum ConnectionResult {
    /// Re-register the event's socket and then the other socket.
    Continue(TokenReady, TokenReady),
    /// Both directions are closed: drop the sockets and forget the tokens.
    Close,
}

/// `b` is `a` followed by zero or more further bytes.
pub open spec fn extends(a: Seq<u8>, b: Seq<u8>) -> bool {
    a.len() <= b.len() && b.subrange(0, a.len() as int) == a
}

/// What `b` holds beyond its prefix of the length of `a`.
pub open spec fn added(a: Seq<u8>, b: Seq<u8>) -> Seq<u8> {
    b.subrange(a.len() as int, b.len() as int)
}

/// A stream record that was `base + r0` and grew by what `r0` grew by to
/// become `r1` is `base + r1`.
proof fn lemma_record_grows(base: Seq<u8>, r0: Seq<u8>, r1: Seq<u8>, t0: Seq<u8>, t1: Seq<u8>)
    requires
        t0 == base + r0,
        extends(r0, r1),
        t1 == t0 + added(r0, r1),
    ensures
        t1 == base + r1,
{
    assert(r1 =~= r0 + added(r0, r1));
    assert(t1 =~= base + r1);
}

/// What a socket waits for, given the buffer it fills and the buffer it drains:
/// readable while the first has room, writable while the second holds bytes.
pub open spec fn interest_of(inbound: Channel, outbound: Channel) -> Interest {
    Interest { readable: inbound@.len() < inbound.cap() - 1, writable: outbound@.len() > 0 }
}

/// How one event may change the buffer filled from the event's socket
/// (`inbound`) and the one drained into it (`outbound`). `ok` says whether the
/// event was handled without an error.
pub open spec fn step_holds(
    old_in: Channel,
    new_in: Channel,
    old_out: Channel,
    new_out: Channel,
    ready: Interest,
    ok: bool,
) -> bool {
    &&& new_in.wf()
    &&& new_out.wf()
    &&& new_in.cap() == old_in.cap()
    &&& new_out.cap() == old_out.cap()
    // the inbound buffer is only filled, the outbound one only drained
    &&& new_in.delivered() == old_in.delivered()
    &&& new_out.received() == old_out.received()
    &&& new_out.read_closed() == old_out.read_closed()
    &&& extends(old_in.received(), new_in.received())
    &&& extends(old_out.delivered(), new_out.delivered())
    &&& old_in.read_closed() ==> new_in.read_closed()
    &&& !ready.readable ==> new_in.received() == old_in.received() && new_in.read_closed()
        == old_in.read_closed()
    &&& !ready.writable ==> new_out.delivered() == old_out.delivered()
    // a half-close is never undone, and happens only once all is delivered
    &&& old_in.write_closed() ==> new_in.write_closed()
    &&& old_out.write_closed() ==> new_out.write_closed()
    &&& new_in.write_closed() && !old_in.write_closed() ==> new_in@.len() == 0
        && new_in.read_closed()
    &&& new_out.write_closed() && !old_out.write_closed() ==> new_out@.len() == 0
        && new_out.read_closed()
    // a readable socket with room to read into makes progress
    &&& ok && ready.readable && !old_in.read_closed() && old_in.recv_window() > 0 ==> (
    new_in.received().len() > old_in.received().len() || new_in.read_closed())
    // and no half-close that is due is left undone
    &&& ok ==> !new_in.shutdown_due() && !new_out.shutdown_due()
}

/// Reads from the event's socket when it is readable, writes to it when it is
/// writable, then half-closes whichever side is due.
fn relay_step<S: ByteStream>(
    inbound: &mut Channel,
    outbound: &mut Channel,
    event_stream: &mut S,
    other_stream: &mut S,
    closing: &mut bool,
    ready: Interest,
) -> (r: Result<(), StreamError>)
    requires
        old(inbound).wf(),
        old(outbound).wf(),
        *old(closing) == (old(inbound).read_closed() || old(outbound).read_closed()),
    ensures
        step_holds(*old(inbound), *final(inbound), *old(outbound), *final(outbound), ready, r is Ok),
        *final(closing) == (final(inbound).read_closed() || final(outbound).read_closed()),
        !ready.readable && !ready.writable && !old(inbound).shutdown_due()
            && !old(outbound).shutdown_due() ==> r is Ok,
        // the other stream is touched only to half-close it, and only when due
        *final(other_stream) != *old(other_stream) ==> final(inbound).read_closed() && final(
            inbound)@.len() == 0 && !old(inbound).write_closed() && (r is Ok ==> final(
            inbound).write_closed()),
        final(other_stream).taken() == old(other_stream).taken(),
        final(other_stream).sent() == old(other_stream).sent(),
        old(other_stream).is_shut() ==> final(other_stream).is_shut(),
        old(event_stream).is_shut() ==> final(event_stream).is_shut(),
        final(inbound).write_closed() && !old(inbound).write_closed() ==> final(other_stream).is_shut(),
        final(outbound).write_closed() && !old(outbound).write_closed() ==> final(event_stream).is_shut(),
        r is Ok ==> final(event_stream).taken() == old(event_stream).taken() + added(
            old(inbound).received(),
            final(inbound).received(),
        ),
        r is Ok ==> final(event_stream).sent() == old(event_stream).sent() + added(
            old(outbound).delivered(),
            final(outbound).delivered(),
        ),
{
    let ghost in0 = *inbound;
    let ghost out0 = *outbound;
    let ghost es0 = *event_stream;
    proof {
        assert(in0.received().subrange(0, in0.received().len() as int) =~= in0.received());
        assert(out0.delivered().subrange(0, out0.delivered().len() as int) =~= out0.delivered());
        assert(added(in0.received(), in0.received()) =~= Seq::<u8>::empty());
        assert(added(out0.delivered(), out0.delivered()) =~= Seq::<u8>::empty());
        assert(es0.taken() + Seq::<u8>::empty() =~= es0.taken());
        assert(es0.sent() + Seq::<u8>::empty() =~= es0.sent());
    }
    if ready.readable {
        let ghost before = *inbound;
        match inbound.recv_bytes(event_stream) {
            Ok(ChannelResult::ReadClosed) => {
                *closing = true;
            },
            Ok(_) => {},
            Err(e) => return Err(e),
        }
        proof {
            let a = before.received();
            let b = inbound.received();
            assert(b.subrange(0, a.len() as int) =~= a);
        }
    }
    if ready.writable {
        let ghost before = *outbound;
        match outbound.send_bytes(event_stream) {
            Ok(_) => {},
            Err(e) => return Err(e),
        }
        proof {
            let a = before.delivered();
            let b = outbound.delivered();
            assert(b.subrange(0, a.len() as int) =~= a);
            assert(added(a, b) =~= b.subrange(a.len() as int, b.len() as int));
            if b.len() > a.len() {
                let n = (b.len() - a.len()) as int;
                assert(added(a, b) =~= before@.subrange(0, n));
            }
        }
    }
    if *closing {
        match inbound.check_shutdown(other_stream) {
            Ok(_) => {},
            Err(e) => return Err(e),
        }
        match outbound.check_shutdown(event_stream) {
            Ok(_) => {},
            Err(e) => return Err(e),
        }
    }
    Ok(())
}

/// The interest set of a socket that fills `inbound` and drains `outbound`.
fn stream_interest(inbound: &Channel, outbound: &Channel) -> (r: Interest)
    requires
        inbound.wf(),
        outbound.wf(),
    ensures
        r == interest_of(*inbound, *outbound),
{
    Interest { readable: inbound.free_space() > 0, writable: outbound.bytes_available() > 0 }
}

/// One relayed connection: a client socket, a server socket, and a buffer
/// for each direction.
pub struct Connection<S> {
    client: TokenStream<S>,
    server: TokenStream<S>,
    from_client: Channel,
    from_server: Channel,
    closing: bool,
    client_read_before: Ghost<Seq<u8>>,
    client_written_before: Ghost<Seq<u8>>,
    server_read_before: Ghost<Seq<u8>>,
    server_written_before: Ghost<Seq<u8>>,
}

impl<S: ByteStream> Connection<S> {
    pub closed spec fn client_token(&self) -> usize {
        self.client.token
    }

    pub closed spec fn server_token(&self) -> usize {
        self.server.token
    }

    /// The client socket.
    pub closed spec fn client_stream(&self) -> S {
        self.client.stream
    }

    /// The server socket.
    pub closed spec fn server_stream(&self) -> S {
        self.server.stream
    }

    /// The socket that `token` names.
    pub open spec fn stream_of(&self, token: usize) -> S {
        if token == self.client_token() {
            self.client_stream()
        } else {
            self.server_stream()
        }
    }

    /// The buffer carrying bytes from the client to the server.
    pub closed spec fn to_server(&self) -> Channel {
        self.from_client
    }

    /// The buffer carrying bytes from the server to the client.
    pub closed spec fn to_client(&self) -> Channel {
        self.from_server
    }

    /// Whether either side has reported end of stream.
    pub closed spec fn is_closing(&self) -> bool {
        self.closing
    }

    pub closed spec fn wf(&self) -> bool {
        &&& self.from_client.wf()
        &&& self.from_server.wf()
        &&& self.client.token != self.server.token
        &&& self.closing == (self.from_client.read_closed() || self.from_server.read_closed())
    }

    /// What had been read from the client socket before this connection began.
    pub closed spec fn client_read_before(&self) -> Seq<u8> {
        self.client_read_before@
    }

    /// What had been written to the client socket before this connection began.
    pub closed spec fn client_written_before(&self) -> Seq<u8> {
        self.client_written_before@
    }

    /// What had been read from the server socket before this connection began.
    pub closed spec fn server_read_before(&self) -> Seq<u8> {
        self.server_read_before@
    }

    /// What had been written to the server socket before this connection began.
    pub closed spec fn server_written_before(&self) -> Seq<u8> {
        self.server_written_before@
    }

    /// The buffers' records match the sockets: each buffer has taken in
    /// exactly what was read from its source socket since the start, has
    /// handed out exactly what was written to its destination socket, and a
    /// destination recorded as half-closed has been shut down.
    pub open spec fn faithful(&self) -> bool {
        &&& self.client_stream().taken() == self.client_read_before() + self.to_server().received()
        &&& self.server_stream().sent() == self.server_written_before()
            + self.to_server().delivered()
        &&& self.server_stream().taken() == self.server_read_before() + self.to_client().received()
        &&& self.client_stream().sent() == self.client_written_before()
            + self.to_client().delivered()
        &&& self.to_server().write_closed() ==> self.server_stream().is_shut()
        &&& self.to_client().write_closed() ==> self.client_stream().is_shut()
    }

    /// What one call of [`Self::handle_event`] does: it takes `self` to `new`
    /// and returns `r` for readiness `ready` on the socket `token` names.
    pub open spec fn event_step(
        &self,
        new: Connection<S>,
        token: usize,
        ready: Interest,
        r: Result<ConnectionResult, StreamError>,
    ) -> bool {
        &&& new.wf()
        &&& new.client_token() == self.client_token()
        &&& new.server_token() == self.server_token()
        &&& new.client_read_before() == self.client_read_before()
        &&& new.client_written_before() == self.client_written_before()
        &&& new.server_read_before() == self.server_read_before()
        &&& new.server_written_before() == self.server_written_before()
        &&& step_holds(
            self.inbound(token),
            new.inbound(token),
            self.outbound(token),
            new.outbound(token),
            ready,
            r is Ok,
        )
        &&& new.is_closing() == (new.to_server().read_closed() || new.to_client().read_closed())
        // with nothing to read, write or half-close, no stream is called and nothing fails
        &&& !ready.readable && !ready.writable && !self.to_server().shutdown_due()
            && !self.to_client().shutdown_due() ==> r is Ok
        // the other socket is touched only by a half-close that is due now
        &&& new.stream_of(self.peer_token(token)) != self.stream_of(self.peer_token(token))
            ==> new.inbound(token).read_closed() && new.inbound(token)@.len() == 0
            && !self.inbound(token).write_closed() && (r is Ok ==> new.inbound(
            token).write_closed())
        &&& self.faithful() && r is Ok ==> new.faithful()
        &&& (r matches Ok(ConnectionResult::Close)) <==> (r is Ok && new.finished())
        &&& r matches Ok(ConnectionResult::Continue(a, b)) ==> {
            &&& a.token == token
            &&& a.ready == interest_of(new.inbound(token), new.outbound(token))
            &&& b.token == new.peer_token(token)
            &&& b.ready == interest_of(new.outbound(token), new.inbound(token))
        }
    }

    /// Both directions have seen end of stream and have been half-closed.
    pub open spec fn finished(&self) -> bool {
        &&& self.to_server().read_closed()
        &&& self.to_server().write_closed()
        &&& self.to_client().read_closed()
        &&& self.to_client().write_closed()
    }

    /// The buffer filled from the socket that `token` names.
    pub open spec fn inbound(&self, token: usize) -> Channel {
        if token == self.client_token() {
            self.to_server()
        } else {
            self.to_client()
        }
    }

    /// The buffer drained into the socket that `token` names.
    pub open spec fn outbound(&self, token: usize) -> Channel {
        if token == self.client_token() {
            self.to_client()
        } else {
            self.to_server()
        }
    }

    /// The token of the socket that `token` does not name.
    pub open spec fn peer_token(&self, token: usize) -> usize {
        if token == self.client_token() {
            self.server_token()
        } else {
            self.client_token()
        }
    }

    /// A finished connection whose records match its sockets has written to
    /// each socket exactly the bytes read from the other one, in order, and
    /// has shut down the write half of each.
    pub proof fn lemma_finished_relays_everything(&self)
        requires
            self.wf(),
            self.faithful(),
            self.finished(),
        ensures
            self.server_stream().sent() == self.server_written_before() + added(
                self.client_read_before(),
                self.client_stream().taken(),
            ),
            self.client_stream().sent() == self.client_written_before() + added(
                self.server_read_before(),
                self.server_stream().taken(),
            ),
            self.server_stream().is_shut(),
            self.client_stream().is_shut(),
    {
        self.to_server().lemma_half_close_after_delivery();
        self.to_client().lemma_half_close_after_delivery();
        assert(added(self.client_read_before(), self.client_stream().taken())
            =~= self.to_server().received());
        assert(added(self.server_read_before(), self.server_stream().taken())
            =~= self.to_client().received());
    }

    /// Relays between `client` and `server` through buffers of the default size.
    pub fn new(client: TokenStream<S>, server: TokenStream<S>) -> (r: Connection<S>)
        requires
            client.token != server.token,
        ensures
            r.wf(),
            r.client_token() == client.token,
            r.server_token() == server.token,
            r.to_server().cap() == BUFFER_SIZE,
            r.to_client().cap() == BUFFER_SIZE,
            r.to_server()@.len() == 0,
            r.to_client()@.len() == 0,
            r.to_server().received().len() == 0,
            r.to_client().received().len() == 0,
            !r.is_closing(),
            !r.to_server().write_closed(),
            !r.to_client().write_closed(),
            !r.to_server().read_closed(),
            !r.to_client().read_closed(),
            r.faithful(),
            r.client_stream() == client.stream,
            r.server_stream() == server.stream,
            r.client_read_before() == client.stream.taken(),
            r.client_written_before() == client.stream.sent(),
            r.server_read_before() == server.stream.taken(),
            r.server_written_before() == server.stream.sent(),
    {
        Self::with_capacity(client, server, BUFFER_SIZE)
    }

    /// Relays between `client` and `server` through buffers of `buf_size`
    /// bytes of storage each.
    pub fn with_capacity(client: TokenStream<S>, server: TokenStream<S>, buf_size: usize) -> (r:
        Connection<S>)
        requires
            client.token != server.token,
            buf_size > 0,
        ensures
            r.wf(),
            r.client_token() == client.token,
            r.server_token() == server.token,
            r.to_server().cap() == buf_size,
            r.to_client().cap() == buf_size,
            r.to_server()@.len() == 0,
            r.to_client()@.len() == 0,
            r.to_server().received().len() == 0,
            r.to_client().received().len() == 0,
            !r.is_closing(),
            !r.to_server().write_closed(),
            !r.to_client().write_closed(),
            !r.to_server().read_closed(),
            !r.to_client().read_closed(),
            r.faithful(),
            r.client_stream() == client.stream,
            r.server_stream() == server.stream,
            r.client_read_before() == client.stream.taken(),
            r.client_written_before() == client.stream.sent(),
            r.server_read_before() == server.stream.taken(),
            r.server_written_before() == server.stream.sent(),
    {
        let from_client = Channel::new(buf_size);
        let from_server = Channel::new(buf_size);
        let ghost client_read_before = client.stream.taken();
        let ghost client_written_before = client.stream.sent();
        let ghost server_read_before = server.stream.taken();
        let ghost server_written_before = server.stream.sent();
        let r = Connection {
            client,
            server,
            from_client,
            from_server,
            closing: false,
            client_read_before: Ghost(client_read_before),
            client_written_before: Ghost(client_written_before),
            server_read_before: Ghost(server_read_before),
            server_written_before: Ghost(server_written_before),
        };
        assert(client_read_before + Seq::<u8>::empty() =~= client_read_before);
        assert(client_written_before + Seq::<u8>::empty() =~= client_written_before);
        assert(server_read_before + Seq::<u8>::empty() =~= server_read_before);
        assert(server_written_before + Seq::<u8>::empty() =~= server_written_before);
        r
    }

    /// The client's token and the server's token.
    pub fn tokens(&self) -> (r: (usize, usize))
        ensures
            r == (self.client_token(), self.server_token()),
    {
        (self.client.token, self.server.token)
    }

    /// The client socket.
    pub fn client(&self) -> (r: &S)
        ensures
            *r == self.client_stream(),
    {
        &self.client.stream
    }

    /// The server socket.
    pub fn server(&self) -> (r: &S)
        ensures
            *r == self.server_stream(),
    {
        &self.server.stream
    }

    /// Whether both directions are closed.
    pub fn all_closed(&self) -> (r: bool)
        ensures
            r == self.finished(),
    {
        self.from_client.src_closed() && self.from_client.dest_closed()
            && self.from_server.src_closed() && self.from_server.dest_closed()
    }

    /// Handles readiness `ready` reported for the socket named by `token`.
    ///
    /// Reads from that socket if it is readable and writes to it if it is
    /// writable; once either side has reported end of stream, half-closes each
    /// destination whose source has ended and whose bytes have all been
    /// delivered. Then reports `Close` when both directions are closed, and
    /// otherwise the interest sets of the event's socket and of the other one.
    pub fn handle_event(&mut self, token: usize, ready: Interest) -> (r: Result<
        ConnectionResult,
        StreamError,
    >)
        requires
            old(self).wf(),
            token == old(self).client_token() || token == old(self).server_token(),
        ensures
            old(self).event_step(*final(self), token, ready, r),
    {
        let is_client = token == self.client.token;
        let ghost before = *self;
        let res = if is_client {
            relay_step(
                &mut self.from_client,
                &mut self.from_server,
                &mut self.client.stream,
                &mut self.server.stream,
                &mut self.closing,
                ready,
            )
        } else {
            relay_step(
                &mut self.from_server,
                &mut self.from_client,
                &mut self.server.stream,
                &mut self.client.stream,
                &mut self.closing,
                ready,
            )
        };
        match res {
            Ok(()) => {},
            Err(e) => return Err(e),
        }
        proof {
            if before.faithful() {
                if is_client {
                    lemma_record_grows(
                        before.client_read_before@,
                        before.from_client.received(),
                        self.from_client.received(),
                        before.client.stream.taken(),
                        self.client.stream.taken(),
                    );
                    lemma_record_grows(
                        before.client_written_before@,
                        before.from_server.delivered(),
                        self.from_server.delivered(),
                        before.client.stream.sent(),
                        self.client.stream.sent(),
                    );
                } else {
                    lemma_record_grows(
                        before.server_read_before@,
                        before.from_server.received(),
                        self.from_server.received(),
                        before.server.stream.taken(),
                        self.server.stream.taken(),
                    );
                    lemma_record_grows(
                        before.server_written_before@,
                        before.from_client.delivered(),
                        self.from_client.delivered(),
                        before.server.stream.sent(),
                        self.server.stream.sent(),
                    );
                }
            }
        }
        if self.all_closed() {
            return Ok(ConnectionResult::Close);
        }
        if is_client {
            Ok(
                ConnectionResult::Continue(
                    TokenReady {
                        token: self.client.token,
                        ready: stream_interest(&self.from_client, &self.from_server),
                    },
                    TokenReady {
                        token: self.server.token,
                        ready: stream_interest(&self.from_server, &self.from_client),
                    },
                ),
            )
        } else {
            Ok(
                ConnectionResult::Continue(
                    TokenReady {
                        token: self.server.token,
                        ready: stream_interest(&self.from_server, &self.from_client),
                    },
                    TokenReady {
                        token: self.client.token,
                        ready: stream_interest(&self.from_client, &self.from_server),
                    },
                ),
            )
        }
    }
}

} // verus!
