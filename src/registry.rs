use vstd::prelude::*;

use crate::connection::{Connection, ConnectionResult, Interest, TokenReady};
use crate::stream::{ByteStream, StreamError};

verus! {

/// Largest number of connections relayed at one time.
pub const MAX_CONNECTIONS_COUNT: usize = 1024;

/// What the reactor is to do after an event has been dispatched.
pub enum Dispatch<S> {
    /// Re-register the two sockets with these interest sets.
    Reregister(TokenReady, TokenReady),
    /// The connection finished and was removed: deregister its sockets.
    Closed(Connection<S>),
    /// The connection failed and was removed: deregister its sockets.
    Failed(Connection<S>, StreamError),
    /// No live connection owns the token.
    Unknown,
}

/// Whether `c` owns the socket that `token` names.
pub open spec fn owns<S: ByteStream>(c: Connection<S>, token: usize) -> bool {
    c.client_token() == token || c.server_token() == token
}

/// No token is owned by both `a` and `b`.
pub open spec fn disjoint<S: ByteStream>(a: Connection<S>, b: Connection<S>) -> bool {
    &&& a.client_token() != b.client_token()
    &&& a.client_token() != b.server_token()
    &&& a.server_token() != b.client_token()
    &&& a.server_token() != b.server_token()
}

/// How a dispatch outcome `r`, with the live list going from `before` to
/// `after`, follows from the owning connection at index `i` stepping to `c2`
/// with result `res`: it stays (at the end) when it continues, and is removed
/// and handed back when it closes or fails.
pub open spec fn dispatch_follows<S: ByteStream>(
    before: Seq<Connection<S>>,
    after: Seq<Connection<S>>,
    i: int,
    c2: Connection<S>,
    res: Result<ConnectionResult, StreamError>,
    r: Dispatch<S>,
) -> bool {
    match res {
        Ok(ConnectionResult::Continue(a, b)) => r == Dispatch::<S>::Reregister(a, b) && after
            == before.remove(i).push(c2),
        Ok(ConnectionResult::Close) => r == Dispatch::<S>::Closed(c2) && after == before.remove(i),
        Err(e) => r == Dispatch::<S>::Failed(c2, e) && after == before.remove(i),
    }
}

/// The live connections, each reachable by either of its two tokens.
pub struct Registry<S> {
    conns: Vec<Connection<S>>,
    max: usize,
}

impl<S: ByteStream> Registry<S> {
    /// The live connections, in no particular order.
    pub closed spec fn live(&self) -> Seq<Connection<S>> {
        self.conns@
    }

    /// The most connections that may be live at once.
    pub closed spec fn limit(&self) -> nat {
        self.max as nat
    }

    pub open spec fn holds_token(&self, token: usize) -> bool {
        exists|i: int| 0 <= i < self.live().len() && owns(#[trigger] self.live()[i], token)
    }

    /// Whether [`Self::insert`] turns `conn` away: the registry is at its
    /// limit, or one of the tokens of `conn` is already held.
    pub open spec fn refuses(&self, conn: Connection<S>) -> bool {
        self.live().len() >= self.limit() || self.holds_token(conn.client_token())
            || self.holds_token(conn.server_token())
    }

    /// Every token held is below `bound`.
    pub open spec fn tokens_below(&self, bound: nat) -> bool {
        forall|i: int|
            0 <= i < self.live().len() ==> (#[trigger] self.live()[i]).client_token() < bound
                && self.live()[i].server_token() < bound
    }

    pub closed spec fn wf(&self) -> bool {
        &&& self.conns@.len() <= self.max
        &&& forall|i: int| 0 <= i < self.conns@.len() ==> (#[trigger] self.conns@[i]).wf()
        &&& forall|i: int, j: int|
            0 <= i < self.conns@.len() && 0 <= j < self.conns@.len() && i != j ==> disjoint(#[trigger] self.conns@[i], #[trigger] self.conns@[j])
    }

    /// An empty registry that admits at most `max` live connections.
    pub fn new(max: usize) -> (r: Registry<S>)
        ensures
            r.wf(),
            r.live().len() == 0,
            r.limit() == max,
    {
        Registry { conns: Vec::new(), max }
    }

    /// Number of live connections.
    pub fn len(&self) -> (r: usize)
        ensures
            r == self.live().len(),
    {
        self.conns.len()
    }

    /// Whether one more connection may be admitted.
    pub fn has_room(&self) -> (r: bool)
        ensures
            r == (self.live().len() < self.limit()),
    {
        self.conns.len() < self.max
    }

    /// Index of the live connection that owns `token`.
    fn find(&self, token: usize) -> (r: Option<usize>)
        requires
            self.wf(),
        ensures
            r is None <==> !self.holds_token(token),
            r matches Some(i) ==> i < self.live().len() && owns(self.live()[i as int], token),
    {
        let mut i: usize = 0;
        while i < self.conns.len()
            invariant
                i <= self.conns@.len(),
                forall|k: int| 0 <= k < i ==> !owns(#[trigger] self.conns@[k], token),
            decreases self.conns@.len() - i,
        {
            let (c, s) = self.conns[i].tokens();
            if c == token || s == token {
                return Some(i);
            }
            i = i + 1;
        }
        None
    }

    /// Whether a live connection owns `token`.
    pub fn contains_token(&self, token: usize) -> (r: bool)
        requires
            self.wf(),
        ensures
            r == self.holds_token(token),
    {
        self.find(token).is_some()
    }

    /// The socket that `token` names, if a live connection owns it.
    pub fn stream(&self, token: usize) -> (r: Option<&S>)
        requires
            self.wf(),
        ensures
            r is None <==> !self.holds_token(token),
            r matches Some(st) ==> exists|i: int|
                0 <= i < self.live().len() && owns(#[trigger] self.live()[i], token) && *st
                    == self.live()[i].stream_of(token),
    {
        match self.find(token) {
            Some(i) => {
                let c = &self.conns[i];
                let (client_token, _) = c.tokens();
                if client_token == token {
                    Some(c.client())
                } else {
                    Some(c.server())
                }
            },
            None => None,
        }
    }

    /// Admission control: a registry at its limit refuses every connection,
    /// and one below its limit takes any connection whose tokens were issued
    /// after every token it holds (as [`crate::token_gen::TokenGen`] issues
    /// them), for instance once a live connection has finished and been
    /// removed.
    pub proof fn lemma_admission(&self, conn: Connection<S>, bound: nat)
        requires
            self.tokens_below(bound),
            conn.client_token() >= bound,
            conn.server_token() >= bound,
        ensures
            self.live().len() >= self.limit() ==> self.refuses(conn),
            self.live().len() < self.limit() ==> !self.refuses(conn),
    {
        assert forall|i: int| 0 <= i < self.live().len() implies !owns(
            #[trigger] self.live()[i],
            conn.client_token(),
        ) && !owns(self.live()[i], conn.server_token()) by {}
    }

    /// Inserts `conn` if there is room and neither of its tokens is taken;
    /// otherwise hands it back unchanged.
    pub fn insert(&mut self, conn: Connection<S>) -> (r: Result<(), Connection<S>>)
        requires
            old(self).wf(),
            conn.wf(),
        ensures
            final(self).wf(),
            final(self).limit() == old(self).limit(),
            r is Err <==> old(self).refuses(conn),
            r matches Err(c) ==> c == conn && final(self).live() == old(self).live(),
            r is Ok ==> final(self).live() == old(self).live().push(conn),
    {
        if self.conns.len() >= self.max {
            return Err(conn);
        }
        let (c, s) = conn.tokens();
        if self.contains_token(c) || self.contains_token(s) {
            return Err(conn);
        }
        let ghost before = self.conns@;
        self.conns.push(conn);
        proof {
            assert forall|i: int, j: int|
                0 <= i < self.conns@.len() && 0 <= j < self.conns@.len() && i != j implies disjoint(#[trigger] self.conns@[i], #[trigger] self.conns@[j]) by {
                if i < before.len() && j < before.len() {
                    assert(self.conns@[i] == before[i]);
                    assert(self.conns@[j] == before[j]);
                } else if i == before.len() {
                    assert(self.conns@[j] == before[j]);
                    assert(old(self).live()[j] == before[j]);
                    assert(!owns(old(self).live()[j], c) && !owns(old(self).live()[j], s));
                } else {
                    assert(self.conns@[i] == before[i]);
                    assert(old(self).live()[i] == before[i]);
                    assert(!owns(old(self).live()[i], c) && !owns(old(self).live()[i], s));
                }
            }
        }
        Ok(())
    }

    /// Hands readiness `ready` for `token` to the connection that owns it.
    ///
    /// A connection that finishes, or whose streams fail, is removed and
    /// handed back so that its sockets can be deregistered and dropped.
    pub fn dispatch(&mut self, token: usize, ready: Interest) -> (r: Dispatch<S>)
        requires
            old(self).wf(),
        ensures
            final(self).wf(),
            final(self).limit() == old(self).limit(),
            r is Unknown <==> !old(self).holds_token(token),
            r is Unknown ==> final(self).live() == old(self).live(),
            r is Reregister ==> final(self).live().len() == old(self).live().len(),
            r is Closed || r is Failed ==> final(self).live().len() == old(self).live().len() - 1
                && !final(self).holds_token(token),
            old(self).holds_token(token) ==> exists|
                i: int,
                c2: Connection<S>,
                res: Result<ConnectionResult, StreamError>,
            |
                0 <= i < old(self).live().len() && owns(old(self).live()[i], token) && #[trigger] old(self).live()[i].event_step(c2, token, ready, res) && dispatch_follows(
                    old(self).live(),
                    final(self).live(),
                    i,
                    c2,
                    res,
                    r,
                ),
            r matches Dispatch::Closed(c) ==> !final(self).holds_token(c.client_token())
                && !final(self).holds_token(c.server_token()),
            r matches Dispatch::Failed(c, _) ==> !final(self).holds_token(c.client_token())
                && !final(self).holds_token(c.server_token()),
            forall|b: nat| old(self).tokens_below(b) ==> #[trigger] final(self).tokens_below(b),
            r matches Dispatch::Closed(c) ==> c.finished() && owns(c, token),
            r matches Dispatch::Failed(c, _) ==> owns(c, token),
            r matches Dispatch::Reregister(a, b) ==> a.token == token && final(self).holds_token(token),
    {
        let idx = match self.find(token) {
            Some(i) => i,
            None => return Dispatch::Unknown,
        };
        let ghost before = self.conns@;
        let mut conn = self.conns.remove(idx);
        let ghost rest = self.conns@;
        proof {
            Self::lemma_removed(before, idx as int, token);
        }
        let ghost c0 = conn;
        let res = conn.handle_event(token, ready);
        let ghost res_g = res;
        proof {
            assert(before[idx as int] == c0);
            assert(rest =~= before.remove(idx as int));
            assert forall|b: nat| #[trigger] old(self).tokens_below(b) implies (forall|i: int|
                0 <= i < rest.len() ==> (#[trigger] rest[i]).client_token() < b
                    && rest[i].server_token() < b) && conn.client_token() < b
                && conn.server_token() < b by {
                assert(owns(before[idx as int], before[idx as int].client_token()));
                assert forall|i: int| 0 <= i < rest.len() implies (#[trigger] rest[i]).client_token()
                    < b && rest[i].server_token() < b by {
                    if i < idx {
                        assert(rest[i] == before[i]);
                    } else {
                        assert(rest[i] == before[i + 1]);
                    }
                }
            }
        }
        match res {
            Ok(ConnectionResult::Continue(a, b)) => {
                self.conns.push(conn);
                proof {
                    assert(self.conns@ == rest.push(conn));
                    assert forall|i: int, j: int|
                        0 <= i < self.conns@.len() && 0 <= j < self.conns@.len() && i != j
                        implies disjoint(#[trigger] self.conns@[i], #[trigger] self.conns@[j]) by {
                        if i < rest.len() && j < rest.len() {
                            assert(self.conns@[i] == rest[i]);
                            assert(self.conns@[j] == rest[j]);
                        } else if i == rest.len() {
                            assert(self.conns@[j] == rest[j]);
                        } else {
                            assert(self.conns@[i] == rest[i]);
                        }
                    }
                    assert(owns(self.conns@[self.conns@.len() - 1], token));
                    assert(dispatch_follows(before, self.conns@, idx as int, conn, res_g,
                        Dispatch::Reregister(a, b)));
                    assert(before[idx as int].event_step(conn, token, ready, res_g));
                    assert forall|bd: nat| #[trigger] old(self).tokens_below(bd) implies self.tokens_below(bd) by {
                        assert forall|i: int| 0 <= i < self.live().len() implies (#[trigger] self.live()[i]).client_token() < bd
                            && self.live()[i].server_token() < bd by {
                            if i < rest.len() {
                                assert(self.conns@[i] == rest[i]);
                            }
                        }
                    }
                }
                Dispatch::Reregister(a, b)
            },
            Ok(ConnectionResult::Close) => {
                proof {
                    assert(dispatch_follows(before, self.conns@, idx as int, conn, res_g,
                        Dispatch::Closed(conn)));
                    assert(before[idx as int].event_step(conn, token, ready, res_g));
                }
                Dispatch::Closed(conn)
            },
            Err(e) => {
                proof {
                    assert(dispatch_follows(before, self.conns@, idx as int, conn, res_g,
                        Dispatch::Failed(conn, e)));
                    assert(before[idx as int].event_step(conn, token, ready, res_g));
                }
                Dispatch::Failed(conn, e)
            },
        }
    }

    /// Taking out the entry at `idx`, which owns `token`, keeps the rest
    /// well-formed and pairwise disjoint, and none of them owns any token of
    /// the entry taken out.
    proof fn lemma_removed(before: Seq<Connection<S>>, idx: int, token: usize)
        requires
            0 <= idx < before.len(),
            owns(before[idx], token),
            forall|i: int| 0 <= i < before.len() ==> (#[trigger] before[i]).wf(),
            forall|i: int, j: int|
                0 <= i < before.len() && 0 <= j < before.len() && i != j ==> disjoint(#[trigger] before[i], #[trigger] before[j]),
        ensures
            forall|i: int| 0 <= i < before.remove(idx).len() ==> (#[trigger] before.remove(idx)[i]).wf(),
            forall|i: int, j: int|
                0 <= i < before.remove(idx).len() && 0 <= j < before.remove(idx).len() && i != j
                    ==> disjoint(#[trigger] before.remove(idx)[i], #[trigger] before.remove(idx)[j]),
            forall|i: int|
                0 <= i < before.remove(idx).len() ==> disjoint(
                    #[trigger] before.remove(idx)[i],
                    before[idx],
                ),
    {
        let rest = before.remove(idx);
        assert forall|i: int| 0 <= i < rest.len() implies (#[trigger] rest[i]).wf() by {
            if i < idx {
                assert(rest[i] == before[i]);
            } else {
                assert(rest[i] == before[i + 1]);
            }
        }
        assert forall|i: int, j: int|
            0 <= i < rest.len() && 0 <= j < rest.len() && i != j implies disjoint(#[trigger] rest[i], #[trigger] rest[j]) by {
            let bi = if i < idx {
                i
            } else {
                i + 1
            };
            let bj = if j < idx {
                j
            } else {
                j + 1
            };
            assert(rest[i] == before[bi]);
            assert(rest[j] == before[bj]);
            assert(disjoint(before[bi], before[bj]));
        }
        assert forall|i: int| 0 <= i < rest.len() implies disjoint(
            #[trigger] rest[i],
            before[idx],
        ) by {
            let bi = if i < idx {
                i
            } else {
                i + 1
            };
            assert(rest[i] == before[bi]);
            assert(disjoint(before[bi], before[idx]));
        }
    }
}

} // verus!
