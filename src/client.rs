//! A connected guest as the host sees it: its socket, the record it is
//! part-way through reading, and whether its hello exchange is complete.
use vstd::prelude::*;

verus! {

/// What one read step produced.
pub enum ReadReply {
    /// The record is complete; these are its bytes.
    Data(Vec<u8>),
    /// More bytes are needed; try again on the next readiness.
    NotReady,
    /// The peer closed the connection.
    Hangup,
}

/// A read was asked for with a size other than that of the record in flight.
#[derive(Clone, Copy, Debug, PartialEq, Eq, Structural)]
pub enum ReadError {
    SizeMismatch,
}

pub struct Client<S> {
    socket: S,
    buf: Vec<u8>,
    filled: usize,
    ready: bool,
}

impl<S> Client<S> {
    /// The buffer holds the record in flight and never stays completely filled.
    pub open spec fn wf(&self) -> bool {
        &&& self.filled_count() <= self.buf_len()
        &&& (self.filled_count() == self.buf_len() ==> self.buf_len() == 0)
        &&& self.pending().len() == self.filled_count()
    }

    pub closed spec fn socket_of(&self) -> S {
        self.socket
    }

    /// Whether the hello exchange with this client has completed.
    pub closed spec fn is_ready_spec(&self) -> bool {
        self.ready
    }

    pub closed spec fn buf_len(&self) -> nat {
        self.buf@.len()
    }

    pub closed spec fn filled_count(&self) -> nat {
        self.filled as nat
    }

    /// The bytes of the record in flight read so far.
    pub closed spec fn pending(&self) -> Seq<u8> {
        self.buf@.subrange(0, self.filled as int)
    }

    /// How many more bytes a read of a `size`-byte record may take.
    pub open spec fn spec_room(&self, size: usize) -> nat {
        if self.buf_len() == 0 {
            size as nat
        } else {
            (self.buf_len() - self.filled_count()) as nat
        }
    }

    pub open spec fn mismatched(&self, size: usize) -> bool {
        self.buf_len() != 0 && self.buf_len() != size
    }

    pub fn new(socket: S) -> (r: Client<S>)
        ensures
            r.wf(),
            r.socket_of() == socket,
            !r.is_ready_spec(),
            r.buf_len() == 0,
            r.pending() == Seq::<u8>::empty(),
    {
        let r = Client { socket, ready: false, buf: Vec::new(), filled: 0 };
        assert(r.buf@.subrange(0, 0) =~= Seq::<u8>::empty());
        r
    }

    pub fn socket(&self) -> (r: &S)
        ensures
            *r == self.socket_of(),
    {
        &self.socket
    }

    pub fn is_ready(&self) -> (r: bool)
        ensures
            r == self.is_ready_spec(),
    {
        self.ready
    }

    pub fn into_socket(self) -> (r: S)
        ensures
            r == self.socket_of(),
    {
        self.socket
    }

    /// Marks the hello exchange as complete.
    pub fn set_ready(&mut self)
        ensures
            final(self).is_ready_spec(),
            final(self).socket_of() == old(self).socket_of(),
            final(self).buf_len() == old(self).buf_len(),
            final(self).filled_count() == old(self).filled_count(),
            final(self).pending() == old(self).pending(),
    {
        self.ready = true;
    }

    /// How many bytes the next read of a `size`-byte record may take.
    pub fn room(&self, size: usize) -> (r: Result<usize, ReadError>)
        requires
            self.wf(),
        ensures
            r is Err <==> self.mismatched(size),
            r is Ok ==> r->Ok_0 == self.spec_room(size),
    {
        if self.buf.len() == 0 {
            Ok(size)
        } else if self.buf.len() != size {
            Err(ReadError::SizeMismatch)
        } else {
            Ok(self.buf.len() - self.filled)
        }
    }

    /// Takes the bytes that one read of the socket produced for a `size`-byte
    /// record. An empty `chunk` means the peer hung up.
    pub fn feed(&mut self, size: usize, chunk: &[u8]) -> (r: Result<ReadReply, ReadError>)
        requires
            old(self).wf(),
            old(self).mismatched(size) || chunk@.len() <= old(self).spec_room(size),
        ensures
            final(self).wf(),
            final(self).is_ready_spec() == old(self).is_ready_spec(),
            final(self).socket_of() == old(self).socket_of(),
            old(self).mismatched(size) ==> r == Err::<ReadReply, ReadError>(ReadError::SizeMismatch)
                && final(self).pending() == old(self).pending() && final(self).buf_len()
                == old(self).buf_len(),
            !old(self).mismatched(size) && chunk@.len() == 0 ==> (r matches Ok(ReadReply::Hangup))
                && final(self).pending() == old(self).pending(),
            !old(self).mismatched(size) && chunk@.len() > 0 && old(self).pending().len()
                + chunk@.len() == size ==> (match r {
                Ok(ReadReply::Data(v)) => v@ == old(self).pending() + chunk@,
                _ => false,
            }) && final(self).buf_len() == 0 && final(self).pending() == Seq::<u8>::empty(),
            !old(self).mismatched(size) && chunk@.len() > 0 && old(self).pending().len()
                + chunk@.len() < size ==> (r matches Ok(ReadReply::NotReady))
                && final(self).pending() == old(self).pending() + chunk@ && final(self).buf_len() == size,
    {
        if self.buf.len() == 0 {
            let mut k: usize = 0;
            while k < size
                invariant
                    k <= size,
                    self.buf@.len() == k,
                    self.filled == old(self).filled,
                    old(self).buf@.len() == 0,
                    self.socket == old(self).socket,
                    self.ready == old(self).ready,
                decreases size - k,
            {
                self.buf.push(0u8);
                k = k + 1;
            }
        } else if self.buf.len() != size {
            return Err(ReadError::SizeMismatch);
        }
        if chunk.len() == 0 {
            assert(self.buf@.subrange(0, self.filled as int) =~= old(self).pending());
            return Ok(ReadReply::Hangup);
        }
        let ghost start = self.buf@;
        let mut j: usize = 0;
        while j < chunk.len()
            invariant
                j <= chunk@.len(),
                self.filled + chunk@.len() <= size,
                self.buf@.len() == size,
                start.len() == size,
                self.filled == old(self).filled,
                self.socket == old(self).socket,
                self.ready == old(self).ready,
                forall|t: int| 0 <= t < self.filled ==> self.buf@[t] == start[t],
                forall|t: int| 0 <= t < j ==> self.buf@[self.filled + t] == chunk@[t],
            decreases chunk@.len() - j,
        {
            self.buf.set(self.filled + j, chunk[j]);
            j = j + 1;
        }
        self.filled = self.filled + chunk.len();
        assert(self.buf@.subrange(0, self.filled as int) =~= old(self).pending() + chunk@);
        if self.filled == size {
            let mut data: Vec<u8> = Vec::new();
            std::mem::swap(&mut self.buf, &mut data);
            self.filled = 0;
            assert(self.buf@.subrange(0, 0) =~= Seq::<u8>::empty());
            assert(data@ =~= old(self).pending() + chunk@);
            Ok(ReadReply::Data(data))
        } else {
            Ok(ReadReply::NotReady)
        }
    }
}

} // verus!
