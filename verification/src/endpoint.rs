use vstd::prelude::*;

use crate::ipc::Errno;
use crate::ringbuffer::RingBuffer;
use crate::ringbuffer::lemma_ring_bounds;

verus! {

/// Number of messages an endpoint can hold before a send is refused.
pub const RB_CAPACITY: usize = 16;

/// The abstract content of an endpoint: its name and the queued messages, oldest first.
pub struct EndpointModel {
    pub name: Seq<char>,
    pub queue: Seq<Seq<u8>>,
}

impl EndpointModel {
    /// The endpoint after `msg` is sent to it, and what the send returns:
    /// the message is queued when fewer than `RB_CAPACITY` wait, otherwise it is refused.
    pub open spec fn after_send(self, msg: Seq<u8>) -> (EndpointModel, Result<usize, Errno>) {
        if self.queue.len() < RB_CAPACITY {
            (EndpointModel { name: self.name, queue: self.queue.push(msg) }, Ok(0))
        } else {
            (self, Err(Errno::EUNKN))
        }
    }

    /// The endpoint after a receive into a buffer of `recv_len` bytes, and what the
    /// receive returns: the oldest message leaves when it fits, and its length is returned.
    pub open spec fn after_receive(self, recv_len: nat) -> (EndpointModel, Result<usize, Errno>) {
        if self.queue.len() == 0 {
            (self, Err(Errno::ERBEMPTY))
        } else if self.queue[0].len() > recv_len {
            (self, Err(Errno::ERRCV))
        } else {
            (
                EndpointModel { name: self.name, queue: self.queue.drop_first() },
                Ok(self.queue[0].len() as usize),
            )
        }
    }
}

/// The bytes of each message in a queue.
pub open spec fn message_bytes(q: Seq<Vec<u8>>) -> Seq<Seq<u8>> {
    q.map_values(|m: Vec<u8>| m@)
}

/// A named mailbox: a bounded queue of byte messages.
pub struct Endpoint {
    pub debug_name: String,
    pub queue: RingBuffer<Vec<u8>>,
}

impl View for Endpoint {
    type V = EndpointModel;

    open spec fn view(&self) -> EndpointModel {
        EndpointModel { name: self.debug_name@, queue: message_bytes(self.queue@) }
    }
}

impl Endpoint {
    /// The queue is a well-formed ring of `RB_CAPACITY` slots.
    pub open spec fn wf(&self) -> bool {
        self.queue.wf() && self.queue.spec_capacity() == RB_CAPACITY
    }

    /// An endpoint called `name` with an empty queue.
    pub fn new(name: String) -> (ep: Self)
        ensures
            ep.wf(),
            ep@ == (EndpointModel { name: name@, queue: Seq::empty() }),
    {
        let ep = Endpoint { debug_name: name, queue: RingBuffer::new(RB_CAPACITY) };
        assert(message_bytes(ep.queue@) =~= Seq::empty());
        ep
    }

    /// Queues `msg`; a full queue refuses it.
    pub fn add_msg(&mut self, msg: Vec<u8>) -> (r: Result<usize, Errno>)
        requires
            old(self).wf(),
        ensures
            final(self).wf(),
            (final(self)@, r) == old(self)@.after_send(msg@),
    {
        proof {
            lemma_ring_bounds(&self.queue);
        }
        let ghost old_q = self.queue@;
        let ghost m = msg@;
        let pushed = self.queue.push(msg);
        match pushed {
            Ok(()) => {
                assert(message_bytes(self.queue@) =~= message_bytes(old_q).push(m));
                Ok(0)
            },
            Err(_) => Err(Errno::EUNKN),
        }
    }

    /// Takes the oldest message into the first bytes of `buff` and returns its length.
    /// Fails, leaving everything as it was, when no message waits or when the message
    /// is longer than `recv_len`.
    pub fn get_msg(&mut self, buff: &mut Vec<u8>, recv_len: usize) -> (r: Result<usize, Errno>)
        requires
            old(self).wf(),
            recv_len <= old(buff)@.len(),
        ensures
            final(self).wf(),
            (final(self)@, r) == old(self)@.after_receive(recv_len as nat),
            r is Err ==> final(buff)@ == old(buff)@,
            r matches Ok(n) ==> final(buff)@ == old(self)@.queue[0] + old(buff)@.subrange(
                n as int,
                old(buff)@.len() as int,
            ),
    {
        let ghost old_q = self.queue@;
        let msg_len = match self.queue.peek() {
            Some(m) => m.len(),
            None => return Err(Errno::ERBEMPTY),
        };
        if msg_len > recv_len {
            return Err(Errno::ERRCV);
        }
        let msg = match self.queue.pop() {
            Some(m) => m,
            None => return Err(Errno::ERBEMPTY),
        };
        assert(message_bytes(self.queue@) =~= message_bytes(old_q).drop_first());
        let ghost old_buff = buff@;
        let mut i: usize = 0;
        while i < msg_len
            invariant
                msg_len == msg@.len(),
                msg_len <= old_buff.len(),
                0 <= i <= msg_len,
                buff@.len() == old_buff.len(),
                forall|j: int| 0 <= j < i ==> buff@[j] == msg@[j],
                forall|j: int| i <= j < buff@.len() ==> buff@[j] == old_buff[j],
            decreases msg_len - i,
        {
            buff.set(i, msg[i]);
            i = i + 1;
        }
        assert(buff@ =~= msg@ + old_buff.subrange(msg_len as int, old_buff.len() as int));
        Ok(msg_len)
    }
}

} // verus!
