//! Producer and consumer endpoints over a byte transport.
//!
//! `Logger` is what the generated emit code writes through: staged byte
//! writes followed by one commit that publishes them atomically.  `LogReader`
//! is the consumer's side: drain everything published so far.  The ring
//! buffer implements both; `RingBufferLogger` fixes the backpressure policy
//! at the type level, one policy per producer.

use crate::ring_buf::{RingBuf, WaitStrategy};
use core::marker::PhantomData;
use vstd::prelude::*;

verus! {

/// A producer endpoint: stage bytes, then publish them with one commit.
/// `committed` and `staged` are the endpoint's stream model; `can_write`
/// says how many more bytes the endpoint accepts before a commit would
/// overrun the transport.
pub trait Logger: Sized {
    spec fn wf(&self) -> bool;

    spec fn committed(&self) -> Seq<u8>;

    spec fn staged(&self) -> Seq<u8>;

    spec fn can_write(&self, len: nat) -> bool;

    /// An endpoint that accepts a longer write accepts any shorter one.
    proof fn can_write_mono(&self, shorter: nat, longer: nat)
        requires
            self.can_write(longer),
            shorter <= longer,
        ensures
            self.can_write(shorter),
    ;

    /// Stage `data` after everything staged so far; nothing becomes visible
    /// to the consumer yet.
    fn write(&mut self, data: &[u8])
        requires
            old(self).wf(),
            old(self).can_write(data@.len()),
        ensures
            final(self).wf(),
            final(self).staged() == old(self).staged() + data@,
            final(self).committed() == old(self).committed(),
            forall|m: nat|
                old(self).can_write(data@.len() + m) ==> #[trigger] final(self).can_write(m),
    ;

    /// Publish everything staged since the previous commit, as one unit.
    fn commit_write(&mut self)
        requires
            old(self).wf(),
        ensures
            final(self).wf(),
            final(self).committed() == old(self).committed() + old(self).staged(),
            final(self).staged() == Seq::<u8>::empty(),
            forall|m: nat| old(self).can_write(m) ==> #[trigger] final(self).can_write(m),
    ;
}

/// A consumer endpoint: drain everything published so far, in order.
pub trait LogReader: Sized {
    spec fn wf(&self) -> bool;

    spec fn committed(&self) -> Seq<u8>;

    /// Copy all published, unread bytes into the front of `dst` and return
    /// how many were copied.  `dst` must be large enough for them.
    fn read(&mut self, dst: &mut Vec<u8>) -> (n: usize)
        requires
            old(self).wf(),
            old(dst)@.len() >= old(self).committed().len(),
        ensures
            final(self).wf(),
            n == old(self).committed().len(),
            final(dst)@.len() == old(dst)@.len(),
            final(dst)@.subrange(0, n as int) == old(self).committed(),
            final(self).committed() == Seq::<u8>::empty(),
    ;
}

/// A producer endpoint that owns a ring and writes with wait strategy `W`.
pub struct RingBufferLogger<W: WaitStrategy> {
    pub ring: RingBuf,
    pub strategy: PhantomData<W>,
}

impl<W: WaitStrategy> RingBufferLogger<W> {
    /// A logger over a fresh ring of `size` bytes.
    pub fn new(size: usize) -> (r: RingBufferLogger<W>)
        requires
            crate::ring_buf::is_pow2(size as nat),
        ensures
            r.ring.wf(),
            r.ring.capacity() == size,
            r.ring.committed() == Seq::<u8>::empty(),
            r.ring.staged() == Seq::<u8>::empty(),
    {
        RingBufferLogger { ring: RingBuf::new(size), strategy: PhantomData }
    }
}

impl<W: WaitStrategy> Logger for RingBufferLogger<W> {
    open spec fn wf(&self) -> bool {
        self.ring.wf()
    }

    open spec fn committed(&self) -> Seq<u8> {
        self.ring.committed()
    }

    open spec fn staged(&self) -> Seq<u8> {
        self.ring.staged()
    }

    open spec fn can_write(&self, len: nat) -> bool {
        len <= self.ring.free_space() && self.ring.writer_tail + len <= usize::MAX
    }

    proof fn can_write_mono(&self, shorter: nat, longer: nat) {
    }

    fn write(&mut self, data: &[u8]) {
        self.ring.write::<W>(data);
    }

    fn commit_write(&mut self) {
        self.ring.commit_write();
    }
}

impl<W: WaitStrategy> LogReader for RingBufferLogger<W> {
    open spec fn wf(&self) -> bool {
        self.ring.wf()
    }

    open spec fn committed(&self) -> Seq<u8> {
        self.ring.committed()
    }

    fn read(&mut self, dst: &mut Vec<u8>) -> (n: usize) {
        self.ring.read_all(dst)
    }
}

} // verus!
