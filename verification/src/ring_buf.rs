//! Single-producer / single-consumer byte ring buffer.
//!
//! The ring is a fixed array of `N` bytes (`N` a power of two) addressed by
//! monotonically increasing stream counters: `head` is the consumer's publish
//! point, `tail` the producer's commit point, and `writer_tail` the
//! producer's private, not yet committed tail.  The byte at stream offset `o`
//! lives at physical index `o % N`.  In a concurrent deployment `head` and
//! `tail` are the only shared words (release stores, acquire loads); the
//! producer additionally keeps `writer_head`, a conservative stale copy of
//! `head` that it refreshes only under backpressure, and the consumer keeps
//! `reader_head`, its own copy of `head`.  The functional behaviour verified
//! here is the sequential core that both endpoints run.

use vstd::prelude::*;
use vstd::arithmetic::div_mod::{
    lemma_add_mod_noop, lemma_fundamental_div_mod, lemma_mod_bound, lemma_mod_self_0,
    lemma_small_mod,
};

verus! {

/// `n` is a positive power of two.
pub open spec fn is_pow2(n: nat) -> bool
    decreases n,
{
    if n == 0 {
        false
    } else if n == 1 {
        true
    } else {
        n % 2 == 0 && is_pow2(n / 2)
    }
}

/// Two distinct stream offsets that are less than `n` apart land on distinct
/// physical indices.
proof fn lemma_mod_window_distinct(a: int, b: int, n: int)
    requires
        n > 0,
        a < b,
        b - a < n,
    ensures
        a % n != b % n,
{
    lemma_fundamental_div_mod(a, n);
    lemma_fundamental_div_mod(b, n);
    if a % n == b % n {
        assert(b - a == n * (b / n - a / n)) by (nonlinear_arith)
            requires
                a == n * (a / n) + a % n,
                b == n * (b / n) + b % n,
                a % n == b % n,
        ;
        assert(false) by (nonlinear_arith)
            requires
                b - a == n * (b / n - a / n),
                0 < b - a < n,
        ;
    }
}

/// Stepping a stream offset by one either steps the physical index or wraps
/// it to zero.
proof fn lemma_mod_step(x: int, n: int)
    requires
        n > 0,
        x >= 0,
    ensures
        (x + 1) % n == if x % n == n - 1 {
            0int
        } else {
            x % n + 1
        },
{
    lemma_add_mod_noop(x, 1, n);
    if n == 1 {
        lemma_mod_self_0(n);
    } else {
        lemma_small_mod(1, n as nat);
        lemma_mod_bound(x, n);
        if x % n == n - 1 {
            lemma_mod_self_0(n);
        } else {
            lemma_small_mod((x % n + 1) as nat, n as nat);
        }
    }
}

/// Diagnostic returned when a write does not fit into the free region of the
/// ring: the producer's uncommitted tail, the consumer's published head, and
/// the length of the attempted write.
#[derive(Clone, Copy, PartialEq, Eq, Structural, Debug)]
pub struct RingOverflow {
    pub writer_tail: usize,
    pub head: usize,
    pub attempted: usize,
}

pub struct RingBuf {
    /// Backing storage; its length is the ring capacity.
    pub buf: Vec<u8>,
    /// Consumer's publish point: bytes of the stream before `head` have been
    /// fully consumed.  Shared with the producer (atomic in a concurrent
    /// deployment).
    pub head: usize,
    /// Producer's commit point: bytes of the stream before `tail` are
    /// published to the consumer.  Shared (atomic) as well.
    pub tail: usize,
    /// Producer-private conservative copy of `head`, refreshed only on
    /// backpressure.
    pub writer_head: usize,
    /// Producer-private write point; `commit_write` publishes it into `tail`.
    pub writer_tail: usize,
    /// Consumer-private copy of `head`.
    pub reader_head: usize,
}

impl RingBuf {
    pub open spec fn capacity(self) -> int {
        self.buf@.len() as int
    }

    /// Basic well-formedness: a power-of-two capacity, ordered counters with
    /// at most a ring's worth of bytes in flight, and endpoint-local copies
    /// that never run ahead of the shared counters.
    pub open spec fn wf(self) -> bool {
        &&& is_pow2(self.buf@.len() as nat)
        &&& self.head <= self.tail <= self.writer_tail
        &&& self.writer_tail - self.head <= self.capacity()
        &&& self.writer_head <= self.head
        &&& self.reader_head == self.head
    }

    /// The committed, not yet consumed bytes: stream offsets `[head, tail)`.
    pub open spec fn committed(self) -> Seq<u8> {
        Seq::new(
            (self.tail - self.head) as nat,
            |i: int| self.buf@[(self.head + i) % self.capacity()],
        )
    }

    /// The written, not yet committed bytes: stream offsets
    /// `[tail, writer_tail)`.
    pub open spec fn staged(self) -> Seq<u8> {
        Seq::new(
            (self.writer_tail - self.tail) as nat,
            |i: int| self.buf@[(self.tail + i) % self.capacity()],
        )
    }

    /// Bytes that can still be written without overtaking the consumer.
    pub open spec fn free_space(self) -> int {
        self.capacity() - (self.writer_tail - self.head)
    }

    /// A fresh, empty ring of `size` bytes.
    pub fn new(size: usize) -> (r: RingBuf)
        requires
            is_pow2(size as nat),
        ensures
            r.wf(),
            r.capacity() == size,
            r.head == 0,
            r.tail == 0,
            r.writer_tail == 0,
            r.committed() == Seq::<u8>::empty(),
            r.staged() == Seq::<u8>::empty(),
            r.free_space() == size,
    {
        RingBuf {
            buf: vec![0u8; size],
            head: 0,
            tail: 0,
            writer_head: 0,
            writer_tail: 0,
            reader_head: 0,
        }
    }

    /// Copy `data` into the ring at the producer's uncommitted tail,
    /// wrapping across the end of the array when needed.  The bytes are
    /// staged, not yet published: only `commit_write` makes them visible to
    /// the consumer.
    pub fn write<W: WaitStrategy>(&mut self, data: &[u8])
        requires
            old(self).wf(),
            data@.len() <= old(self).free_space(),
            old(self).writer_tail + data@.len() <= usize::MAX,
        ensures
            final(self).wf(),
            final(self).staged() == old(self).staged() + data@,
            final(self).committed() == old(self).committed(),
            final(self).capacity() == old(self).capacity(),
            final(self).head == old(self).head,
            final(self).tail == old(self).tail,
            final(self).writer_tail == old(self).writer_tail + data@.len(),
    {
        let ghost rb0 = *self;
        if data.len() == 0 {
            assert(self.staged() =~= rb0.staged() + data@);
            assert(self.committed() =~= rb0.committed());
            return ;
        }
        W::wait_to_write(self, data.len());
        let cap = self.buf.len();
        let mut idx = self.writer_tail % cap;
        let mut i: usize = 0;
        proof {
            lemma_mod_bound(rb0.writer_tail as int, cap as int);
        }
        while i < data.len()
            invariant
                rb0.wf(),
                data@.len() <= rb0.free_space(),
                0 <= i <= data@.len(),
                cap == rb0.capacity(),
                self.buf@.len() == cap,
                self.head == rb0.head,
                self.tail == rb0.tail,
                self.writer_tail == rb0.writer_tail,
                self.reader_head == rb0.reader_head,
                self.writer_head <= self.head,
                idx == (rb0.writer_tail + i) % (cap as int),
                forall|o: int|
                    rb0.head <= o < rb0.writer_tail ==> self.buf@[#[trigger] (o % (cap as int))]
                        == rb0.buf@[o % (cap as int)],
                forall|j: int|
                    0 <= j < i ==> self.buf@[(rb0.writer_tail + j) % (cap as int)] == data@[j],
            decreases data@.len() - i,
        {
            proof {
                lemma_mod_bound((rb0.writer_tail + i) as int, cap as int);
            }
            let ghost prev = self.buf@;
            self.buf.set(idx, data[i]);
            proof {
                assert forall|o: int| rb0.head <= o < rb0.writer_tail implies self.buf@[#[trigger] (
                o % (cap as int))] == rb0.buf@[o % (cap as int)] by {
                    lemma_mod_window_distinct(o, rb0.writer_tail + i, cap as int);
                    assert(self.buf@[o % (cap as int)] == prev[o % (cap as int)]);
                }
                assert forall|j: int| 0 <= j < i + 1 implies self.buf@[(rb0.writer_tail + j) % (
                cap as int)] == data@[j] by {
                    if j < i {
                        lemma_mod_window_distinct(
                            rb0.writer_tail + j,
                            rb0.writer_tail + i,
                            cap as int,
                        );
                        assert(self.buf@[(rb0.writer_tail + j) % (cap as int)] == prev[(
                        rb0.writer_tail + j) % (cap as int)]);
                    }
                }
                lemma_mod_step((rb0.writer_tail + i) as int, cap as int);
            }
            idx = idx + 1;
            if idx == cap {
                idx = 0;
            }
            i = i + 1;
        }
        self.writer_tail = self.writer_tail + data.len();
        proof {
            assert forall|k: int| 0 <= k < self.staged().len() implies self.staged()[k] == (
            rb0.staged() + data@)[k] by {
                if k < rb0.writer_tail - rb0.tail {
                    assert(self.buf@[(rb0.tail + k) % (cap as int)] == rb0.buf@[(rb0.tail + k) % (
                    cap as int)]);
                } else {
                    let j = k - (rb0.writer_tail - rb0.tail);
                    assert(rb0.tail + k == rb0.writer_tail + j);
                    assert(self.buf@[(rb0.writer_tail + j) % (cap as int)] == data@[j]);
                }
            }
            assert(self.staged() =~= rb0.staged() + data@);
            assert forall|k: int| 0 <= k < self.committed().len() implies self.committed()[k]
                == rb0.committed()[k] by {
                assert(self.buf@[(rb0.head + k) % (cap as int)] == rb0.buf@[(rb0.head + k) % (
                cap as int)]);
            }
            assert(self.committed() =~= rb0.committed());
        }
    }

    /// Publish everything staged since the previous commit by storing the
    /// producer's private tail into the shared `tail` counter (a release
    /// store in a concurrent deployment).
    pub fn commit_write(&mut self)
        requires
            old(self).wf(),
        ensures
            final(self).wf(),
            final(self).committed() == old(self).committed() + old(self).staged(),
            final(self).staged() == Seq::<u8>::empty(),
            final(self).head == old(self).head,
            final(self).tail == old(self).writer_tail,
            final(self).writer_tail == old(self).writer_tail,
            final(self).capacity() == old(self).capacity(),
            final(self).buf@ == old(self).buf@,
            final(self).free_space() == old(self).free_space(),
    {
        let ghost rb0 = *self;
        self.tail = self.writer_tail;
        proof {
            assert forall|k: int| 0 <= k < self.committed().len() implies self.committed()[k] == (
            rb0.committed() + rb0.staged())[k] by {
                if k >= rb0.tail - rb0.head {
                    assert(rb0.head + k == rb0.tail + (k - (rb0.tail - rb0.head)));
                }
            }
            assert(self.committed() =~= rb0.committed() + rb0.staged());
            assert(self.staged() =~= Seq::<u8>::empty());
        }
    }

    /// Drain every committed byte into the front of `dst`, in stream order,
    /// and advance the consumer's head to the commit point.  Returns how many
    /// bytes were copied; the rest of `dst` is untouched.
    pub fn read_all(&mut self, dst: &mut Vec<u8>) -> (n: usize)
        requires
            old(self).wf(),
            old(dst)@.len() >= old(self).tail - old(self).head,
        ensures
            final(self).wf(),
            n == old(self).committed().len(),
            final(dst)@.len() == old(dst)@.len(),
            final(dst)@.subrange(0, n as int) == old(self).committed(),
            final(dst)@.subrange(n as int, final(dst)@.len() as int) == old(dst)@.subrange(
                n as int,
                old(dst)@.len() as int,
            ),
            final(self).committed() == Seq::<u8>::empty(),
            final(self).staged() == old(self).staged(),
            final(self).head == old(self).tail,
            final(self).tail == old(self).tail,
            final(self).writer_tail == old(self).writer_tail,
            final(self).capacity() == old(self).capacity(),
            final(self).buf@ == old(self).buf@,
    {
        let ghost rb0 = *self;
        let ghost dst0 = dst@;
        let tail = self.tail;
        let n = tail - self.reader_head;
        if n == 0 {
            assert(final(dst)@.subrange(0, 0) =~= rb0.committed());
            assert(dst@.subrange(0, dst@.len() as int) =~= dst0.subrange(0, dst0.len() as int));
            assert(self.committed() =~= Seq::<u8>::empty());
            return 0;
        }
        let cap = self.buf.len();
        let mut idx = self.reader_head % cap;
        let mut i: usize = 0;
        proof {
            lemma_mod_bound(rb0.head as int, cap as int);
        }
        while i < n
            invariant
                rb0.wf(),
                n == rb0.tail - rb0.head,
                0 <= i <= n,
                cap == rb0.capacity(),
                *self == rb0,
                dst@.len() == dst0.len() >= n,
                idx == (rb0.head + i) % (cap as int),
                forall|j: int| 0 <= j < i ==> dst@[j] == rb0.committed()[j],
                forall|j: int| i <= j < dst0.len() ==> dst@[j] == dst0[j],
            decreases n - i,
        {
            proof {
                lemma_mod_bound((rb0.head + i) as int, cap as int);
            }
            dst.set(i, self.buf[idx]);
            proof {
                lemma_mod_step((rb0.head + i) as int, cap as int);
            }
            idx = idx + 1;
            if idx == cap {
                idx = 0;
            }
            i = i + 1;
        }
        self.reader_head = tail;
        self.head = tail;
        proof {
            assert(dst@.subrange(0, n as int) =~= rb0.committed());
            assert(dst@.subrange(n as int, dst@.len() as int) =~= dst0.subrange(
                n as int,
                dst0.len() as int,
            ));
            assert(self.committed() =~= Seq::<u8>::empty());
            assert(self.staged() =~= rb0.staged());
        }
        n
    }

    /// Counter law: a well-formed ring always has `head <= tail` and at most
    /// a ring's worth of bytes between them — what any observer of the two
    /// shared counters may rely on, at every point in the ring's life.
    pub proof fn lemma_ring_counters(self)
        requires
            self.wf(),
        ensures
            self.head <= self.tail,
            self.tail - self.head <= self.capacity(),
    {
    }

    /// Wrap-around law: the staged byte at logical position `i` lives at
    /// physical index `(tail + i) % N`.  A write whose stream offsets cross
    /// a multiple of `N` therefore occupies a segment at the end of the
    /// array and one at its start, while the staged model — what the
    /// consumer will observe — remains one contiguous slice.  The committed
    /// region is mapped the same way from `head`.
    pub proof fn lemma_wrap_around(self, i: int)
        requires
            self.wf(),
            0 <= i < self.staged().len(),
        ensures
            self.staged()[i] == self.buf@[(self.tail + i) % self.capacity()],
    {
    }

    /// Checked variant of a `Panic`-policy write: if `data` does not fit into
    /// the free region as of the current shared `head`, nothing is written
    /// and the overflow diagnostic is returned; the caller decides whether to
    /// abort.  Otherwise the bytes are staged exactly as by `write`.
    pub fn try_write(&mut self, data: &[u8]) -> (r: Result<(), RingOverflow>)
        requires
            old(self).wf(),
            old(self).writer_tail + data@.len() <= usize::MAX,
        ensures
            final(self).wf(),
            r is Ok <==> data@.len() <= old(self).free_space(),
            r is Ok ==> {
                &&& final(self).staged() == old(self).staged() + data@
                &&& final(self).committed() == old(self).committed()
                &&& final(self).head == old(self).head
                &&& final(self).tail == old(self).tail
                &&& final(self).writer_tail == old(self).writer_tail + data@.len()
                &&& final(self).capacity() == old(self).capacity()
            },
            r is Err ==> {
                &&& *final(self) == *old(self)
                &&& r == Result::<(), RingOverflow>::Err(
                    RingOverflow {
                        writer_tail: old(self).writer_tail,
                        head: old(self).head,
                        attempted: data@.len() as usize,
                    },
                )
            },
    {
        let used = self.writer_tail - self.head;
        let remaining = self.buf.len() - used;
        if data.len() > remaining {
            return Err(
                RingOverflow {
                    writer_tail: self.writer_tail,
                    head: self.head,
                    attempted: data.len(),
                },
            );
        }
        self.write::<Panic>(data);
        Ok(())
    }
}

/// Backpressure policy, chosen per write at the type level.  `wait_to_write`
/// runs before the bytes are copied; it may only refresh the producer's
/// conservative `writer_head` from the shared `head`.  In this sequential
/// core the contract already demands that the write fits, so the strategies
/// differ in how they reach that certainty at run time: `Spin` re-reads
/// `head` until its cached copy shows enough room, `Panic` trusts the check
/// made against the fresh `head` (its run-time abort path is `try_write`).
pub trait WaitStrategy {
    fn wait_to_write(rb: &mut RingBuf, len: usize)
        requires
            old(rb).wf(),
            len <= old(rb).free_space(),
        ensures
            final(rb).wf(),
            final(rb).buf@ == old(rb).buf@,
            final(rb).head == old(rb).head,
            final(rb).tail == old(rb).tail,
            final(rb).writer_tail == old(rb).writer_tail,
            final(rb).reader_head == old(rb).reader_head,
    ;
}

/// Fail-fast policy: a write that does not fit is a fatal error.  The
/// verified write path excludes that case by precondition; the run-time
/// diagnostic for unverified callers is produced by `RingBuf::try_write`.
pub struct Panic;

impl WaitStrategy for Panic {
    fn wait_to_write(rb: &mut RingBuf, len: usize) {
    }
}

/// Busy-wait policy: re-read the shared `head` until the cached
/// `writer_head` shows enough free room.  Under the sequential contract the
/// fresh `head` always shows room, so at most one refresh happens here; in a
/// concurrent deployment the loop waits for the consumer to drain.
pub struct Spin;

impl WaitStrategy for Spin {
    fn wait_to_write(rb: &mut RingBuf, len: usize) {
        let ghost rb0 = *rb;
        let cap = rb.buf.len();
        loop
            invariant
                rb.wf(),
                len <= rb.free_space(),
                cap == rb.capacity(),
                rb.buf@ == rb0.buf@,
                rb.head == rb0.head,
                rb.tail == rb0.tail,
                rb.writer_tail == rb0.writer_tail,
                rb.reader_head == rb0.reader_head,
            ensures
                rb.wf(),
                rb.buf@ == rb0.buf@,
                rb.head == rb0.head,
                rb.tail == rb0.tail,
                rb.writer_tail == rb0.writer_tail,
                rb.reader_head == rb0.reader_head,
            decreases rb.head - rb.writer_head,
        {
            let in_flight = rb.writer_tail - rb.writer_head;
            if in_flight <= cap && len <= cap - in_flight {
                break ;
            }
            rb.writer_head = rb.head;
        }
    }
}

} // verus!
