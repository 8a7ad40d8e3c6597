//! A byte ring buffer laid over a memory region (in practice a shared-memory
//! mapping).  The region starts with an eight-byte header: the head counter in
//! bytes `0..4` and the tail counter in bytes `4..8`, both big-endian.  The
//! byte with logical position `p` lives at offset `8 + p % capacity`.
//! Counters only grow; the buffer holds the bytes at positions `head..tail`.

use vstd::prelude::*;
use crate::be::{be_bytes, be_value, lemma_be_roundtrip, u32_from_be, u32_to_be};

verus! {

/// Length of the header that holds the head and tail counters.
pub const HEADER: u32 = 8;

/// `s` with the bytes from offset `at` on replaced by `b`.
pub open spec fn overwrite(s: Seq<u8>, at: int, b: Seq<u8>) -> Seq<u8> {
    s.subrange(0, at) + b + s.subrange(at + b.len(), s.len() as int)
}

/// What a ring buffer is: its capacity and the bytes of its region.
pub struct RingState {
    pub capacity: u32,
    pub region: Seq<u8>,
}

impl RingState {
    /// The head counter stored in the header.
    pub open spec fn head(self) -> u32 {
        be_value(self.region.subrange(0, 4))
    }

    /// The tail counter stored in the header.
    pub open spec fn tail(self) -> u32 {
        be_value(self.region.subrange(4, 8))
    }

    /// Offset in the region of the byte with logical position `pos`.
    pub open spec fn slot(self, pos: int) -> int {
        HEADER + pos % (self.capacity as int)
    }

    /// The state with the head counter set to `h`.
    pub open spec fn with_head(self, h: u32) -> RingState {
        RingState { capacity: self.capacity, region: overwrite(self.region, 0, be_bytes(h)) }
    }

    /// The state with the tail counter set to `t`.
    pub open spec fn with_tail(self, t: u32) -> RingState {
        RingState { capacity: self.capacity, region: overwrite(self.region, 4, be_bytes(t)) }
    }

    /// The counters are `capacity` apart.
    pub open spec fn is_full(self) -> bool {
        self.tail() - self.head() == self.capacity
    }

    /// The counters are equal.
    pub open spec fn is_empty(self) -> bool {
        self.tail() == self.head()
    }

    /// The byte at the head position.
    pub open spec fn front(self) -> u8 {
        self.region[self.slot(self.head() as int)]
    }

    /// The state after `value` is stored at the tail position and the tail advances.
    pub open spec fn pushed(self, value: u8) -> RingState {
        RingState {
            capacity: self.capacity,
            region: self.region.update(self.slot(self.tail() as int), value),
        }.with_tail((self.tail() + 1) as u32)
    }

    /// The state after the head advances.
    pub open spec fn popped(self) -> RingState {
        self.with_head((self.head() + 1) as u32)
    }

    /// The inputs on which `peek` runs without a panic.
    pub open spec fn can_peek(self) -> bool {
        &&& self.region.len() >= 4
        &&& self.capacity > 0
        &&& self.slot(self.head() as int) <= u32::MAX
        &&& self.slot(self.head() as int) < self.region.len()
    }

    /// The inputs on which `push` runs without a panic: the header is there,
    /// the counters are ordered, the buffer is not full, and the slot is in
    /// the region.
    pub open spec fn can_push(self) -> bool {
        &&& self.region.len() >= 8
        &&& self.head() <= self.tail()
        &&& !self.is_full()
        &&& self.capacity > 0
        &&& self.slot(self.tail() as int) <= u32::MAX
        &&& self.slot(self.tail() as int) < self.region.len()
        &&& self.tail() < u32::MAX
    }

    /// The inputs on which `pop` runs without a panic: the header is there,
    /// the buffer is not empty, and the slot is in the region.
    pub open spec fn can_pop(self) -> bool {
        &&& self.region.len() >= 8
        &&& !self.is_empty()
        &&& self.capacity > 0
        &&& self.slot(self.head() as int) <= u32::MAX
        &&& self.slot(self.head() as int) < self.region.len()
        &&& self.head() < u32::MAX
    }

    /// The slot of logical position `pos` lies in the region, and its offset
    /// fits in a `u32`.
    pub open spec fn slot_fits(self, pos: int) -> bool {
        &&& self.slot(pos) < self.region.len()
        &&& self.slot(pos) <= u32::MAX
    }

    /// The slots of the positions `from..to` all fit.
    pub open spec fn slots_fit(self, from: int, to: int) -> bool {
        forall|p: int| from <= p < to ==> #[trigger] self.slot_fits(p)
    }

    /// A well-formed queue: the header is there, the counters are at most
    /// `capacity` apart, and the slot of every queued position fits.  The
    /// region need not hold a slot for every position modulo `capacity`.
    pub open spec fn wf(self) -> bool {
        &&& 0 < self.capacity
        &&& self.region.len() >= HEADER
        &&& self.head() <= self.tail() <= self.head() + self.capacity
        &&& self.slots_fit(self.head() as int, self.tail() as int)
    }

    /// The queued bytes, oldest first.
    pub open spec fn contents(self) -> Seq<u8> {
        Seq::new(
            (self.tail() - self.head()) as nat,
            |i: int| self.region[self.slot(self.head() + i)],
        )
    }
}

/// A ring buffer of bytes over a borrowed memory region.
#[derive(Debug)]
pub struct RingBuffer<'a> {
    capacity: u32,
    shmid: usize,
    buffer: &'a mut [u8],
    head: u32,
    tail: u32,
}

impl<'a> View for RingBuffer<'a> {
    type V = RingState;

    closed spec fn view(&self) -> RingState {
        RingState { capacity: self.capacity, region: (*self.buffer)@ }
    }
}


/// The header bytes `at..at + 4` replaced by `bytes`, in place.
fn write_header_word(buffer: &mut [u8], at: usize, bytes: [u8; 4])
    requires
        at + 4 <= old(buffer)@.len(),
    ensures
        final(buffer)@ == overwrite(old(buffer)@, at as int, bytes@),
{
    buffer[at] = bytes[0];
    buffer[at + 1] = bytes[1];
    buffer[at + 2] = bytes[2];
    buffer[at + 3] = bytes[3];
    assert(buffer@ =~= overwrite(old(buffer)@, at as int, bytes@));
}

impl<'a> RingBuffer<'a> {
    /// Takes over a mapped region of `size` data bytes and reads the
    /// counters its header holds.
    pub fn new(size: u32, shmid: usize, buffer: &'a mut [u8]) -> (r: Self)
        requires
            old(buffer)@.len() >= HEADER,
        ensures
            r@ == (RingState { capacity: size, region: old(buffer)@ }),
            r.shmid() == shmid,
            r.cached_counters() == (r@.head(), r@.tail()),
    {
        let head = u32_from_be([buffer[0], buffer[1], buffer[2], buffer[3]]);
        let tail = u32_from_be([buffer[4], buffer[5], buffer[6], buffer[7]]);
        let r = RingBuffer { capacity: size, shmid, buffer, head, tail };
        assert(r@.region =~= old(buffer)@);
        r
    }

    /// The head and tail counters as read from the header when the buffer
    /// was made (kept for display; the header itself is the live copy).
    pub closed spec fn cached_counters(&self) -> (u32, u32) {
        (self.head, self.tail)
    }

    /// The identifier of the shared-memory object behind the region.
    pub closed spec fn shmid(&self) -> usize {
        self.shmid
    }

    /// The identifier of the shared-memory object behind the region.
    pub fn shm_id(&self) -> (r: usize)
        ensures
            r == self.shmid(),
    {
        self.shmid
    }

    /// The number of data slots.
    pub fn capacity(&self) -> (r: u32)
        ensures
            r == self@.capacity,
    {
        self.capacity
    }

    /// Whether the counters are `capacity` apart.
    pub fn is_full(&self) -> (r: bool)
        requires
            self@.region.len() >= HEADER,
            self@.head() <= self@.tail(),
        ensures
            r == self@.is_full(),
    {
        return self.get_tail() - self.get_head() == self.capacity;
    }

    /// Whether the counters are equal.
    pub fn is_empty(&self) -> (r: bool)
        requires
            self@.region.len() >= HEADER,
        ensures
            r == self@.is_empty(),
    {
        return self.get_tail() == self.get_head();
    }

    /// The byte at the head position; the buffer is left as it is.
    pub fn peek(&self) -> (r: u8)
        requires
            self@.can_peek(),
        ensures
            r == self@.front(),
    {
        let index = HEADER + (self.get_head() % self.capacity);
        return self.buffer[index as usize];
    }

    /// Stores `value` at the tail position and advances the tail.
    pub fn push(&mut self, value: u8) -> (r: usize)
        requires
            old(self)@.can_push(),
        ensures
            r == 0,
            final(self)@ == old(self)@.pushed(value),
            final(self).shmid() == old(self).shmid(),
            final(self).cached_counters() == old(self).cached_counters(),
    {
        let index = HEADER + (self.get_tail() % self.capacity);
        self.buffer[index as usize] = value;
        proof {
            assert(self@.region.subrange(4, 8) =~= old(self)@.region.subrange(4, 8));
        }
        let tail = self.get_tail();
        self.set_tail(tail + 1);
        return 0;
    }

    /// Advances the head and returns the byte that was at the head position.
    pub fn pop(&mut self) -> (r: u8)
        requires
            old(self)@.can_pop(),
        ensures
            r == old(self)@.front(),
            final(self)@ == old(self)@.popped(),
            final(self).shmid() == old(self).shmid(),
            final(self).cached_counters() == old(self).cached_counters(),
    {
        let index = HEADER + (self.get_head() % self.capacity);
        let head = self.get_head();
        self.set_head(head + 1);
        return self.buffer[index as usize];
    }

    /// The tail counter stored in the header.
    pub fn get_tail(&self) -> (r: u32)
        requires
            self@.region.len() >= HEADER,
        ensures
            r == self@.tail(),
    {
        let r = u32_from_be([self.buffer[4], self.buffer[5], self.buffer[6], self.buffer[7]]);
        assert(self@.region.subrange(4, 8) =~= seq![
            self.buffer@[4], self.buffer@[5], self.buffer@[6], self.buffer@[7]]);
        r
    }

    /// Stores `tail` as the tail counter.
    pub fn set_tail(&mut self, tail: u32)
        requires
            old(self)@.region.len() >= HEADER,
        ensures
            final(self)@ == old(self)@.with_tail(tail),
            final(self).shmid() == old(self).shmid(),
            final(self).cached_counters() == old(self).cached_counters(),
    {
        write_header_word(self.buffer, 4, u32_to_be(tail));
    }

    /// The head counter stored in the header.
    pub fn get_head(&self) -> (r: u32)
        requires
            self@.region.len() >= 4,
        ensures
            r == self@.head(),
    {
        let r = u32_from_be([self.buffer[0], self.buffer[1], self.buffer[2], self.buffer[3]]);
        assert(self@.region.subrange(0, 4) =~= seq![
            self.buffer@[0], self.buffer@[1], self.buffer@[2], self.buffer@[3]]);
        r
    }

    /// Stores `head` as the head counter.
    pub fn set_head(&mut self, head: u32)
        requires
            old(self)@.region.len() >= 4,
        ensures
            final(self)@ == old(self)@.with_head(head),
            final(self).shmid() == old(self).shmid(),
            final(self).cached_counters() == old(self).cached_counters(),
    {
        write_header_word(self.buffer, 0, u32_to_be(head));
    }
}


/// Two positions less than `c` apart fall in different slots.
pub(crate) proof fn lemma_mod_distinct(p: int, q: int, c: int)
    requires
        0 < c,
        0 <= p < q < p + c,
    ensures
        p % c != q % c,
{
    vstd::arithmetic::div_mod::lemma_fundamental_div_mod(p, c);
    vstd::arithmetic::div_mod::lemma_fundamental_div_mod(q, c);
    if p % c == q % c {
        assert(q - p == c * (q / c - p / c)) by (nonlinear_arith)
            requires
                p == c * (p / c) + p % c,
                q == c * (q / c) + q % c,
                p % c == q % c,
        ;
        assert(false) by (nonlinear_arith)
            requires
                q - p == c * (q / c - p / c),
                0 < q - p < c,
                0 < c,
        ;
    }
}

/// Rewriting one header counter leaves the other one and every data byte as
/// they were.
proof fn lemma_header_write(s: RingState, at: int, x: u32)
    requires
        s.region.len() >= HEADER,
        at == 0 || at == 4,
    ensures
        overwrite(s.region, at, be_bytes(x)).len() == s.region.len(),
        at == 0 ==> (RingState { capacity: s.capacity, region: overwrite(s.region, at, be_bytes(x)) }).head() == x,
        at == 0 ==> (RingState { capacity: s.capacity, region: overwrite(s.region, at, be_bytes(x)) }).tail() == s.tail(),
        at == 4 ==> (RingState { capacity: s.capacity, region: overwrite(s.region, at, be_bytes(x)) }).tail() == x,
        at == 4 ==> (RingState { capacity: s.capacity, region: overwrite(s.region, at, be_bytes(x)) }).head() == s.head(),
        forall|i: int| HEADER <= i < s.region.len() ==> #[trigger] overwrite(s.region, at, be_bytes(x))[i] == s.region[i],
{
    lemma_be_roundtrip(x);
    let r = overwrite(s.region, at, be_bytes(x));
    if at == 0 {
        assert(r.subrange(0, 4) =~= be_bytes(x));
        assert(r.subrange(4, 8) =~= s.region.subrange(4, 8));
    } else {
        assert(r.subrange(4, 8) =~= be_bytes(x));
        assert(r.subrange(0, 4) =~= s.region.subrange(0, 4));
    }
}

/// When the region holds a slot for every position modulo `capacity`, every
/// slot fits.
pub proof fn lemma_every_slot_fits(s: RingState, from: int, to: int)
    requires
        0 < s.capacity,
        s.region.len() >= HEADER + s.capacity,
        HEADER + s.capacity <= u32::MAX + 1,
    ensures
        s.slots_fit(from, to),
{
}

/// Pushing onto a well-formed buffer that is not full, whose tail counter can
/// still grow and whose tail slot fits, succeeds, keeps it well formed, and
/// appends the byte to the queued bytes.
pub proof fn law_push_appends(s: RingState, v: u8)
    requires
        s.wf(),
        !s.is_full(),
        s.tail() < u32::MAX,
        s.slot_fits(s.tail() as int),
    ensures
        s.can_push(),
        s.pushed(v).wf(),
        s.pushed(v).capacity == s.capacity,
        s.pushed(v).region.len() == s.region.len(),
        s.pushed(v).head() == s.head(),
        s.pushed(v).tail() == s.tail() + 1,
        s.pushed(v).contents() == s.contents().push(v),
{
    let c = s.capacity as int;
    let t = s.tail() as int;
    let mid = RingState { capacity: s.capacity, region: s.region.update(s.slot(t), v) };
    assert(mid.region.subrange(0, 8) =~= s.region.subrange(0, 8));
    assert(mid.region.subrange(0, 4) =~= s.region.subrange(0, 4));
    assert(mid.region.subrange(4, 8) =~= s.region.subrange(4, 8));
    lemma_header_write(mid, 4, (t + 1) as u32);
    let n = s.pushed(v);
    assert(n.head() == s.head());
    assert(n.tail() == t + 1);
    assert forall|i: int| 0 <= i < n.contents().len() implies n.contents()[i] == s.contents().push(v)[i] by {
        let p = s.head() + i;
        if i < s.contents().len() {
            assert(s.slot_fits(p));
            lemma_mod_distinct(p, t, c);
            assert(mid.region[s.slot(p)] == s.region[s.slot(p)]);
        }
    }
    assert(n.contents() =~= s.contents().push(v));
    assert forall|p: int| n.head() <= p < n.tail() implies #[trigger] n.slot_fits(p) by {
        if p < t {
            assert(s.slot_fits(p));
        }
    }
}

/// Popping from a well-formed buffer that is not empty (and whose head counter
/// can still grow) succeeds, keeps it well formed, hands back the oldest
/// queued byte and drops it from the queued bytes.
pub proof fn law_pop_takes_front(s: RingState)
    requires
        s.wf(),
        !s.is_empty(),
        s.head() < u32::MAX,
    ensures
        s.can_pop(),
        s.can_peek(),
        s.front() == s.contents()[0],
        s.popped().wf(),
        s.popped().capacity == s.capacity,
        s.popped().region.len() == s.region.len(),
        s.popped().head() == s.head() + 1,
        s.popped().tail() == s.tail(),
        s.popped().contents() == s.contents().drop_first(),
{
    lemma_header_write(s, 0, (s.head() + 1) as u32);
    let n = s.popped();
    assert(n.head() == s.head() + 1);
    assert(n.tail() == s.tail());
    assert forall|i: int| 0 <= i < n.contents().len() implies n.contents()[i] == s.contents().drop_first()[i] by {
        assert(s.slot_fits(n.head() + i));
    }
    assert(n.contents() =~= s.contents().drop_first());
    assert(s.slot_fits(s.head() as int));
    assert forall|p: int| n.head() <= p < n.tail() implies #[trigger] n.slot_fits(p) by {
        assert(s.slot_fits(p));
    }
}

/// On a well-formed buffer, `is_full` and `is_empty` tell whether the queued
/// bytes fill the capacity or are none.
pub proof fn law_full_and_empty(s: RingState)
    requires
        s.wf(),
    ensures
        s.is_full() <==> s.contents().len() == s.capacity,
        s.is_empty() <==> s.contents().len() == 0,
{
}

/// A byte pushed onto an empty buffer is the byte that a pop then hands
/// back, and the pop leaves the buffer empty again.
pub proof fn law_push_then_pop(s: RingState, v: u8)
    requires
        s.wf(),
        s.is_empty(),
        s.tail() < u32::MAX,
        s.slot_fits(s.tail() as int),
    ensures
        s.can_push(),
        s.pushed(v).can_pop(),
        s.pushed(v).front() == v,
        s.pushed(v).popped().is_empty(),
        s.pushed(v).popped().contents() == s.contents(),
{
    law_push_appends(s, v);
    let n = s.pushed(v);
    assert(n.head() == s.head());
    law_pop_takes_front(n);
    assert(n.contents() == seq![v]);
    assert(n.popped().contents() =~= s.contents());
}


/// The state after the bytes of `vs` are pushed one by one, first to last.
pub open spec fn push_all(s: RingState, vs: Seq<u8>) -> RingState
    decreases vs.len(),
{
    if vs.len() == 0 {
        s
    } else {
        push_all(s, vs.drop_last()).pushed(vs.last())
    }
}

/// The bytes that `n` pops in a row hand back, in order, and the state they
/// leave.
pub open spec fn pop_n(s: RingState, n: nat) -> (Seq<u8>, RingState)
    decreases n,
{
    if n == 0 {
        (Seq::empty(), s)
    } else {
        let (out, t) = pop_n(s, (n - 1) as nat);
        (out.push(t.front()), t.popped())
    }
}

/// Pushing bytes one by one onto a well-formed buffer with room for all of
/// them, tail counter room, and a fitting slot for each new position,
/// succeeds at every step, keeps the buffer well formed and appends them, in
/// order, to the queued bytes.
pub proof fn law_push_all(s: RingState, vs: Seq<u8>)
    requires
        s.wf(),
        s.contents().len() + vs.len() <= s.capacity,
        s.tail() + vs.len() <= u32::MAX,
        s.slots_fit(s.tail() as int, s.tail() + vs.len()),
    ensures
        forall|i: int| 0 <= i < vs.len() ==> #[trigger] push_all(s, vs.take(i)).can_push(),
        push_all(s, vs).wf(),
        push_all(s, vs).capacity == s.capacity,
        push_all(s, vs).region.len() == s.region.len(),
        push_all(s, vs).head() == s.head(),
        push_all(s, vs).tail() == s.tail() + vs.len(),
        push_all(s, vs).contents() == s.contents() + vs,
    decreases vs.len(),
{
    if vs.len() == 0 {
        assert(s.contents() + vs =~= s.contents());
    } else {
        let front = vs.drop_last();
        law_push_all(s, front);
        let p = push_all(s, front);
        assert(s.slot_fits(p.tail() as int));
        assert(p.slot_fits(p.tail() as int));
        law_push_appends(p, vs.last());
        assert(s.contents() + vs =~= (s.contents() + front).push(vs.last()));
        assert forall|i: int| 0 <= i < vs.len() implies #[trigger] push_all(s, vs.take(i)).can_push() by {
            if i < front.len() {
                assert(front.take(i) =~= vs.take(i));
                assert(push_all(s, front.take(i)).can_push());
            } else {
                assert(vs.take(i) =~= front);
            }
        }
    }
}

/// Popping `n` times from a well-formed buffer that holds at least `n` bytes
/// (and has head counter room) succeeds at every step, hands back the first
/// `n` queued bytes in order, and leaves the rest queued.
pub proof fn law_pop_n(s: RingState, n: nat)
    requires
        s.wf(),
        n <= s.contents().len(),
        s.head() + n <= u32::MAX,
    ensures
        forall|i: nat| i < n ==> #[trigger] pop_n(s, i).1.can_pop(),
        pop_n(s, n).0 == s.contents().take(n as int),
        pop_n(s, n).1.wf(),
        pop_n(s, n).1.capacity == s.capacity,
        pop_n(s, n).1.region.len() == s.region.len(),
        pop_n(s, n).1.head() == s.head() + n,
        pop_n(s, n).1.tail() == s.tail(),
        pop_n(s, n).1.contents() == s.contents().skip(n as int),
    decreases n,
{
    if n == 0 {
        assert(s.contents().skip(0) =~= s.contents());
        assert(s.contents().take(0) =~= Seq::<u8>::empty());
    } else {
        let m = (n - 1) as nat;
        law_pop_n(s, m);
        let t = pop_n(s, m).1;
        law_pop_takes_front(t);
        assert(s.contents().take(n as int) =~= s.contents().take(m as int).push(t.front()));
        assert(t.popped().contents() =~= s.contents().skip(n as int));
        assert forall|i: nat| i < n implies #[trigger] pop_n(s, i).1.can_pop() by {
            if i < m {
                assert(pop_n(s, i).1.can_pop());
            }
        }
    }
}

/// Bytes pushed one by one onto an empty buffer that can hold them all, into
/// slots that fit, come back first in, first out from as many pops, which
/// leave it empty again.
pub proof fn law_first_in_first_out(s: RingState, vs: Seq<u8>)
    requires
        s.wf(),
        s.is_empty(),
        vs.len() <= s.capacity,
        s.tail() + vs.len() <= u32::MAX,
        s.slots_fit(s.tail() as int, s.tail() + vs.len()),
    ensures
        forall|i: int| 0 <= i < vs.len() ==> #[trigger] push_all(s, vs.take(i)).can_push(),
        forall|i: nat| i < vs.len() ==> #[trigger] pop_n(push_all(s, vs), i).1.can_pop(),
        pop_n(push_all(s, vs), vs.len()).0 == vs,
        pop_n(push_all(s, vs), vs.len()).1.is_empty(),
{
    assert(s.contents() =~= Seq::<u8>::empty());
    law_push_all(s, vs);
    let p = push_all(s, vs);
    assert(p.contents() =~= vs);
    law_pop_n(p, vs.len());
    assert(vs.take(vs.len() as int) =~= vs);
}


/// After two pushes onto an empty buffer, `peek` hands back the first byte
/// pushed, the oldest, and leaves the buffer as it is.
pub proof fn law_peek_sees_oldest(s: RingState, a: u8, b: u8)
    requires
        s.wf(),
        s.is_empty(),
        s.capacity >= 2,
        s.tail() + 2 <= u32::MAX,
        s.slots_fit(s.tail() as int, s.tail() + 2),
    ensures
        s.can_push(),
        s.pushed(a).can_push(),
        s.pushed(a).pushed(b).can_peek(),
        s.pushed(a).pushed(b).front() == a,
{
    assert(s.slot_fits(s.tail() as int));
    law_push_appends(s, a);
    let p = s.pushed(a);
    assert(s.slot_fits(p.tail() as int));
    law_push_appends(p, b);
    let q = p.pushed(b);
    law_pop_takes_front(q);
    assert(q.contents() =~= seq![a, b]);
}

} // verus!
