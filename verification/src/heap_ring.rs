//! A ring buffer of `u32` words kept in a heap vector of bytes.  Each word is
//! stored as four big-endian bytes; the byte with logical position `p` lives
//! at index `p % capacity`.  The head and tail counters count bytes and move
//! by four per word.

use vstd::prelude::*;
use crate::be::{be_bytes, be_value, lemma_be_roundtrip, u32_from_be, u32_to_be};
use crate::shared_ring::lemma_mod_distinct;

verus! {

/// What a word ring buffer is: its bytes, counters and capacity.
pub struct WordRingState {
    pub data: Seq<u8>,
    pub head: u32,
    pub tail: u32,
    pub capacity: nat,
}

impl WordRingState {
    /// The byte with logical position `pos`.
    pub open spec fn byte_at(self, pos: int) -> u8 {
        self.data[pos % (self.capacity as int)]
    }

    /// The word whose four bytes start at logical position `pos`.
    pub open spec fn word_at(self, pos: int) -> u32 {
        be_value(seq![self.byte_at(pos), self.byte_at(pos + 1), self.byte_at(pos + 2), self.byte_at(pos + 3)])
    }

    /// The counters are `capacity` apart.
    pub open spec fn is_full(self) -> bool {
        self.tail - self.head == self.capacity
    }

    /// The counters are equal.
    pub open spec fn is_empty(self) -> bool {
        self.head == self.tail
    }

    /// What `peek` and `pop` hand back: `0` when empty, else the word at the head.
    pub open spec fn front(self) -> u32 {
        if self.is_empty() { 0 } else { self.word_at(self.head as int) }
    }

    /// The bytes after the four bytes of `value` are written, in order, at
    /// logical positions `pos..pos + 4`.
    pub open spec fn written(self, pos: int, value: u32) -> Seq<u8> {
        let c = self.capacity as int;
        let b = be_bytes(value);
        self.data.update(pos % c, b[0]).update((pos + 1) % c, b[1]).update((pos + 2) % c, b[2]).update((pos + 3) % c, b[3])
    }

    /// The state `push(value)` leaves: unchanged when full, else the word
    /// written at the tail and the tail advanced by four.
    pub open spec fn pushed(self, value: u32) -> WordRingState {
        if self.is_full() {
            self
        } else {
            WordRingState {
                data: self.written(self.tail as int, value),
                tail: (self.tail + 4) as u32,
                ..self
            }
        }
    }

    /// The state `pop` leaves: unchanged when empty, else the head advanced by four.
    pub open spec fn popped(self) -> WordRingState {
        if self.is_empty() {
            self
        } else {
            WordRingState { head: (self.head + 4) as u32, ..self }
        }
    }

    /// The inputs on which `peek` runs without a panic.
    pub open spec fn can_peek(self) -> bool {
        !self.is_empty() ==> self.capacity > 0
    }

    /// The inputs on which `pop` runs without a panic.
    pub open spec fn can_pop(self) -> bool {
        !self.is_empty() ==> self.capacity > 0 && self.head <= u32::MAX - 4
    }

    /// The inputs on which `push` runs without a panic.
    pub open spec fn can_push(self) -> bool {
        &&& self.head <= self.tail
        &&& !self.is_full() ==> self.capacity > 0 && self.tail <= u32::MAX - 4
    }

    /// A well-formed queue of words: the counters are at most `capacity`
    /// apart and a whole number of words apart.
    pub open spec fn wf(self) -> bool {
        &&& 0 < self.capacity
        &&& self.data.len() == self.capacity
        &&& self.head <= self.tail <= self.head + self.capacity
        &&& (self.tail - self.head) % 4 == 0
    }

    /// The queued words, oldest first.
    pub open spec fn words(self) -> Seq<u32> {
        Seq::new(((self.tail - self.head) / 4) as nat, |j: int| self.word_at(self.head + 4 * j))
    }
}

/// A ring buffer of `u32` words over a heap vector of bytes.
#[derive(Debug)]
pub struct RingBuffer {
    data: Vec<u8>,
    pub head: u32,
    pub tail: u32,
    capacity: usize,
}

/// The view's `head` and `tail` are the public fields of the same names, and
/// its `data` and `capacity` are the byte vector and its capacity.
impl View for RingBuffer {
    type V = WordRingState;

    closed spec fn view(&self) -> WordRingState {
        WordRingState { data: self.data@, head: self.head, tail: self.tail, capacity: self.capacity as nat }
    }
}

impl RingBuffer {
    /// The vector holds `capacity` bytes and the capacity fits in a `u32`.
    pub open spec fn inv(&self) -> bool {
        &&& self@.data.len() == self@.capacity
        &&& self@.capacity <= u32::MAX
    }

    /// A buffer of `capacity` zero bytes with both counters at zero.
    pub fn new(capacity: usize) -> (r: Self)
        requires
            capacity <= u32::MAX,
        ensures
            r.inv(),
            r@.data == Seq::new(capacity as nat, |i: int| 0u8),
            r@.head == 0,
            r@.tail == 0,
            r@.capacity == capacity,
    {
        let r = RingBuffer { data: vec![0; capacity], head: 0, tail: 0, capacity };
        assert(r@.data =~= Seq::new(capacity as nat, |i: int| 0u8));
        r
    }

    /// Whether the counters are `capacity` apart.
    pub fn is_full(&self) -> (r: bool)
        requires
            self.inv(),
            self@.head <= self@.tail,
        ensures
            r == self@.is_full(),
    {
        (self.tail - self.head) == (self.capacity as u32)
    }

    /// Whether the counters are equal.
    pub fn is_empty(&self) -> (r: bool)
        ensures
            r == self@.is_empty(),
    {
        self.head == self.tail
    }

    /// The four bytes at logical positions `start..start + 4`, read as a word.
    fn read_word(&self, start: u32) -> (r: u32)
        requires
            self.inv(),
            self.capacity > 0,
        ensures
            r == self@.word_at(start as int),
    {
        let cap = self.capacity as u64;
        let index = start as u64 % cap;
        let mut result: [u8; 4] = [0; 4];
        let mut counter: usize = 0;
        while counter < 4
            invariant
                self.inv(),
                cap == self.capacity,
                cap > 0,
                index == start as u64 % cap,
                counter <= 4,
                forall|k: int| 0 <= k < counter ==> result@[k] == #[trigger] self@.byte_at(start + k),
            decreases 4 - counter,
        {
            let ifx = index + counter as u64;
            proof {
                vstd::arithmetic::div_mod::lemma_add_mod_noop_right(counter as int, start as int, cap as int);
            }
            result[counter] = self.data[(ifx % cap) as usize];
            counter += 1;
        }
        assert(result@[0] == self@.byte_at(start + 0));
        assert(result@[1] == self@.byte_at(start + 1));
        assert(result@[2] == self@.byte_at(start + 2));
        assert(result@[3] == self@.byte_at(start + 3));
        assert(result@ =~= seq![self@.byte_at(start as int), self@.byte_at(start + 1), self@.byte_at(start + 2), self@.byte_at(start + 3)]);
        u32_from_be(result)
    }

    /// The word at the head, or `0` when the buffer is empty; the buffer is
    /// left as it is.
    pub fn peek(&self) -> (r: u32)
        requires
            self.inv(),
            self@.can_peek(),
        ensures
            r == self@.front(),
    {
        if self.is_empty() {
            return 0;
        }
        self.read_word(self.head)
    }

    /// Hands back the word at the head and advances the head by four; when
    /// the buffer is empty, hands back `0` and changes nothing.
    pub fn pop(&mut self) -> (r: u32)
        requires
            old(self).inv(),
            old(self)@.can_pop(),
        ensures
            final(self).inv(),
            r == old(self)@.front(),
            final(self)@ == old(self)@.popped(),
    {
        if self.is_empty() {
            return 0;
        }
        let result = self.read_word(self.head);
        self.head += 4;
        result
    }

    /// Writes the four bytes of `value` at the tail and advances the tail by
    /// four; when the buffer is full, changes nothing.
    pub fn push(&mut self, value: u32)
        requires
            old(self).inv(),
            old(self)@.can_push(),
        ensures
            final(self).inv(),
            final(self)@ == old(self)@.pushed(value),
    {
        if self.is_full() {
            return;
        }
        let cap = self.capacity as u64;
        let result = u32_to_be(value);
        let tail = self.tail as u64;
        self.data.set((tail % cap) as usize, result[0]);
        self.data.set(((tail + 1) % cap) as usize, result[1]);
        self.data.set(((tail + 2) % cap) as usize, result[2]);
        self.data.set(((tail + 3) % cap) as usize, result[3]);
        self.tail += 4;
    }
}


/// Writing a word at `pos` puts its four bytes at positions `pos..pos + 4`
/// and leaves every other slot alone, when the capacity holds a whole word.
proof fn lemma_written(s: WordRingState, pos: int, v: u32)
    requires
        s.capacity >= 4,
        s.data.len() == s.capacity,
        pos >= 0,
    ensures
        s.written(pos, v).len() == s.capacity,
        forall|m: int| 0 <= m < 4 ==> #[trigger] s.written(pos, v)[(pos + m) % (s.capacity as int)] == be_bytes(v)[m],
        forall|p: int| pos - s.capacity + 4 <= p < pos ==>
            #[trigger] s.written(pos, v)[p % (s.capacity as int)] == s.data[p % (s.capacity as int)],
{
    let c = s.capacity as int;
    lemma_mod_distinct(pos, pos + 1, c);
    lemma_mod_distinct(pos, pos + 2, c);
    lemma_mod_distinct(pos, pos + 3, c);
    lemma_mod_distinct(pos + 1, pos + 2, c);
    lemma_mod_distinct(pos + 1, pos + 3, c);
    lemma_mod_distinct(pos + 2, pos + 3, c);
    assert forall|p: int| pos - c + 4 <= p < pos implies
        #[trigger] s.written(pos, v)[p % c] == s.data[p % c] by {
        if p >= 0 {
            lemma_mod_distinct(p, pos, c);
            lemma_mod_distinct(p, pos + 1, c);
            lemma_mod_distinct(p, pos + 2, c);
            lemma_mod_distinct(p, pos + 3, c);
        } else {
            vstd::arithmetic::div_mod::lemma_add_mod_noop_right(p, c, c);
            vstd::arithmetic::div_mod::lemma_mod_self_0(c);
            assert((p + c) % c == p % c) by {
                vstd::arithmetic::div_mod::lemma_mod_add_multiples_vanish(p, c);
            }
            lemma_mod_distinct(p + c, pos + c, c);
            lemma_mod_distinct(p + c, pos + 1 + c, c);
            lemma_mod_distinct(p + c, pos + 2 + c, c);
            lemma_mod_distinct(p + c, pos + 3 + c, c);
            vstd::arithmetic::div_mod::lemma_mod_add_multiples_vanish(pos, c);
            vstd::arithmetic::div_mod::lemma_mod_add_multiples_vanish(pos + 1, c);
            vstd::arithmetic::div_mod::lemma_mod_add_multiples_vanish(pos + 2, c);
            vstd::arithmetic::div_mod::lemma_mod_add_multiples_vanish(pos + 3, c);
        }
    }
}

/// Pushing onto a well-formed buffer with room for a whole word (and whose
/// tail counter can still grow by four) succeeds, keeps it well formed, and
/// appends the word to the queued words.
pub proof fn law_push_appends_word(s: WordRingState, v: u32)
    requires
        s.wf(),
        s.tail - s.head + 4 <= s.capacity,
        s.tail <= u32::MAX - 4,
    ensures
        s.can_push(),
        !s.is_full(),
        s.pushed(v).wf(),
        s.pushed(v).words() == s.words().push(v),
{
    let c = s.capacity as int;
    let t = s.tail as int;
    let n = s.pushed(v);
    lemma_written(s, t, v);
    lemma_be_roundtrip(v);
    assert forall|j: int| 0 <= j < n.words().len() implies n.words()[j] == s.words().push(v)[j] by {
        let p = s.head + 4 * j;
        if j < s.words().len() {
            assert(n.byte_at(p) == s.byte_at(p));
            assert(n.byte_at(p + 1) == s.byte_at(p + 1));
            assert(n.byte_at(p + 2) == s.byte_at(p + 2));
            assert(n.byte_at(p + 3) == s.byte_at(p + 3));
        } else {
            assert(p == t);
            assert(n.byte_at(t + 0) == be_bytes(v)[0]);
            assert(n.byte_at(t + 1) == be_bytes(v)[1]);
            assert(n.byte_at(t + 2) == be_bytes(v)[2]);
            assert(n.byte_at(t + 3) == be_bytes(v)[3]);
            assert(seq![n.byte_at(p), n.byte_at(p + 1), n.byte_at(p + 2), n.byte_at(p + 3)] =~= be_bytes(v));
        }
    }
    assert(n.words() =~= s.words().push(v));
}

/// Popping from a well-formed buffer that is not empty (and whose head counter
/// can still grow by four) hands back the oldest queued word, keeps the
/// buffer well formed, and drops that word from the queued words.
pub proof fn law_pop_takes_first_word(s: WordRingState)
    requires
        s.wf(),
        !s.is_empty(),
        s.head <= u32::MAX - 4,
    ensures
        s.can_pop(),
        s.front() == s.words()[0],
        s.popped().wf(),
        s.popped().words() == s.words().drop_first(),
{
    let n = s.popped();
    assert(s.words()[0] == s.word_at(s.head + 4 * 0));
    assert forall|j: int| 0 <= j < n.words().len() implies n.words()[j] == s.words().drop_first()[j] by {
        assert(n.head + 4 * j == s.head + 4 * (j + 1));
    }
    assert(n.words() =~= s.words().drop_first());
}

/// On a well-formed buffer, `is_empty` tells whether no word is queued and
/// `is_full` whether the queued words fill the capacity.
pub proof fn law_word_full_and_empty(s: WordRingState)
    requires
        s.wf(),
    ensures
        s.is_empty() <==> s.words().len() == 0,
        s.is_full() <==> 4 * s.words().len() == s.capacity,
{
}

/// A word pushed onto an empty buffer that can hold a word is the word that
/// `peek` and `pop` then hand back, and the pop leaves no word queued.
pub proof fn law_push_then_pop_word(s: WordRingState, v: u32)
    requires
        s.wf(),
        s.is_empty(),
        s.capacity >= 4,
        s.tail <= u32::MAX - 4,
    ensures
        s.can_push(),
        s.pushed(v).can_pop(),
        s.pushed(v).front() == v,
        s.pushed(v).popped().words() == s.words(),
{
    law_push_appends_word(s, v);
    let n = s.pushed(v);
    law_pop_takes_first_word(n);
    assert(n.words() =~= seq![v]);
    assert(n.popped().words() =~= s.words());
}


/// On an empty buffer (equal counters) `peek` and `pop` hand back `0` and
/// `pop` changes nothing; on a full one (counters `capacity` apart) `push`
/// changes nothing.  Otherwise `pop` moves only the head, by four, and
/// `push` moves only the tail, by four.
pub proof fn law_empty_and_full_buffers(s: WordRingState, v: u32)
    ensures
        s.head == s.tail ==> s.front() == 0 && s.popped() == s,
        s.tail - s.head == s.capacity ==> s.pushed(v) == s,
        s.head != s.tail && s.head <= u32::MAX - 4 ==> {
            &&& s.popped().head == s.head + 4
            &&& s.popped().tail == s.tail
            &&& s.popped().data == s.data
            &&& s.popped().capacity == s.capacity
        },
        s.tail - s.head != s.capacity && s.tail <= u32::MAX - 4 ==> {
            &&& s.pushed(v).head == s.head
            &&& s.pushed(v).tail == s.tail + 4
            &&& s.pushed(v).capacity == s.capacity
        },
{
}

} // verus!
