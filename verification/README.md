# ring_buffer

A verified library with three parts:

- `shared_ring`: a byte ring buffer over a memory region (a shared-memory
  mapping in `app/`). The region's first eight bytes hold the head and tail
  counters, big-endian; the byte at position `p` sits at offset
  `8 + p % capacity`. Laws: first in, first out (`law_push_all`, `law_pop_n`,
  `law_first_in_first_out`, `law_peek_sees_oldest`), and what `is_full` and
  `is_empty` mean. They hold for any region, so long as the slot of each
  position pushed lies in it.
- `heap_ring`: a ring buffer of big-endian `u32` words in a heap vector, with
  word-level first-in-first-out laws where a whole word fits.
- `layout`, `keys`, `server`: the frames of a small key-value protocol, with
  the law that decoding an encoded request gives it back; dotted keys; the
  decisions of the server's loops.

`src/` is verified with Verus. `app/` is the program around it: the
shared-memory segment, the Unix socket client and server, and argument
handling. `tests/` runs the library on concrete values.
