# rustdb

A buffer pool for a page-oriented database, written in Verus.

The pool keeps pages of a database file in a fixed number of frames. A page that
is held keeps its frame. When no frame is free, the LRU-K policy picks a frame
whose page nobody holds; a dirty page is written to disk before its frame is used
for another one.

- `src/` is the verified library. It performs no disk access: an operation that
  needs the disk returns a request (`step`) and goes on with the reply.
  - `pool`, `guard`, `node`, `replacer`, `page`: the executable parts.
  - `state`: the pool as a mathematical value, and what each operation does to it.
  - `coherence`, `system`, `availability`, `references`, `latching`, `flushing`,
    `laws`: what holds of the pool in every run, whether or not the disk fails.
  - `calls`: that every call of the pool is a step of such a run.
- `app/` drives the library with tokio: it performs the disk accesses, and has
  tasks that run side by side wait for the bytes of pages.
- `tests/` run the library over a disk in memory.

Three things are left to the caller. With a request under way no other operation
may be started, though references can be given back, and guards taken and given
back. Where the pool refuses a guard, or a flush cannot go on because a guard is
out, the caller waits and asks again. And references and guards are given back by
their `release`, each guard before the reference that it was taken with; to drop
them gives nothing back.
