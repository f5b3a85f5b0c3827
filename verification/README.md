# rucoon

A small async runtime with a fixed task capacity, for resource constrained
environments, whose bookkeeping is written in Verus and proved.

- `src/` is the verified library:
  - `runtime/taskqueue/mpmc.rs`: the bounded ring queue with per-cell sequence
    numbers, proved to behave as a FIFO queue of capacity `N`;
  - `runtime/tasklist.rs` and `runtime/tasklist/status.rs`: the fixed-size task
    list and its slot protocol (empty, locked, stored, accessed), with one guard
    per task at a time;
  - `runtime.rs`, `runtime/executor.rs`, `runtime/multithreaded.rs`: the
    scheduling decisions of the single- and multi-threaded runtimes, as steps
    that the caller's loop drives, including work stealing;
  - `extensions/time.rs` and `extensions/time/`: the timer wheel, the sleep
    state, and the proof that a timer fires on exactly the update its target
    falls on;
  - `futures/yielder.rs`: the yield point.
- `tests/` exercises the library on concrete values.
- `app/` holds what runs around it: futures, wakers, mutexes, and the run loops.
