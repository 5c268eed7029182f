# thread_monitor

Bookkeeping of a thread monitor, verified with Verus.

Threads are numbered when they start, and say when they start and finish. A thread may also say
what it is doing: it works on its payload, it is idle, it waits, it is done. A statistical
monitor samples these states and reports, for each thread, how often it was seen in each of them.

- `src/` is the library. `state` and `watcher` hold the state of a thread and the samples taken
  of it, `cell` what threads share of both; `thread_monitor` numbers the threads and queues what
  they say; `run` is the life of one thread. Under `monitor`, `table` and `profiler` are the steps
  of the two threads of the statistical monitor, `statistics` and `info` make its reports.
- `app/` spawns the threads, shares the library's values between them under locks, and carries
  messages from one to the other.
- `tests/` runs the library.

The library trusts what `queue` says of `crossbeam::queue::SegQueue`, and that `cell` and `clock`
name what `Mutex::new` and `Instant::duration_since` give. Of the readings of the clocks it trusts
only that of two readings of `Instant::now` the second is not the lesser one.
