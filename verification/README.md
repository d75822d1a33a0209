# burning_monitor

Detects threads of a process that keep a CPU core busy ("burning" threads),
and the small demo programs around the detector.

- `src/` is the verified library (Verus):
  - `monitor/buring_threads_monitor.rs`: the detector. Per-thread counters of
    consecutive samples over a threshold, and the phase machine
    (ready, idle, detecting, confirming, burning) that decides the next
    sampling interval and whether the user callback runs; the laws it obeys
    are public proof functions at the end of the file.
  - `monitor/cond_pair.rs`: one step of a bounded wait on a condition.
  - `monitor/rcpu.rs`: thread and sample types, thread names from `comm` bytes.
  - `text.rs`: the characters of a string, and comparing them.
  - `loop_test/`: the runtime choice, kick types and launch plans of the loop
    test, and the parser of its loop arguments.
- `app/` is the program: sampling threads from procfs, the monitoring thread,
  tokio runtimes, condition variables, logging and minidumps.
- `tests/` runs the library on concrete values.

CPU usage and thresholds are hundredths of a percent in the library; spans of
time are nanoseconds.
