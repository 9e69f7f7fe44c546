# Sparkling core

The core of a download manager, written in Verus: what the program decides and computes
stands in executable functions with contracts that are proved.

* `src/segment.rs`, `src/http_engine/`: splitting a file into segments, the table that the
  workers share, the workers and their driver as state machines, batches, retries, the plan
  and the end of a download. `content.rs` holds the laws that lead from single blocks to the
  finished file.
* `src/throttle.rs`: the rate limit.
* `src/probe.rs`, `src/control_file.rs`, `src/disk.rs`, `src/paths.rs`: what is read from
  responses and files.
* `src/manager.rs`, `src/store.rs`, `src/task.rs`: the queue, the slots, recovery after a
  restart, and the records.
* `src/video/`: the yt-dlp front end: command lines, progress lines, page information, and
  the life of the process.
* `src/text.rs`: text functions over sequences of characters.

`app/` is ordinary Rust around the library: it reads and writes files, sends requests, runs
processes, keeps the task table in SQLite, and does what the state machines ask for. It is
spoken to line by line in JSON. `tests/` runs the library on concrete values, among them whole
downloads against a server in memory.
