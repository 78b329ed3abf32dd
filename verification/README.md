# safeposix

A verified model of a POSIX system call layer for isolated processes ("cages"): an
in-memory file system, pipes, unix and inet sockets, epoll, select and poll, shared memory,
semaphores, mutexes and condition variables, signals and process lifecycle.

Every system call in `src/` is written in Verus and carries a contract that says exactly what
it returns and how it changes the shared state, over views of that state (`FsView`,
`NetView`, `ShmView` and the cage's own tables). Calls that would wait make one attempt and
report `EAGAIN`; the caller decides whether to wait and try again. Work that only the host
can do (host sockets, memory mappings, host mutexes, waiting, timers) is done in `app/`,
which hands the library plain values and takes plain values back.

Layout:

- `src/errno.rs`, `src/fs_constants.rs`, `src/net.rs`: error numbers, constants, plain data.
- `src/path.rs`, `src/filesystem.rs`, `src/assoc.rs`: path normalization, the file system and
  its view, association tables.
- `src/cage.rs`: the cage and its descriptor table, with the invariant every call keeps.
- `src/fs_calls.rs`, `src/fs_stat.rs`, `src/fs_io.rs`, `src/fd_calls.rs`, `src/pipe.rs`,
  `src/mmap.rs`: file and descriptor calls.
- `src/net_calls.rs`, `src/unix_net.rs`, `src/sock_conn.rs`, `src/sock_io.rs`,
  `src/inet.rs`, `src/readiness.rs`: sockets, connections, data, and readiness.
- `src/shm.rs`, `src/sync.rs`, `src/sys_calls.rs`, `src/process.rs`: shared memory,
  synchronization, identity and signals, fork/exec/exit.
- `src/laws.rs`: properties that span calls, proved over the same specifications.
- `tests/`: the library's tests. `app/`: the host side.
