# virtiofsd

The host-side core of a virtio-fs daemon, verified with Verus.

The daemon shares a directory of the host with a guest. The guest caches what it has looked up;
when something changes on the host, the daemon tells the guest what to drop.

* `src/passthrough/` keeps what the guest has looked up: a bidirectional index between inodes and
  directory entries.
* `src/notify_invalidate/` normalizes the events of the host filesystem, decides which
  notifications they call for, and frames those notifications.
* `src/oslib/` lays out sequences of system calls: opening a path without leaving a directory,
  and making a pipe that is not inherited.
* `src/sandbox.rs` and `src/seccomp.rs` cover the isolation of the daemon.
* `src/path.rs`, `src/bytes.rs`, `src/fuse.rs` and `src/text.rs` hold what the others build on:
  paths, byte strings, the wire format and decimal numbers.

Functions state what they return or change. Where that rests on the machine, as the byte order
does, the function that asks says nothing of the answer, and another one that takes the answer
as an argument is exact. What holds across functions is stated by the
proof functions whose names begin with `law_`.

What is taken on trust is marked `external_body` or `external_type_specification`: the byte order
of numbers in memory (`vm_memory`), the sending end of a channel (`crossbeam_channel`), and from
the standard library I/O errors, the error of the last system call and lowercase text.

`app/` holds the threads, descriptors and system calls around the library.
