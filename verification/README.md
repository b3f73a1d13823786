# eunix

A small Unix-like operating system that runs in one process: a kernel with
processes and open files, a virtual filesystem that routes paths to mounted
drivers, and three drivers — `e5fs`, an inode filesystem stored on a device
image; `devfs`, which lists the machine's devices; and `binfs`, which holds
the system's programs.

The library under `src/` is verified with Verus:

- `eunix::e5fs` — the on-disk layout (superblock, inode table, blocks, free
  blocks list), its encoding, directories, and every file operation, with
  laws on what a write reads back as;
- `eunix::fs` — file modes, path splitting, the virtual filesystem and its
  routing of each operation to the driver that holds the path;
- `eunix::virtfs`, `eunix::devfs`, `eunix::binfs` — the in-memory drivers;
- `eunix::kernel` — devices, mounts, processes and their descriptors;
- `eunix::users` — `/etc/passwd` and `/etc/group` records;
- `machine`, `shell`, `programs` — the machine's device table, command
  lookup, and the work of each program (the lines it prints and its exit
  code);
- `text`, `util` — strings and sorted records, and the clock.

`app/` is the interactive shell around the library: it reads the machine
description, keeps device images on disk, parses program arguments, and
prints what the programs return.
