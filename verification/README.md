# pathsight

What a path means for a given process: its mount namespace, root and working
directory, the inode the path resolves to, the mount that covers it, and who
owns the file inside the process's user namespace.

- `src/` is the verified library:
  - `text.rs`: splitting, trimming, line breaking, `u32` parsing and decimal
    printing over characters, each stated as a specification over `Seq<char>`;
  - `mountinfo.rs`: `/proc/<pid>/mountinfo` lines, octal escapes, overlay
    directories, and finding the covering mount;
  - `procfs.rs`: the ids in `/proc/<pid>/status`, the id maps, and mapping an
    id into a user namespace;
  - `path_resolution.rs`: which directory a path is resolved from, what a
    failed open means, what a `statx` reply must carry;
  - `report.rs`: the inspection result, its warnings, the text report and the
    record the JSON report is written from;
  - `inspect.rs`: assembling an inspection, and the rules around it.
- `app/` is the `psight` command: argument parsing, reading `/proc`, the
  `openat2`/`statx` system calls, and JSON serialisation.
