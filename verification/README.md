# agentsync_core

Real-time sync of folders of markdown files between devices, with
point-in-time recovery. The rules of the system are a Verus-verified
library, and so is reading and writing the replicated Automerge document
(through small trusted calls into the `automerge` crate). A thin program
around it does the I/O: disk, sockets, the file watcher, the terminal.

## Layout

- `src/` — the verified library.
  - `path`, `text`, `codec` — vault paths, text helpers, encodings.
  - `doc` — the vault document as a tree of files and directories: writing,
    renaming, deleting, listing, labels and restoring an earlier state;
    `doc::replica` reads that tree out of the Automerge document, writes a
    changed tree back, opens stored documents and takes peers' sync
    messages.
  - `fs` — which files are synced (`binding`, `sync_ignore`), what a change on
    disk does to the document (`ingest`), echo suppression and debouncing.
  - `vault` — what writing the document back to disk does.
  - `net` — the hub URL's endpoint, the handshake and session decisions of
    hub and peer, reconnect backoff, authorization changes.
  - `auth`, `identity`, `peers_md`, `tls`, `store`, `constants` — keys,
    tokens, transcripts, the `authorized_keys` file, storage layout.
  - `cli` — the command line as data, argument rewriting, configuration and
    the setup helpers.
- `tests/` — tests of the library.
- `app/` — the `agentsync` program: clap parsing, config and identity files,
  the disk work the library decides, the filesystem watcher, TLS WebSockets.
