# send2me

The rules of a peer-to-peer file transfer and folder-sync application,
written in Verus and proved against their contracts.

- `src/` is the verified library:
  - `paths`, `text`: file-name sanitising, export paths, temporary and
    conflict names, path text helpers;
  - `hashing`: BLAKE3 content digests of buffers and streamed files, as hex;
  - `chunking`, `framing`, `messages`, `receive`, `transfers`: how a file is
    cut into chunks, framed on the wire, checked on arrival and finalised,
    and how a transfer's status moves;
  - `manifest`, `sweep`: the folder-sync manifest (file rows and the intent
    queue with its retry and recovery rules), the start-up sweep, the
    handling of local changes and watcher events;
  - `bonds`, `pairing`, `devices`: bonded devices, pairing codes, discovery
    beacons, trusted devices and settings;
  - `drive`: the shared-drive room of a host and the guest's side;
  - `security`, `hardware`, `history`: the sealed security state, the lag
    monitor, the transfer history.
- `tests/` exercises the library on concrete values.
- `app/` is the desktop glue: configuration files, the stored sync
  database, folder walks, free-space queries and load sampling, all of which hand plain values to the library.
