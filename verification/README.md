# imessage-exporter

The rules behind an export of a message database, verified with Verus.

- `src/runtime.rs`: the state of a session: who a message is from, which chat it belongs to, what
  a chat's file and its place for attachments are called, what is reported as a duplicate, and
  what a session does in which order.
- `src/listing.rs`: a list of names on one line, shortened to the length of a file name.
- `src/order.rs`: the members of a chat in order.
- `src/text.rs`: text measured and clipped in bytes, and numbers in decimal.
- `src/tables.rs`: rows of the database, and identifiers for rows that mean the same thing.
- `src/options.rs`: what the user has asked for, and paths.
- `app/`: reads the database, and does what a session has to do.
