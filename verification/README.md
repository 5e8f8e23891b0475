# meshcore

The core of a client for MeshCore radio companions, written in Rust and verified
with Verus.

- `src/frame.rs`: the framing of packets, the meaning of a received byte stream,
  and the laws of both
- `src/buffer.rs`: the receive buffer, kept in a `bytes::BytesMut`
- `src/tasks.rs`: what the read and write tasks of a link do next
- `src/events.rs`: events, contacts and event streams
- `src/contacts.rs`, `src/hex.rs`, `src/text.rs`: the contact cache, its keys, and
  the text that is compared and built
- `src/client.rs`, `src/error.rs`: the state of a client and how it changes
- `app/`: the asynchronous client around the library

The library waits for nothing: it is told what has been read or has happened, and
says what is to be done. `app/` does the waiting, and is generic in the event
dispatcher, the message reader and the command handler that it works with.
