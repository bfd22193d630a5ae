# librtbit_lsd

Local service discovery for BitTorrent (BEP 14), with its logic verified by Verus.

- `src/` is the verified library: the text of announcements, how a datagram is read, the
  torrents whose peers are looked for, the limit on replies, and what is done with each datagram.
  It calls `httparse`, `atoi`, `librtbit-core` and `rand` through a few functions whose contracts
  are taken on trust; the comment above each names the outside function.
- `app/` is ordinary Rust around it: the multicast socket, the tasks and the streams of addresses.
- `tests/` runs the library on concrete messages.

Which address the text of a `Host` header stands for, or why none, is answered by a function that the caller
passes in; `app/` passes the standard library's parser.
