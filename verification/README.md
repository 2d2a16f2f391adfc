# tunnel_proxy

The core of a TCP tunnelling proxy, written in Verus.

* `src/protocol.rs` – frames (stream number, length, contents) and the codec
  that reads them from and writes them to a `bytes::BytesMut`; the packets of
  the tunnelling protocol and their byte layout. The round trips of both are
  proved.
* `src/http_parser.rs` – a scanner that reads an HTTP request chunk by chunk
  until its headers and the body that `Content-Length` announces are in.
* `src/wire.rs`, `src/buffer.rs`, `src/text.rs` – big-endian numbers
  (`byteorder`), the byte buffer (`bytes`), and the string functions of `std`
  that the above use.
* `src/utils.rs` – the error type; `src/client.rs`, `src/server.rs` – plain types.
* `app/` – the program: sockets, the `tokio` runtime, `tokio_util` framing.
