# quotes_stream

A stock quote server and its client. The server keeps a set of quotes moving
and streams the quotes a client asks for over UDP; a client asks over TCP with

    STREAM udp://127.0.0.1:34254 AAPL,TSLA

and keeps the stream alive by sending `PING` datagrams.

Layout:

- `src/` is the library, verified with Verus:
  - `quote.rs`: the text form of a quote (`ticker|price|volume|timestamp`),
    reading it back, and the volume rule of fresh quotes;
  - `server.rs`: reading a client's request, the replies, the streamed
    batches, and pruning the subscribers;
  - `client.rs`: the request the client sends and the replies it reads;
  - `protocol.rs`: what each side makes of the other's messages;
  - `endpoint.rs`: the `udp://` endpoint, read with the `url` crate;
  - `text.rs`, `decimal.rs`: trimming, splitting, lines, decimal numbers;
  - `random.rs`, `error.rs`: random draws and request errors.
- `app/` runs the server (`server`) and the client (`client -S .. -U .. -T ..`):
  sockets, threads, locks, files, and the floating-point price.
- `tests/` runs the library on concrete values.
