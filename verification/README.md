# agni

A small UPnP media server: it makes itself known on the local network, lists directories of videos
as a content directory, and serves the files, whole or in part.

- `src/` is the library. It holds every decision that the server makes, with contracts that Verus
  proves: how directories are listed and ordered (`directory`, `natural`, `order_laws`), what the
  server remembers (`state`), how browse requests are read and answered (`browse`, `browse_laws`,
  `types`, `reply`), which stretch of a file is sent and under which conditions (`query`,
  `conditional`, `header_values`, `serve`, `stream`), which messages are sent on the network (`ssdp`,
  `ssdp_laws`) and how a socket joins a group (`net`). `text` has the string functions that the rest
  is built on.
- `src/outside.rs` holds everything that is taken on trust: the calls into other crates, each with
  what is claimed of it.
- `app/` is the program around the library: routes, sockets, files and logging.
- `tests/` runs the library on concrete values.
