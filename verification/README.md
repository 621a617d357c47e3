# miner_scanner

Detection of common Bitcoin miners (Bitaxe, Antminer, Whatsminer, Avalon and
CGMiner-compatible devices) on a local network, verified with Verus.

A host is probed over HTTP on port 80 and over the CGMiner API on port 4028.
The library holds everything that decides: the HTTP/1.x response framing
(header block, `Content-Length`, chunked coding), the response head parser,
the `WWW-Authenticate` realm parser, the per-family scoring rules, the
classification and the merging of the two probes' results, and the two
probes themselves as state machines that say what to do next.

Layout:

- `src/text.rs`, `src/bytes.rs`: character and byte primitives with their
  specifications (search, split, trim, integer parsing, UTF-8).
- `src/detection/`: scoring rules and `detect`.
- `src/http/`: framing (`message.rs`), head parsing (`head.rs`),
  classification (`classify.rs`), response reading (`fetch.rs`) and the
  HTTP probe (`probe.rs`).
- `src/cgm.rs`: the CGMiner API probe.
- `src/miner.rs`: families, addresses, detections and their merge.
- `app/`: the asynchronous driver (tokio, futures-util, ipnet) that performs
  the probes' network actions and scans a whole subnet.
