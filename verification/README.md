# bittorrent

A BitTorrent client whose logic is a library verified with Verus.

* `src/` is the library: bencoding, metainfo and magnet links, the messages of the peer
  protocol and its extensions, the opening of a connection and the download of a piece,
  trackers over HTTP and UDP, the distributed hash table, and the board that the workers
  of a download share. Functions state in their contracts what they return, over
  mathematical views of the data; the modules named `laws` hold what relates several
  functions, such as that a message reads back from its bytes.
* `app/` is the program around the library: arguments, files, sockets and threads. It asks
  the library what to do, does it, and tells the library what came of it.
* `tests/` runs the library on concrete values.

Calls into other crates (SHA-1, hexadecimal digits, base64, multihashes, regular
expressions, JSON, random numbers) and into parts of std stand behind small functions
marked `external_body`, whose doc comments say what is taken for granted of the call.

Rates of peers are floating-point numbers and are computed in `app/`; the library orders
peers by an integer that grows with the rate.
