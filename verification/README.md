# libsrs

The core of the SRS media system, in Verus: codecs, bitstreams, container bookkeeping and
licensing rules, with contracts that are proved.

- `src/` is the library. Every item in it is verified.
  - `codec`, `bitstream`, `packet`: the lossless grayscale codec and its stream.
  - `srsv2`: the SRSV2 video path. Planning, syntax, prediction, rate control and partitioning are
    here; transforms and entropy coding are done by the caller, whose results the functions take.
  - `container`, `contract`, `pipeline`: what a muxer and a demuxer keep track of, codec policy, and
    the traits of a transcoding run.
  - `keys`, `licensing_proto`, `licensing_client`: keys and signed envelopes, licensing messages,
    and what a client makes of them.
- `app/` is ordinary Rust around it: floating-point transforms and color conversion, files,
  sockets, serialized copies of the licensing messages, and the seams to an entropy coder, a block
  format and media sources.
- `tests/` holds the tests.

A round trip ("what is written is read back") is stated next to the format it is about, as a public
proof function. Calls into `base64`, `crc32fast` and `ed25519-dalek` go through small wrappers in
`keys` and `packet`, whose contracts are taken on trust.
