# daw-nexus

An audio relay. Senders deliver audio frames over TCP; the frames are encoded
as FLAC, packed into an MPEG transport stream and sent to a relay over SRT. The
packets that the relay sends back are decoded and played to listeners.

`src/` is the core of the relay, verified with Verus: each function states what
it does, and Verus proves that it does so. `tests/` runs it, and `app/` is the
program around it: sockets, tasks, threads and floating-point samples.

| module | what it does |
| --- | --- |
| `allocator` | which channels are taken, and which ring each channel plays from |
| `announce` | reads the id out of an announcement |
| `buffers` | what the byte buffers of `bytes` hold |
| `codec` | FLAC encoding and decoding of packets |
| `env` | reads environment files |
| `framing` | cuts the byte stream of a sender into frames |
| `header` | reads packet headers |
| `ingest` | packets that come over an encrypted connection |
| `mux` | packs frames into a transport stream |
| `playout` | routes packets to the rings of the channels |
| `ring` | the two ends of a ring buffer |
| `server` | the server without encryption |
| `session` | what becomes of one connection |

What is taken on trust are the contracts of the calls into other crates. Each
stands next to the module that makes the call, marked `external_body` or
`assume_specification`, under a comment that says what is claimed. Proofs about
all inputs that span several functions are named `law_`.
