# airgap-xfer

Moves a file or a directory between two laptops that share nothing but a line
of sight: each shows QR codes in its terminal, and each reads the other's screen
with its webcam.

The protocol is a library verified with [Verus](https://github.com/verus-lang/verus);
the program around it is ordinary Rust.

## Layout

`src/` is the library.

| Module | What it holds |
|---|---|
| `frame`, `wire` | the frame envelope and its payloads, both ways |
| `qr` | code sizes, rasters, terminal form, encoding and scanning |
| `optical`, `machine`, `clock` | the channel, the loop that runs a protocol on it, time |
| `link`, `link_send`, `link_recv` | the handshake and the ladder of retries |
| `transport`, `receive`, `window`, `digest` | the transfer in windows of chunks |
| `session` | a whole transfer, retried with easier settings |
| `pack`, `cli`, `live`, `detect` | what the program decides around a transfer |
| `tui` | screen layout, keys, prompts, cells, camera queue |
| `agreement`, `delivery`, `completion`, `operator` | the laws of the handshake and of the transfer |

A protocol is a state that waits for the answer to one request. Its contract
says that a run made exactly the requests of its states, in order, until it was
over or a request failed; the laws are proved over every such run. Among them:

- a frame decodes to the payload it was made of, and a receiver that read only
  frames of one sender hands back exactly the sender's blob;
- two sides that read each other's LINK and GO agree on the terms of the link;
- the sender reports success only after an OK, and shows FIN only once every
  chunk was acknowledged;
- what is handed back always has the digest that was offered;
- what one end of an in-process channel shows, the other polls, in order and
  unchanged;
- for every offer that both displays can draw, and for every blob, there is a run
  of both sides over a channel that loses nothing in which they link and the
  blob arrives;
- an error of the channel is passed on as it is;
- sending asks the operator at most once, over all attempts and before the first
  frame; receiving asks nothing; and a decline is never retried.

What the library takes on trust of other crates and of `std` stands in functions
marked `external_body`, each with a comment on what is claimed.

`tests/` runs the library, `app/` is the program: arguments, files, camera and
terminal.
