# meshconf

Peer-to-peer video conferencing in the terminal.

Every participant runs the same program. Whoever has the ticket of one participant
can join; from then on peer lists, which everybody broadcasts, connect each
participant with each other directly. Audio travels in QUIC datagrams, every video
frame on a stream of its own.

## Layout

`src/` is the library, verified with Verus: what is computed and decided, without
I/O.

| Modules | |
|---|---|
| `protocol`, `control`, `wire` | framing of media objects, datagrams and control messages |
| `dispatch`, `jitter`, `audio`, `audio_mixer` | the way of received media |
| `video_encode`, `video_decode`, `video_capture`, `vimage` | HEVC units, frame numbering, decoder and encoder sessions, pixel planes |
| `bandwidth` | adaptive bitrate |
| `room`, `peer_map`, `broadcaster`, `addr`, `net`, `b64` | membership, addresses and tickets |
| `video_compositor`, `video_display`, `video_display_window` | the gallery, in the terminal and in a window |
| `term`, `tui`, `kitty`, `text` | what is written to a terminal |
| `session` | the way from the command line into a call |
| `pool` | reusable buffers |

Contracts are stated over sequences of bytes, characters and pixels. The public
proof functions whose names begin with `law_` state what holds across functions:
that a reader gives back what a writer wrote, that packets are played in order and
on time, that of two participants exactly one connects to the other, that tiles do
not overlap.

Calls into other crates stand in small functions marked
`#[verifier::external_body]`. Their contracts are believed; the doc comment of each
says which function is called and what is claimed of it.

`app/` is the program around the library: sockets, the terminal, the camera and the
audio engine. Audio and video hardware is reached through macOS frameworks; on other
systems the program runs without a camera and without sound. The macOS parts use
`camera_stream`, `block2`, `objc2` and its framework crates, and `opus`; the window
(`--cfg feature="minifb"`) uses `minifb`. The manifest does not list these.

`tests/` runs the library on concrete values.

## Usage

```
meshconf                start a call
meshconf <ticket>       join a call
```

| Flag | |
|---|---|
| `--test-pattern` | send animated colour bars instead of the webcam |
| `--kitty` | display video in the terminal instead of a window |
| `--relay <url>` | use this relay server |
| `--no-relay` | direct connections only |

Press `q` or `Ctrl-C` to leave. The call goes on for the others.
