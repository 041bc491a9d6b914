# kalico_host_rt

The host side of a motion controller's runtime, verified with Verus.

- `host_io`: the message protocol (dictionary, encoding, decoding), the frames
  and their sequence window, the reactor that drives a connection, the identify
  handshake, native calls, events, and a small client without a thread.
- `passthrough_queue`: the queues of messages that are sent at a controller's
  clock, the router over all controllers, and its clock estimates.
- `clock_sync`, `credit`, `endstop`, `fault`, `producer`, `transport`: samples
  of a controller's clock, flow control, endstop arming, faults, curve loads,
  message values and errors.
- `ethercat`: the endpoint of a drive: torque switch, piece ring, claim,
  commands, captures.
- `text`, `bytes`, `ordered_map`, `clock`, `rounding`: what the others are built
  on. `rounding` computes in whole numbers what double and single precision give.

`src/` computes and decides. It neither reads nor writes anything: the reactor,
the handshakes and the endpoint say what is to be done next and are told what
came of it. Times are numbers of nanoseconds that the caller hands in.

`app/` carries this out: ports, threads, files, clocks, and the estimates that
need floating point. The native frame codec is a trait that the embedding
program implements.

`tests/` runs the library.
