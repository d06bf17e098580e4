# rpi-camilla-bridge

Streams PCM audio from a PC to a Raspberry Pi that runs CamillaDSP. A 16-byte
header opens each TCP connection and raw interleaved frames follow. The receiver
plays them into the ALSA loopback that CamillaDSP captures from, and keeps
CamillaDSP on the bridge configuration while a sender is connected.

`src/` is the library, verified with Verus: the wire protocol, sample encoding,
the choice of capture stream, the speaker-protection guard, the playback worker,
the network pumps, sessions and reconnecting, the CamillaDSP protocol, mDNS
bookkeeping, the virtual output, the `bridge.yml` wizard and the health check.
Whatever waits for the outside world is a step function there: it takes what
happened and says what to do next.

`app/` is the program around it: `pc-sender` and `pi-receiver`, with the sound
devices, sockets, threads and the command line.

`tests/` runs the library on concrete values.
