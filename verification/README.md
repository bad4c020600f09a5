# fleet-audio

A streaming MIDI to audio renderer whose memory does not depend on the duration of the
piece. Its decisions are a library verified with Verus.

- `src/` is the verified library: the event ring (`ring`), the voice pool (`synth`), the mix
  buffer (`mix`), envelopes, drums and plucked strings (`voice`), the ear that listens to the
  output (`feel`), the bounded window under it (`window`), spool, HTTP, dials and live output
  (`io`), text reading (`text`), and the WAV progress (`wav`). Samples, levels and energies
  are type parameters; the arithmetic on them is handed in as functions, and `relation` says
  how the contracts speak of these.
- `app/` is the program: `f32` arithmetic, files, sockets, the audio device and the command
  line. It asks the library what to do and reports what came of it.
- `tests/` runs the library, alone and under a small sound engine.

The one assumption about code outside the library is the contract of `String::push` in
`src/text.rs`.
