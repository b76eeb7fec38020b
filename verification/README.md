# blackcap

The verified core of a WebAssembly jukebox: cartridges (`.wasm` components)
render audio, a host mixes and plays it. `src/` is a Verus library holding the
jukebox's logic with its contracts and proofs; `app/` is the host program and
the cartridge SDK's synthesis code around it (audio device, wasmtime, threads,
terminal front-end, floating-point DSP), which Verus does not see.

`src/`:

- `song` — note names (`c4` = 60), tracker lanes (`"a1 . . -  X-x-"`), the
  play order resolved against the patterns, and the frame-sorted timeline
  queried per render block;
- `text` — characters, Unicode whitespace, trimming, words, decimal integers;
- `cli` — the host's command line and the settings it yields;
- `play` — the host's run loop: when to stop, to crossfade and to retire a
  faded source;
- `crossfade` — the mixer's current and incoming sources;
- `delay` — delay lines with a read tap;
- `envelope` — ADSR stages;
- `noise` — the xorshift white-noise generator;
- `osc` — the oscillator waveforms;
- `fx` — stereo interleaving and the waveshaper's oversampling factor;
- `device` — choosing the output configuration of the audio device;
- `player` — the sample-rate and block-length checks of cartridges;
- `front` — cartridge labels, list selection, key handling, the texts shown;
- `shared` — state shared by the audio threads and the front-end.

`tests/` exercises the library.
