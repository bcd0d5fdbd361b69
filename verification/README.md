# softmodem_dsp

The modulations of a telephone modem: V.21, V.22, V.22bis, V.34 and V.90,
with the V.8 and V.25 start-up, V.8 bis signals and DTMF. It works on linear
8 kHz samples and does no IO.

`src/` is a Verus library: the framing, coding, mapping and decoding of each
modulation, and the machines that run its handshake, training, data mode,
renegotiation, retrain and cleardown. Each function states what it returns
and what it changes, and public proof functions named `law_…` state what
holds across them, such as that a decoder gives back what the encoder sent.

`app/` is ordinary Rust around it: oscillators, filters, equalisers and
detectors, which are in floating point, and the `DataPump` of each
modulation.

`tests/` runs the library. `tests/modems.rs` and `tests/start_up.rs` connect
two ends to each other, symbol by symbol.

| Module | What it holds |
|---|---|
| `scrambler`, `uart`, `carrier`, `pump` | what the modulations share |
| `dpsk`, `qam`, `v21`, `v22`, `v22bis` | the modulations up to 2400 bit/s |
| `ansam`, `dtmf`, `v8`, `v8bis`, `automode` | the start of a call |
| `echo` | where the echo of what is sent returns |
| `v34` | phase 2, training, the trellis code and its decoder, and data mode |
| `v90` | the digital modem and the analogue modem |
