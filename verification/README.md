# sound-analysis

Captures the sound a computer is playing (loopback capture of an output
device), turns it into waveform data — per time window the minimum, maximum
and RMS amplitude — and posts batches of windows as JSON to a local field
injection endpoint (`/inject`).

## Layout

- `src/` — the verified library (Verus):
  - `waveform.rs` — framing, windowing and batching of PCM samples
    (`Aggregator`), generic over the sample and bin types; the sample
    arithmetic is passed in by the caller. Laws on the windowing
    (composition across pushes, conservation of samples, batch size).
  - `devices.rs` — choosing an output device by a case-insensitive part of
    its name, and the sorted device listing.
  - `inject.rs` — field names and definitions, and the retry policy for
    posting a batch (three attempts, waits of 400, 800 and 1600 ms).
  - `settings.rs` — checks of the window and interval settings, window and
    batch sizes, and the endpoint address.
  - `text.rs` — decimal numerals, substring search, code-point order.
- `app/` — the program: command line, audio capture, HTTP, JSON and the
  floating-point window statistics.
- `tests/` — tests of the library.
