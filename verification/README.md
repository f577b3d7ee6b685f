# segy_core

Converts microseismic station recordings (one text file per station and
minute, under `root/<YYYY-MM-DD>/<device>/`) into SEG-Y files, in batches or
live as recordings arrive.

The library under `src/` is written in Verus and its behaviour is proved
against the contracts on each function:

- `encode`, `header`, `trace`, `writer`: the byte layout of the 3200-byte
  textual header, the 400-byte binary header and the traces, and the writer
  that refuses traces before the headers or of the wrong length;
  `layout` proves the shape of a whole file.
- `text`, `order`, `assoc`: the string, ordering and association-list
  tools the rest is specified with.
- `time`: UTC instants as `chrono` reads and writes them.
- `parser`, `gps`: the text formats of station recordings and GPS tables.
- `dataset`: which files a dataset takes and how they group into minutes.
- `synth`: trace headers, numbering, file names and text headers of the
  files written; `filewriter` numbers the traces of a file of many minutes.
- `monitor`: the live monitor's decisions: each recording's path taken
  once, the recordings present at the start skipped unless backfilling,
  which minutes wait, which files are due at a poll, which recordings are
  late and whether they are dropped or kept, a minute put back when its
  file could not be written, what is written when it stops, and what it
  reports.
- `cli`: the command line's revision names and progress redraws.

`app/` is the command-line program around it: argument parsing, the file
system, floating-point conversions, and the monitor's polling loop, which
performs what the library decides.
