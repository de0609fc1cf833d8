# raw_lite_core

The core of a desktop tool that batch-converts RAW camera files into smaller
JPEGs, written in Verus. The functions in `src/` carry contracts that Verus
proves, except the few small functions that call the `image` crate or render
an outside error, whose contracts are trusted; reading directories, running the external `dcraw`/`dcraw_emu`
decoder and writing files happen in `app/`, which hands the results to the
library and does what it decides.

## Layout

- `src/options.rs` — conversion options and their validation.
- `src/error.rs` — the error type.
- `src/path.rs` — paths as text (`/`-separated): components, file name, stem, extension.
- `src/raw.rs` — which files are RAW files.
- `src/order.rs` — the listing order of discovered files, proved a total order.
- `src/discovery.rs` — the walk rule and the listing of discovered files.
- `src/decoder.rs` — the decoder's arguments, the wait for it, its failure report.
- `src/output.rs` — output file names that never overwrite an existing file.
- `src/render.rs` — PPM to JPEG through the `image` crate: decode, shrink to fit, encode.
- `src/batch.rs` — bookkeeping of a batch: one outcome per file, in order.
- `src/desktop.rs` — decoder search order and the reports the shell shows.
- `app/` — file system, decoder process and the Tauri shell.
- `tests/` — tests of the library, including comparisons with `std::path`.
