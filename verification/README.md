# zist

Format-agnostic, in-place (de)compression: `zist` compresses, `unzist`
decompresses (format found by magic bytes), `gzist`/`xzist`/`bzist` compress
as gzip/xz/bzip2. Flags follow `gzip`.

## Layout

- `src/` — the library, verified with Verus:
  - `format.rs`: formats, suffixes, names, detection by magic bytes;
  - `naming.rs`: output paths (`x` → `x.zst`, `x.gz` → `x`);
  - `codec.rs`: the zstd, flate2, xz2 and bzip2 codecs on byte buffers, behind
    trusted wrappers whose results are named;
  - `io.rs`: encoding and decoding in a format, compression levels, the cap on
    decompressed output, errors, their messages, and options;
  - `session.rs`: the protocol of one (de)compression — which file system
    actions happen in which order, and the laws that the source is removed only
    after the whole output was written, that nothing is clobbered, that a
    partial output is removed on a failure once the source was opened (a
    source that cannot be opened leaves the empty output behind), and that
    streaming only reads;
  - `cli.rs`: the command line, the defaults of the program's name, what a
    run does with each file, the expansion of glob patterns among the file
    arguments, the lines that report each file, the order of a run over files
    and its exit status, and the messages of refused command lines;
  - `walk.rs`: `--recursive`, each directory's entries sorted by path.
- `app/` — the program (Unix): arguments, file system actions, glob matching
  on disk, printing.
- `tests/` — tests of the library, including the in-place flows against a file
  system held in memory.
