# Compactor

A lossless, context-mixing compressor, written in Rust and verified with Verus.
Every item of the library carries a contract that Verus proves; the laws that
span several functions are public proof functions named `law_…`. Two functions
of the standard library are trusted to do what their documentation says:
`String::push` and `String::from_utf8_lossy`.

## What is proved

- Unpacking gives back exactly what was packed, whatever the data and the level
  (`container::law_round_trip`). A payload byte stands for 4096 bytes of the
  data at the most, so the bound that keeps out forged sizes never keeps out an
  archive.
- An archive of which any part at the end is missing is refused
  (`container::law_cut_archive_is_refused`).
- An archive is never longer than its data by more than the 19-byte header.
- Whatever is unpacked has the declared size and the declared CRC-32; every
  other archive is refused with a reason, and no header makes the decoder panic
  or run without bound.
- The decoder follows the encoder bit by bit, with the model in the same state
  on both sides, and never reads past a stream that the encoder finished.
- The caller's progress function is called with every mark and with the end;
  reports never go back and end with the total.
- The job registry holds at most 32 jobs, at most two of them running, and only
  ever drops finished ones, the oldest first.
- Text that is quoted as JSON is read back as it was; no file name can end the
  header it stands in; no URL can be taken for an option.

## Archive format

```
offset  size  field
0       4     magic "CPT6"
4       1     version (1)
5       1     method: 0 = stored, 1 = context model
6       1     level used
7       8     size of the data, little endian
15      4     CRC-32 of the data
19      ...   payload
```

If the modelled payload is not smaller than the data, the data is stored as it
is.

## Layout

| Directory | Contents |
| --- | --- |
| `src/` | the library: codec, archives, and the decisions of the programs around it |
| `tests/` | its tests |
| `app/` | the command line program and the web server: files, processes, sockets, threads, floating point |

The program looks for its page (`ui.html`) and its clip (`done.m4a`) next to the
executable and in the current directory.

## Usage

```
compactor c <input> [output]     compress   (alias: compress)
compactor d <input> [output]     decompress (alias: x, decompress)
compactor t <input>              round-trip test, verifies the CRC
compactor bench <input>          timing report
compactor serve                  drag-and-drop web interface
compactor video <input> [output] lossy video re-encode through ffmpeg
compactor convert --to EXT <input> [output]   format conversion through ffmpeg
compactor dl <url> [dir]         download a link through yt-dlp or curl
```
