# blue_book

A CD archiving tool: it reads the ripper's report of a disc, finds the disc's
release in MusicBrainz, rips it, and encodes tagged FLAC or ALAC files named
from templates.

`src/` is the verified library, proved with Verus:

- `text` — character-level operations (whitespace, trimming, splitting,
  search and replace, decimal text, number parsing, padding).
- `config` — settings, their defaults, and how command-line values override them.
- `release` — releases as plain values, the release filters, the release
  table, the tracklist and the genre choice.
- `metadata` — tagging metadata as a map of names to values, and its
  construction from a release.
- `naming` — safe file names and template-based directory and file names.
- `pattern` — regular expressions, matched by the `regex` crate.
- `riprip` — reading the ripper's report and building its command line.
- `cue` — reading the cue sheet and planning the encoding jobs.
- `encode` — the encoder's command line.
- `session` — the order of the steps of a session.

`app/` is the program around it: command line and settings file parsing,
network lookups, running the ripper and the encoder, and printing.
