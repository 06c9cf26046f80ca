# aurora_core

The domain logic of Aurora TV, an IPTV player, as a library whose behaviour is stated
in `requires`/`ensures` contracts and proved with Verus.

## Layout

- `src/` — the verified library. Each module states what its functions compute over
  `Seq`/`Map` models of their inputs and proves it; the public `lemma_*` proof
  functions state properties that hold across calls (for example that a parsed
  playlist never lists a URL twice, that every programme a guide closes is either
  handed back or counted as skipped, or that resolving recording conflicts leaves a
  schedule that fits the connection limit).
  - Text: `text`, `words`, `pattern` (the `regex` crate behind small trusted wrappers).
  - Playlists and guides: `m3u` (a whole file, or line by line as it streams in), `xmltv`
    (timestamps, and a guide reader driven one XML
    event at a time), `xtream`, `epg_match`, `lang`, `title`, `series`, `classify`.
  - Playback and recording: `catchup`, `civil` (the `time` crate), `dvr`, `scheduler`,
    `failover`, `sources`, `timeshift`, `fsname`, `markers`, `window`.
  - Everything else: `rules`, `parental`, `pin` (`argon2`, `getrandom`), `recommend`,
    `tmdb`, `updates`, `providers`, `neterr`, `version`, `events`, `error`, `model`.
- `tests/` — ordinary Rust tests against the compiled library.
- `app/` — a small headless front end and what cannot live in the library: reading
  files, the XML pull parser's event loop, `serde` copies of library types, and the
  parts of playback, skip markers, metadata matching and recommendations that work in
  fractions.
