# voxtype_realtime

Dictation through OpenAI's realtime transcription service, with its decisions
written and proved in Verus.

- `src/` is the verified library: the configured engine and its key
  (`config`, `transcriber`), the request that connects (`connect`), the
  messages both ways (`json`, `wire`), audio (`resample`, `pcm`), sessions
  (`session`, `stream`), what is typed at the cursor (`event`, `reconcile`,
  `cursor`), the transcript history (`history`) and the decisions of the
  on-screen display (`osd`).
- `tests/` runs the library on concrete values.
- `app/` holds sockets, files, clocks, floating point and drawing.

What the library has from other crates stands behind small functions marked
`external_body`, each with a comment on what is taken on trust.
