# tutanak

A meeting-notes assistant for Linux: capture system audio, transcribe it,
translate it when asked, summarize it and write markdown notes. Engines are
chosen from a registry of provider profiles (Groq, FastFlowLM on an AMD NPU,
Ollama, any OpenAI-compatible server).

- `src/` — the library, verified with Verus: chunk planning for long
  recordings, transcript stitching, map-reduce text windows, retry and split
  rules, the provider registry and layered configuration (defaults → file →
  environment), capture device choice, and markdown rendering and parsing.
  Proof functions named `lemma_*` state the library's laws.
- `app/` — the `tutanak` command line: audio capture with `parecord`/`pactl`,
  ffmpeg import, HTTP engines, files and environment.
- `tests/` — tests of the library on concrete values.
