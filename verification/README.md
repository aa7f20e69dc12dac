# llama_rs

A small LLaMA-style inference toolkit whose integer and text logic is
verified with Verus: checkpoint and tokenizer file formats, byte-pair
encoding, prompt rendering, the decisions of the generate and chat loops,
logging and the random generator that drives sampling.

## Layout

- `src/` — the verified library.
  - `le_bytes`, `lexicon`, `text`, `score`, `bpe`, `rng`, `io_error`:
    shared pieces (little-endian fields, byte-string order and binary
    search, UTF-8 helpers, float comparison on IEEE-754 bits, the merge
    loop of byte-pair encoding, the xorshift generator, I/O errors).
  - `checked`: the engine that validates everything it reads — config,
    tokenizer, weight layout, shapes, sampler settings, the generation
    and chat state machines.
  - `eager`: the engine that reads the whole checkpoint into memory.
  - `mapped`: the engine that memory-maps the checkpoint (through
    `memmap2`), with its tokenizer, logger, timer and chat session.
- `tests/` — tests of the library on concrete values.
- `app/` — the command-line programs: argument handling, file and
  terminal I/O, and the floating-point kernels (matrix products, RMS norm,
  rotary embeddings, softmax, top-p sampling). The loops there ask the
  library's state machines what to do next and hand the results back.

Vocabulary scores are only compared, never computed with, so the library
carries them as their `f32` bit patterns and compares those.
