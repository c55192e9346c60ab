# qwen3-asr

Inference for the Qwen3-ASR speech recognition models, on the CPU and on CUDA
devices, with the decisions of the engine verified in Verus.

* `src/` is the verified library. What decides, plans, lays out or parses without floating
  point stands here with a contract: prompts and transcripts, the generation loop, chunking
  of audio, the streaming session, attention windows, buffer layouts, kernel launches,
  integer matrix products, weight files, and which weights an engine is built of.
* `app/` is ordinary Rust round the library: files, the device, floating-point
  arithmetic, and the public entry points.
* `tests/` run the library.

Arithmetic in floating point is not verified. Where the library's own loops need it,
as in attention on the CPU, it is handed in as a closure, and the contract says what
the closure is called with and where its results go.

The library's promises that reach across functions are proof functions whose names
begin with `law_`.
