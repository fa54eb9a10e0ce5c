# navi

The verified core of a Whisper-style speech-to-text pipeline, written in Verus.

`src/` holds the logic, each function with a contract that Verus proves:

- `audio` — mono audio buffers: padding, trimming and joining, with the law that
  trimming undoes padding.
- `pcm` — raw 16-bit PCM decoding, the `ffmpeg` arguments that produce it, and mixing
  interleaved channels down to frames.
- `signal` — the integer and indexing side of the short-time Fourier transform
  (reflection padding, framing, window centring, frame counts) and the log-mel
  front end's options.
- `text` — character handling the vocabulary parser needs: Unicode white-space
  splitting, decimal `u32` parsing, UTF-8 encoding.
- `rank_table` — a map from byte strings to ranks with a hash index.
- `tokenizer`, `special` — reading a `.tiktoken` vocabulary, the special tokens
  (languages, tasks, timestamps) ranked after it, and building the BPE encoder.
- `decoding` — the greedy decoding loop's state and the text-token filter.
- `model` — model dimensions and their mapping from a Hugging Face configuration.

`app/` is the `transcribe` program: file and process I/O, and the floating-point
parts (mel filter bank, Fourier sums, the network itself) on burn tensors.

`tests/` exercises the library on concrete values.
