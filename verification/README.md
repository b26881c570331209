# gabriel_laevis

The data, chat-format, decoding and serving logic of a small recurrent language model, written in
Verus. Every function in `src/` states what it returns. All are proved to do so, but for the small
wrappers around calls into other crates, whose contracts are taken on trust.

- `src/text.rs` - searching, trimming and numerals on character sequences
- `src/chat.rs` - special tokens, roles, messages, the chat template and what it renders to
- `src/config.rs`, `src/constants.rs` - model shape, run configuration, data sources
- `src/tokenizer.rs` - loading a tokenizer, encoding, decoding and incremental decoding
- `src/bpe.rs` - training the tokenizer and checking the result
- `src/json.rs` - JSON values, and the rewrite that keeps a tokenizer's digit splitting runnable
- `src/steps.rs` - which tokenizer descriptions can be run, and on how long a text
- `src/windows.rs`, `src/stream.rs`, `src/mix.rs`, `src/swh.rs` - the pretraining corpus: window
  numbering, streaming, mixtures, and blobs fetched from Software Heritage
- `src/data.rs`, `src/reason.rs`, `src/batch.rs` - training rows, reasoning traces, datasets and
  batches
- `src/model.rs` - projection layout, scan chunks, and the decisions of generation
- `src/eval.rs`, `src/grpo.rs` - verifiable answers, rewards, packed groups, solve counts
- `src/train.rs` - checkpoint schedules, resuming, budgets
- `src/serve.rs` - chat prompts, where each token's text goes, stop strings, responses, the
  events of a stream

Proof functions named `law_*` state what holds across functions. The doc comment of each trusted item
says what is taken on trust.

`app/` is the program around the library: the tensor model, training loops, downloads, and the HTTP
server. `tests/` runs the library, with the real crates behind the trusted items.
