# rwer

Word Error Rate (WER), Character Error Rate (CER), Match Error Rate (MER),
Word Information Preserved (WIP) and Word Information Lost (WIL) for
evaluating speech recognition output, with every function of the library
verified by Verus against its contract.

Rates are exact fractions (`Ratio`); the alignment behind them is an
optimal Levenshtein alignment, proved to cost exactly the edit distance.

Layout:

- `src/alignment.rs` — edit operations, the banded dynamic program, the
  traceback, and the proofs that the alignment is optimal.
- `src/alignment_fast.rs` — Levenshtein distance through `rapidfuzz`.
- `src/metrics.rs` — WER, CER, MER, WIP, WIL and the full alignment output.
- `src/output.rs` — the output record, its summary, the visualization and
  the error counts.
- `src/format.rs` — exact decimal rendering of fractions.
- `src/text.rs` — splitting into words, joining, character utilities.
- `src/transform.rs` — the text normalization pipeline.
- `src/chinese.rs` — word segmentation of Chinese text with `jieba-rs`.
- `src/cli.rs` — what the command-line tool computes from its flags.
- `src/web.rs` — the results as flat records.
- `app/main.rs` — the `rwer` command: argument parsing and input reading.
