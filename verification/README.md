# basm_std (decimal output)

A verified writer that formats integers as decimal text into an output
buffer.

- `src/decimal.rs`: the model. `decimal(n)` is the canonical decimal text of a
  natural number, `signed_decimal(i)` that of a signed one, `padded(n, k)` the
  last `k` digits of `n`; proof functions state that the text is made of digits
  without a leading zero, that it reads back as the number, and how the text
  splits into blocks of digits.
- `src/digits.rs`: conversion of a number into a block of eight padded digits,
  counting and skipping leading zeros, and short numbers built right to left.
- `src/writer.rs`: `Writer<N>` and its `write_u8` … `write_isize` methods; each
  one appends exactly the decimal text of its argument to what was written.
- `tests/`: concrete values at every boundary of the digit blocks.
