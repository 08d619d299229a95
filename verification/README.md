# affine

A GPT-2 Small model (12 layers, 12 heads, d_model = 768) built on candle,
used to capture the residual stream after the embedding and after every
transformer block.

- `src/` is the verified library (Verus): the causal attention mask, the
  geometry of multi-head attention (head width, query/key/value slices,
  shapes of every stage), the collection of residual-stream snapshots across
  the blocks, and the names of the per-block weight groups.
- `app/` is the program: it downloads the `gpt2` weights, and runs the
  floating-point tensor work with candle, taking its sizes, masks, snapshots
  and names from the library.
- `tests/` exercises the library on concrete values.
