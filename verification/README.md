# ramforge_runtime

Planning and bookkeeping for running language models that are larger than the
memory they may use. Weights stay on disk and are streamed layer by layer under
a fixed RAM budget; this crate decides what is charged, read, cached, planned
and stored, and proves those decisions with Verus.

- `src/` is the verified library. Every public function carries its contract, and
  public `lemma_*` functions state what holds across several of them: that peak
  use stays within the budget, that a stored plan reads back as it was written,
  that a planned configuration always compiles, that a failed run keeps no charge.
- `tests/` runs the library on concrete values.
- `app/` holds what stays outside the proofs: files, clocks, threads, random
  draws and floating-point kernels. It performs the steps that the library
  decides and hands back what came of them.

Numbers that the models hold as floating point cross the boundary as their bit
patterns.
