# vulkan-ai

Verified core of a set of Vulkan training experiments.

- `src/data.rs`: the SplitMix64 generator, unbiased bounded draws, forward
  Fisher-Yates epoch permutations and the checkpointable mini-batch sampler,
  with proofs that every epoch is a permutation, that valid sampler states stay
  valid, and that resuming from a checkpoint reproduces the uninterrupted run.
- `src/report.rs`: the adapter report, benchmark ordering, index-sequence
  comparison and profile bookkeeping.
- `src/text.rs`: decimal, hex and list rendering used by reports and errors.
- `src/lib.rs`: probe errors, training-path ordering and protocol constants.
- `app/`: the Burn/CubeCL probes, kernels and timing on `f32` tensors, and the
  probe binary.
