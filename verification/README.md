# halo2_plonk

A verified library for the arithmetization layer of a PLONK proof system: expressions,
custom gates, lookup and permutation arguments, the constraint system that they make up, and
the verifying key of a circuit. Everything can be written to and read back from a binary
form, so that proofs can be verified without the circuit that they are about.

## Layout

- `src/column.rs`, `src/rotation.rs`: columns, their order, and row offsets
- `src/expression.rs`: selectors, queries and polynomial expressions
- `src/gate.rs`, `src/lookup.rs`, `src/permutation.rs`: constraints and arguments
- `src/constraint_system.rs`: the constraint system and how it is built
- `src/compress_selectors.rs`: the replacement of selectors by fixed columns
- `src/codec.rs`, `src/bits.rs`, `src/system_codec.rs`: binary forms
- `src/text.rs`, `src/pinned.rs`: the texts by which systems and keys are identified
- `src/debug.rs`: what is used of the formatter of std
- `src/field.rs`, `src/curve.rs`, `src/hash.rs`: what is used of fields, curves and hashes
- `src/domain.rs`, `src/verifying_key.rs`: keys
- `src/circuit.rs`: what a circuit asks of its backend
- `app/`: streams, progress reports and the traits that circuits implement

## What is proved

The contract of every function says what it returns, and for every read which error comes on
which bytes. Beyond that, among others: what is written can be read back; a system that is
built by its methods stays well formed; its degree bounds the degrees of all of its parts; an
expression that keeps the rules for simple selectors contains one at most; replacing
selectors leaves none behind, keeps the meaning of every polynomial, and does not raise the
degree of a system in which no selector is both simple and complex; an expression is written
in the bytes it was read from, exactly if its selectors were read with flags of 0 or 1.
