# cwe_checker_lib: interval domain

A verified interval abstract domain over fixed-width two's complement bitvectors, as used
by a static analysis of binaries: each value stands for the signed interval
`[start, end]` of bitvectors of one width, together with optional widening hints below and
above the interval that a growing merge jumps to.

Layout of `src/`:

- `bitvector.rs`: `ByteSize` and `Bitvector` (one to eight bytes, held as a signed value),
  the wrap-around `wrap` and its lemmas, checked arithmetic, extensions, truncation,
  pieces and concatenation.
- `interval.rs`: `Interval` and its mathematical model `Span`, with the interval
  arithmetic (merge, intersection, sum, difference, product, negation, extensions,
  truncation, concatenation).
- `domain.rs`: `IntervalDomain`, its model `DomainModel`, the widening hints, merging with
  widening, the binary, unary and cast operations, and the restrictions by signed and
  unsigned bounds.
- `fold.rs`: binary operations, bit counts on single bitvectors.
- `ops.rs`: the operation kinds.
- `laws.rs`: the proved properties: every operation over-approximates the operation on
  concrete values, the restrictions keep exactly (or at least) the qualifying values,
  merging is commutative and idempotent, sums, products and intersections are commutative.

Every executable function states its result exactly over the models; the tests under
`tests/` run the library on concrete values.
