# unrvl

Quantitative-analysis building blocks with machine-checked contracts.

`src/` is a Verus library. Binary64 values enter it as their IEEE 754 bit
patterns (`u64`), so every decision that the toolkit takes without doing
floating-point arithmetic is stated and proved over integers:

- `binary64`: sign, magnitude, NaN and finiteness of a pattern, the numeric
  order of non-NaN values and the IEEE 754 total order;
- `extrema`: `argmax`, `argmin`, `argmax_abs`, `argmin_abs`, `max_abs`,
  `min_abs`, `min_max` (NaN ignored when a number is present, first
  occurrence on ties);
- `ordering`: a sorted copy by the total order, with the laws that it ignores
  the input order and that its ends are the sample bounds;
- `quantile`: sample and probability validation, the Type 7 endpoints and the
  choice of interpolation form;
- `deviations`: power-of-two scaling units and the centring decision;
- `moments`: the constant-sample shortcut of the mean;
- `convert`: exact conversion of counts up to `2^53`;
- `text` and `reference_data`: lines, fields, trimming and counts of ASCII
  text, and the structure of the NIST and R reference files.

`app/` holds what Verus does not take: `f64` arithmetic (compensated sums and
dot products, moments, interpolation, tolerances), the property-test
strategies, and reading the reference files from disk. It calls the library
for every decision listed above.

`tests/` exercises the library on concrete values.
