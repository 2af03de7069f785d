# vecfit

Relaxed vector fitting of scalar, vector, matrix and tensor-valued frequency
responses, with the structure around the numbers verified by Verus.

## Layout

- `src/` — the verified library:
  - `shape.rs`: output shapes, flat responses in row- or column-major layout,
    reconstruction of scalars, vectors and matrices, response batches;
  - `dims.rs`: the size rules of sample matrices, fitting problems, weights,
    models and state-space realizations, and the automatic pole-count schedule;
  - `io.rs`: delimited sample files (read with the `csv` crate) and the structure
    of the complex and real-kernel JSON model files;
  - `touchstone.rs`: Touchstone option lines, comments, data-line grouping and
    port-count inference;
  - `emt.rs`: pairing of poles into real sections and the block-diagonal
    state-space realization of a channel;
  - `cli.rs`: the command line of the `vecfit` program;
  - `text.rs`, `error.rs`, `fit.rs`, `axis.rs`: text helpers, the error type and
    the fitting settings.
- `app/` — the `vecfit` program and the floating-point engine (fitting, evaluation,
  discretization, JSON and number parsing), calling the library for every rule on
  structure and sizes.
- `tests/` — tests of the library on concrete inputs.
