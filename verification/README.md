# bulletou_lib

Sparse shogi inputs for an efficiently updatable evaluation network, and the preparation of the
batches that a trainer reads, in Rust with Verus proofs.

- `src/` is the library. Everything in it is verified.
  - `shogi`, `movement`: boards, and what pieces reach on them.
  - `threat_class`, `threat_index`, `threat_tables`, `checksum`: the numbering of threats.
  - `shogi_halfka2_threat`, `shogi_halfka2_threat_dropfact`, `shogi_halfka2_threat_effect`: the
    inputs; `threat_laws`, `effect_laws`, `input_laws`: what holds of them.
  - `inputs`, `loader`: what a trainer asks of inputs and data.
  - `sparse_rows`, `rows`, `prepared_data`, `prepare`, `batch`, `parallel`: from positions to
    batches; `prepare_laws`: what holds of batches.
  - `batches`: cutting a stream of positions into batches.
  - `corrupt_entries`, `score_table`, `wrm_params`: what is kept between batches.
- `app/` is ordinary Rust around it: values in `f32`, files, threads, and the state of the process.
- `tests/` runs the library on given positions.

Targets and weights are of any type that can be copied, since the formulas for them are handed in;
`app/` fills in those for `f32`. A position comes with its HalfKA2 features, which are listed
elsewhere. The one thing that is believed without proof is that rayon's thread pool maps a function
over a list and keeps the order (`parallel`).

What a user's impl of `SparseInputType`, `OutputBuckets` or `LoadableDataType` says of itself, and
what is said of the getters that are handed in, is taken for granted where they come from code that
Verus does not see, as from `app/`.
