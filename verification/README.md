# functional_rust

Functional-style building blocks in Rust whose behaviour is stated as
`requires`/`ensures` contracts and proved.

- `src/` is the library. Each module states its types' models as spec
  functions and views, the contracts of its functions over them, and the
  laws that relate its operations as public proof functions named `law_*`.
- `tests/` runs the library on concrete inputs.
- `app/` holds the edges around the library: readers and writers, futures,
  threads, the memoizing cell, the unfold iterator, and copies of the error
  types that implement `Display` and `std::error::Error`. It calls the
  library for every decision.
