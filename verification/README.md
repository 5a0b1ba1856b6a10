# emergent_coupling

Verified core of a small library that couples two spectral systems (eigenvalues
plus a dominant mode) and asks whether the coupled system shows structure that
neither shows alone.

- `src/` (Verus): the discrete decisions, with their contracts and proofs —
  classification of a coupling by alignment (`coupling_mode`), the topology of
  the coupled graph and where each edge sits in its adjacency matrix
  (`topology`), and the sample points of a coupling sweep and the first
  emergent one (`emergence`).
- `app/` (plain Rust): the floating-point spectral computations — cosine
  similarity, edge weights, Laplacians, Jacobi eigenvalues, conservation ratio,
  synergy — built on the library's decisions.
- `tests/`: tests of the library.
