# leanr_kernel

The data structures and decision procedures at the core of a Lean 4
kernel, written in Verus and proved against their contracts.

- `num`: arbitrary-precision `Nat`/`Int` literals; arithmetic is done by
  `num_bigint` behind small trusted wrappers.
- `name`: hierarchical names, their rendering, order and hash.
- `level`, `level_laws`: universe levels, normalization and equivalence,
  with laws relating every operation to the value of a level.
- `expr`, `expr_laws`: expressions with a cached data word that is proved
  to stay in sync with the tree; structural and alpha equality.
- `subst`: instantiation, lifting, abstraction and universe instantiation,
  with their round-trip laws.
- `decl`, `env`: declarations, the environment's name index and the
  admission checks that need no type checker; `quot`: admission of the
  quotient constants; `quot_red`: quotient reduction.
- `checker`, `cache`: the type checker (weak head normal form, type
  inference, definitional equality with lazy delta reduction) and its
  caches.
- `admission`: checking a declaration and adding it to an environment;
  `inductive_add`: admission of mutual and nested inductive blocks,
  their constructors and generated recursors.
- `replay`: re-checking a set of decoded constants from scratch. Each
  constant is admitted after the constants it mentions, an inductive
  block as one declaration, the quotient after `Eq`; unsafe and partial
  constants are skipped and counted; the constructors and recursors given
  are compared at the end with the ones the kernel generated. Dependency
  chains are followed on an explicit stack under the same depth cap as
  the rest of the kernel.
- `local_ctx`, `equiv`, `intern`, `tc`, `inductive`: local contexts, the
  equivalence cache, hash-consing of levels, and the helpers the type
  checker and inductive admission use.
- `guard`: the depth guard every recursive walk runs under.

`tests/` holds ordinary Rust tests of the compiled library.
