# isoplot

Plotting of implicit surfaces `f(x, y, z) = 0`: expressions are parsed, checked and
compiled to a typed instruction tape; tapes are differentiated and translated to interval
arithmetic; scalar fields are sampled into octrees, whose minimal edges give the quads of
a dual-contouring mesh.

The library in `src/` is written in Verus, and each function is proved against its
contract, but for the two functions of `xid`, which ask `unicode-ident` whether a
character may start or continue an identifier: their contracts are trusted, not proved.

- text and tokens: `text`, `scan`, `xid`, `token`, `basic_token`, `interner`, `diag`,
  `lexed`
- syntax: `ast`, `grammar`, `parser`, `pretty`, `render`
- checking and compiling: `frontend`, `lower`, `program`, `layout`
- tapes: `tape`, `instrs`, `interval`, `autodiff`
- meshes: `topology`, `lattice`, `connectivity`, `octree`, `quant`, `grid`, `extractor`,
  `utils`

`app/` holds what works on floating-point numbers (evaluating tapes, sampling fields,
placing vertices), the error types with `std::error::Error`, conversions to `glam`
vectors, and a command-line program that prints the syntax tree of an expression.
