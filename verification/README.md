# genet_livery

The plain-value core of the Livery document integration, verified with
Verus. `src/` holds the decisions of the layout, paint and document code —
legacy colours, the backend style projection, retained formatting roots,
table paint bookkeeping, layout damage, the frame pipeline's lanes, the
paint walk, scrolling, text selection, CSSOM sheet identities and host
resources — each with a contract over spec functions of its own.

The layout engine, the cascade and the painter run on float geometry and on
their own crates; the host hands the library plain facts (flags, indices,
node numbers in document order) and takes plain results back. `app/` holds
the conversions onto the `taffy` backend style and the per-thread `calc()`
scratch. `tests/` exercises every module on concrete values.
