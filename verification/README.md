# cknittel_util

Small verified utilities and the logic of three derive generators.

- `union_find`: a disjoint-set forest whose sets carry data, with path
  compression (`find`, `find_mut`), a non-compressing `const_find`, unions
  that merge the sets' data (`try_union`, `union`) and singleton insertion
  (`add_set`). The forest's view is the representative of every element,
  the data slot of every element and the number of sets.
- `iter_ones`: the indices of the one bits of any primitive integer.
- `iter`: collecting an iterator of results (`CollectResult`) and
  interleaving items with separators (`JoinWith`).
- `peekable_stream`: an iterator wrapper whose next item can be looked at
  and then taken through a proxy.
- `option`, `result`, `tuple`, `debug_assert`: small conveniences.
- `builder::error`: the error a generated builder reports.
- `tokens`, `derive_input`: token streams and derive inputs as plain values;
  spans and copied source fragments are handles.
- `builder_macro`, `from_variants`, `enum_extract`, `proc_macro_util`: the
  code generators, from a derive input to the tokens they produce, each with
  its output stated exactly.

`app/` holds the glue that a procedural-macro crate uses: it parses the
input with `syn`, builds the model, calls the generators, renders their
tokens as a `proc_macro2::TokenStream` and aborts with `proc_macro_error`
on errors.
