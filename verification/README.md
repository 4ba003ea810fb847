# lua_member_infer

Infers the type of a member of a Lua value: of `t.name`, `t["text"]`, `t[1]`
and `t[expr]`, and of calls of `setmetatable`. The library is written in Verus
and verified against its contracts. What is taken for granted is what four small
functions of `src/text.rs` say of the strings that they wrap.

Some of what inference needs is computed around it, such as the type of a
nested expression or a generic type with its arguments filled in. Inference
asks for that, one question at a time: `Step::Ask` carries the question, the
host records the answer in the `LuaInferCache` and calls again. `Step::Done`
carries the result. `Step::Endless` says that the inference would never end,
since a type can only have a member if it has it already: an alias may stand for
a union of which it is a part.

- `src/text.rs`: the strings of the `smol_str` crate, and what is taken for
  granted of them
- `src/table.rs`: finite maps
- `src/syntax.rs`, `src/types.rs`, `src/db.rs`: syntax, types, declarations
- `src/cache.rs`: questions, answers, and the declarations visited
- `src/model.rs`: what member inference means
- `src/reach.rs`: the finitely many types that a search comes across
- `src/infer_index.rs`, `src/infer_setmetatable.rs`: inference
- `src/code_lens.rs`: the course of a request for code lenses
- `src/laws/`: what holds of inference as a whole
- `app/`: the loop that answers questions, and the request handlers
