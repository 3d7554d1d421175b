# nova

The runtime core of the Nova language, verified with Verus: the value model
and reference-counted heap of its bytecode virtual machine, the call state,
the instruction interpreter, and the generic-type machinery of its type
checker.

- `src/` is the verified library. `value`, `memory`, `equality`,
  `deep_clone` and `show` hold the heap model (reference counting, cycle
  collection, deep equality, deep copies, printing); `state`, `code` and `vm`
  the interpreter, one instruction per `step`; `ttype` and `typechecker` the
  types, substitution and unification with `Dyn` contracts; `parser` the
  grammar of type annotations and type alias declarations over tokens; `laws` the
  properties that span several functions.
- `app/` runs the machine: it performs what a step asks for (printing, float
  arithmetic, native functions, exit) and turns errors into messages.
- `tests/` exercises the library on concrete programs and types.
