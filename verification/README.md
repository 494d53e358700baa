# koan_dispatch

The decision core of the Koan dispatcher, verified with Verus: given an expression, a lexical scope
and what has been evaluated so far, it decides what a slot of the scheduler does next. A slot is
done, goes on with other work, waits, enters a user-defined function, or becomes another name for a
slot that is already there.

Everything that a decision reads or writes is plain data. Expressions, objects and types are
handles into tables that only grow, and what a slot goes on with is a value that says so. That is
why every decision has an exact contract: a spec function of what it was given says what it comes
to. Where a decision asks for a type, its contract names the one handle of that structure, and the
node behind a new one field by field.

## Layout

- `src/ast.rs`, `value.rs`, `region.rs`, `ktype.rs`, `symbol.rs`, `scope.rs`, `function.rs`: the
  model, that is expressions, values, types, names and what is bound where.
- `src/matching.rs`, `type_query.rs`: which types take which values and parts.
- `src/outcome.rs`, `error.rs`, `text.rs`, `ambient.rs`, `run.rs`: what a decision comes to, errors
  and their texts, the context of a step, and short runs of values.
- `src/decide/`: dispatch that evaluates the parts of an expression before it picks an overload.
- `src/dispatch/`: dispatch that picks first and evaluates what the pick needs, with the harness
  that turns an outcome into writes to the scheduler's graph.
- `app/`: the host side, which runs builtins and bodies and hands back what they came to.
- `tests/`: both ways of dispatch on concrete programs.

## What is taken on trust

The calls into `smallvec` (`src/run.rs`) and `indexmap` (`src/dispatch/struct_value.rs`) stand
behind small wrappers whose contracts are believed. Everything else is proved.
