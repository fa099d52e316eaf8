# cel

Verified evaluation of CEL, the Common Expression Language: an expression, given as a syntax
tree, is compiled and evaluated, and what a compiled expression gives is proved to be what
the expression means.

`src/semantics.rs` says what an expression means in a scope. Around it stand

- `common/`, `env`, `context`, `objects`, `ops`, `float`, `strings`, `error`: syntax trees,
  declarations of functions and structs, scopes, values and the operators on them;
- `vm/compiler`: expressions compiled to a tree of closures;
- `vm/bytecode`, `vm/vm`: a stack machine; `vm/reg_*`: a register machine over values, one
  over 64-bit words, and their compiler; `vm/enum_filter`: filters read off its programs;
- `vm/filter_tree*`: boolean expressions compiled to a tree over indexed variables, and to
  closures over typed arrays; `vm/filter_meaning`: the law that such a tree means what its
  expression means, and what it takes of the variables;
- `vm/ruleset`, `vm/range_set`: many rules at once, and sets of ranges;
- `function_handle`: overloads resolved ahead of evaluation;
- `fast`: filters over the fields of a schema.

Doubles are carried as their bits. Arithmetic on them, and the functions that a program
registers, are computed by a host: an evaluation that lacks an answer ends with
`ExecutionError::HostNeeded`, and is run again when the answer has been added. The request
of a call says where the call stands and in which rounds of the loops around it, so that every
call is asked for by itself, in the order of evaluation, and has an answer of its own;
`clear_answers` starts a new evaluation. A filter tree has no such end: it takes a comparison with an answer that it
lacks for false. Its `lacking` names the request, and `add_answer` adds what the host says to
it, until nothing is lacking. `app/` holds such a host, and times the evaluators.

Regular expressions (`regex`), searches for sets of words (`aho-corasick`) and the calendar
(`chrono`) are called through small functions whose contracts are trusted; each says so.
