# imp_interpreter

A verified interpreter and type checker for a small imperative language, written
in Verus.

```
let n = 10;
let i: int = 0;
let sum = 0;

while i < n {
    sum = sum + i;
    i = i + 1;
}

print("The sum is: ");
print(sum);
```

The language has `let` declarations (with or without a type), assignments,
`if`/`else`, `while`, `print(e)` and `to_str(e)`, casts such as `float(e)`,
ints, floats, bools, strings and chars, the arithmetic operators `+ - * / mod ^`,
comparisons, `and`/`or`/`not` and string concatenation `:`. Variables are
resolved with dynamic scoping. Comments are `// ...` and `/* ... */`.

## Layout

- `src/parser/lexer.rs`: the tokens of a text, specified by `lex` and computed
  by `tokenize`.
- `src/parser/mod.rs`: the grammar as a rendering of syntax trees into tokens;
  `parse_program` succeeds exactly on the texts that render a well-formed
  program and returns that program. `src/parser/facts.rs` holds the lemmas.
- `src/type_checker/`: the static types of expressions and statements.
- `src/interpreter/`: values, the semantics of expressions and statements
  (`eval_with`, `run_with`, `block_with`) and the interpreter that follows it.
- `src/memory.rs`: scoped memories and the laws of dynamic scoping.
- `app/main.rs`: the command-line program; it supplies the float arithmetic.

Floating point is not verified: the interpreter is generic over a `FloatArith`
implementation. The semantics take the outcome of each step that the float
arithmetic decides as a choice, recorded in a `Picks` or `Trace` value: a
float for arithmetic on floats, a bool for a comparison of floats, any text
for the printed form of a float (in `print`, `to_str` and `:`, where the other
operand's text stays fixed before or after it). Everything else about a run,
the statements after such a step included, is fixed. The interpreter's
contracts say that what it did is one of the runs these choices allow.
