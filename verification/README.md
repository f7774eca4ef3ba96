# lamuda

A small dependently typed lambda calculus with a REPL: universes (`Prop`,
`Type n`, `Sort n`), `Unit`, `Nat`, functions, dependent products, `let`,
definitions and inductive types with recursors.

The library (`src/`) is verified with Verus:

- `parse` — the grammar, as a parser from characters to syntax, specified by
  grammar functions over character sequences; the spans it returns are
  byte offsets into the line's UTF-8 encoding;
- `check` — elaboration of syntax into core terms and their types, and the
  checking of `def` and `inductive` commands against the global context;
- `normalize` — de Bruijn shifting, application spines and normalization;
- `term`, `syntax`, `context`, `env`, `error` — the data, their models, and
  how terms are displayed;
- `typ`, `eval` — simple types and values with their display.

Normalization recurses as deep as the term needs: its only bound is a
count in a machine word, which the stack reaches first, so in practice a
term too deep to normalize overflows the stack, as a plain recursive
normalizer would.

`app/` is the REPL around it: line editing and history, printing, and error
reports against the input line.

Example session:

```
❯ inductive Bool : Type | true : Bool | false : Bool
❯ recBool
recBool
: (motive : Bool -> Type) -> 0#motive true -> 1#motive false -> (t : Bool) -> 3#motive 0#t
❯ def id (A : Type) (x : A) := x
❯ id Nat 5
5
: Nat
```
