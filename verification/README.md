# Haplo

A pure functional language for tensor programs, written and verified in Verus.
The shapes of tensors are checked before a program runs, and `grad` gives the
derivative of a function by reverse-mode differentiation.

```
x = [1.0, 2.0, 3.0; 4.0, 5.0, 6.0; 7.0, 8.0, 9.0; 1.0, 0.0, 1.0]
y = [1.0, 2.0, 3.0, 0.5]
lr = 0.01

predict feats w b = feats @ w + b
mse pred target   = mean ((pred - target) ^ 2)
loss w            = mse (predict x w 0.0) y
step w            = w - lr * grad loss w

main = iterate (zeros [3]) 1000 step
```

## Layout

| Module | What it holds |
|--------|---------------|
| `text` | characters and decimal numbers in messages |
| `ast` | expressions, types and top-level items |
| `lexer`, `parser` | from source text to a program |
| `num`, `tensor` | floating-point words and tensors of them |
| `value` | values, scopes and evaluation errors |
| `autodiff` | tapes of operations and derivatives on them |
| `interpreter` | evaluation |
| `shape_stage` | shape checking |
| `pipeline` | all stages in a row |
| `layout_laws`, `parser_laws`, `eval_laws`, `slope_laws`, `shape_laws`, `soundness`, `plain_programs` | what holds of the stages as wholes |

`app/` is the command line: it reads a file, runs it and prints the value.

## Floating-point numbers

The library holds a floating-point number as its 64 bits and leaves arithmetic
to a function that the caller hands in: a `Query` goes in, words come out. All
contracts speak of `meaning(f)`, the answers of that function, and ask of it
only that it takes every query and answers equal queries equally. A reply that
is too short is filled up with zeros, and one that is too long is cut.
`app/arithmetic.rs` gives the answers of `ndarray` and the machine.

## Limits

Calls nest at most as deep as the caller allows. Integers that leave 64 bits,
and shapes that a machine word cannot count, are errors.
