# l0

L0 is a small, statically typed language with Lua-like syntax. This crate holds
its lexer, parser, compiler, bytecode machine and garbage collector, with
contracts that Verus proves.

```l0
struct Counter { n: i32; function add() n = n + 1 end }

let c: Counter = Counter { n = 0 }
for i = 1, 10 do
    c.add()
end
print(c.n)
```

## Layout

| Modules | What they hold |
| --- | --- |
| `text`, `views`, `types`, `value`, `ops` | texts, maps, types, errors, values, operators |
| `lexer`, `ast`, `grammar`, `parser` | tokens, syntax trees, what a token sequence means, the parser |
| `code`, `ir`, `codegen`, `refusals`, `compiler` | bytecode, instructions, which code a program has, which programs get none, the compiler |
| `heap`, `scalar`, `numeric`, `keys`, `format` | the collected heap, packed scalars, arithmetic, table keys, printing |
| `instance`, `semantics`, `instructions`, `machine`, `vm`, `modules`, `program` | the state of a program, what an instruction does, the machine, where modules are found, ways to start it |
| `ffi`, `ext`, `host` | the C interface, extensions, operands of numeric host functions |
| `tensors`, `candle`, `rope`, `norm`, `bridge`, `direct`, `model`, `sample`, `tokens` | host functions on the candle and tokenizers crates |
| `code_laws`, `run_laws`, `collection_laws` | laws of compilation, of execution and of garbage collection |

`app/` is the command-line program and the C interface. It reads and writes
files, answers the machine's requests and does the floating-point arithmetic.

## How a program runs

`Vm::execute` compiles a program. `Vm::advance` runs it for a number of
instructions. A machine that needs a line of input, a floating-point operation
or a host function stops: `Vm::request` says for what, and `Vm::resume` takes
the answer. `Vm::outcome` holds how the program ended and `Vm::output` what it
printed.

Floating-point numbers are bit patterns to the library. Operations on them are
requests, so the contracts say exactly which operation is asked for and what is
done with its result, and nothing about rounding.

## What is trusted

The contracts of a few functions of the standard library (`text`, `heap`,
`instructions`), of `half` (`numeric`), of `candle-core` and `candle-nn`
(`tensors`) and of `tokenizers` (`tokens`) are taken as given. Each stands in a
function or declaration of its own that says what is claimed.
