# vl

A compiler for a small expression language, as a verified library: every stage
is executable Rust whose behaviour is stated over mathematical models and proved
by Verus.

```text
text -> lex -> parser -> resolver -> hir_lowering -> lir_lowering -> codegen
```

| Stage | Model | Code |
|---|---|---|
| tokens | `lex`, `lex_laws` | `lex` |
| syntax tree | `grammar`, `grammar_laws`, `places` | `parser` |
| names | `scope`, `scope_laws`, `report_laws` | `resolver` |
| module interfaces | `interface` | `interface` |
| high-level representation | `hir_lowering` | `hir_lowering` |
| instructions | `lir_lowering` | `lir_lowering` |
| targets | `codegen`, `nara_plan`, `nara_laws` | `codegen`, `nara` |
| standard library | `stdlib`, `catalog`, `linker`, `linker_laws`, `loading` | the same, but for the laws |

`diagnostic` renders reports with `ariadne`, which is trusted; `report_laws`
shows that every report about a text can be rendered. `float` reads and writes
doubles by integer arithmetic, and `float_laws` shows that what it writes reads
back. What a type checker finds enters as plain data (`typed`). `tests/` runs the
library from outside, and `app/` prints reports.
