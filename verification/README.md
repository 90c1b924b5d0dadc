# qwik_optimizer_oxc

The decision logic of a Qwik optimizer, verified with Verus: segment naming and
hashing, entry strategies, source paths, the index of a module's imports and
exports, root-declaration analysis and migration into segments, the ordering of
hoisted items, the assembly of segment modules (their imports, hoisted
constants and named export), the per-file output built around the syntax-tree
stages (root module, one module per extracted segment), the decisions of the
`$`-call extraction (a step per marker call or `$`-suffixed JSX attribute, and
a step at the end of the program), and the JSX lowering (the split of
attributes into props, and the text of the `_jsxSorted` / `_jsxSplit` calls).

- `src/` — the verified library. Steps that read a syntax tree take the parts
  they read as plain values (`ModuleStmt`, `RootStmt`, `MainStmt`, `JsExpr`,
  `JsxAttr`, `InlinedExpr`, `TopLevelStmt`, ...).
- `app/` — the JSON boundary (`serde` shapes of the options and results), the
  oxc parse and syntax-tree walk of a file (it hands each marker call to the
  library's extraction step and applies the rewrite the step returns), and
  the reading of oxc syntax trees into those plain values.
- `tests/` — runtime tests of the library.
