# maximus_checks

The rules behind Maximus's configuration checks, written in Verus: every
function in `src/` carries a contract, and Verus proves that the code meets
it. The checks look at the configuration files of a JavaScript/TypeScript
project (`tsconfig`, `package.json`, Vite, ESLint, Prettier, EditorConfig,
`.env` files, ignore files, workflows, workspaces) and report what conflicts,
drifts or points nowhere.

## Layout

- `src/` — the verified library. Each module holds the decisions of one
  check, stated over mathematical models (sequences, options, and a view of
  each type):
  - `text`, `json`, `paths`, `glob` — the shared models: character
    sequences, a JSON value model, `/`-separated paths with normalization,
    and glob matching.
  - `registry` — the registered checks, which of them run, severity
    overrides, config suppressions and the fixes that stay planned.
  - `env_contract`, `env_findings`, `env_directory`, `ignore_drift`,
    `gitignore`, `npmignore_files` — `.env` contracts, syncing and the
    findings of one directory, ignore-file drift and ignore matching.
  - `package_entrypoints`, `entrypoint_paths`, `entrypoint_walk` —
    `main`/`exports`/`imports` targets of `package.json`: which are valid,
    where they point, how fallback branches combine, and the walk over a
    whole field.
  - `tsconfig_rules`, `tsconfig_findings`, `paths_findings`,
    `pattern_config`, `input_patterns`, `import_paths`, `output_paths`, `project_references`,
    `monorepo_tsconfig` — the tsconfig checks: `include`/`exclude`/`files` and how `extends` passes them on,
    `paths` aliases, `types`, deprecated options, `imports` against
    `paths`, `outDir` overlaps, project references, the shared base config,
    and the findings they report.
  - `vite_config`, `alias_tables` — reading Vite's `resolve.alias` and
    tsconfig `paths` into ordered alias tables, and comparing them.
  - `editorconfig_prettier`, `eslint_prettier`, `config_duplicates`,
    `jsx_runtime`, `module_system`, `lockfiles`, `node_matrix`,
    `test_runner`, `workspace_config`, `structure` — the remaining checks.
- `tests/` — tests of the library on concrete values.
- `app/` — the file-system side: reading files, turning `serde_json` values
  into the library's JSON model, and handing what it read to the library.

## Laws

Besides the contract of each function, `src/` proves properties that span
functions, as public proof functions whose names start with `lemma_`: for
example that reading an alias table after an insertion gives back what was
written, that the comparison of two alias tables reports a key exactly when
the tables disagree on it, that syncing an example `.env` file twice adds
nothing the second time, that normalizing a path twice changes nothing, that the env fixes of a
directory are exactly the ones its fixable findings name, and that a
tsconfig's own `include`/`exclude`/`files` replace what it inherits.
