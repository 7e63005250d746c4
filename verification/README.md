# langcodec_cli

The decision logic of the `langcodec` command line — converting, editing,
normalizing, checking, diffing, syncing and translating localization catalogs,
the Tolgee integration, and the terminal catalog editor — written in Verus with
its behaviour stated in `requires`/`ensures` contracts and proved.

## Layout

- `src/` — the verified library.
  - `text`, `order`, `paths`: strings as character sequences, sorting, and
    the few `std::path` and `std` calls the logic needs.
  - `model`: the catalog (resources of entries) and its operations.
  - `langid`, `languages`: language-tag identity (through `unic-langid`) and
    the resolution of requested languages against a catalog.
  - `formats`, `convert`, `input_kind`, `validation`, `config`: format
    detection, conversion planning, input validation, configuration lookups.
  - `edit`, `normalize`, `sync`, `diff`, `check`: the per-command logic.
  - `translate`, `translate_options`: job planning, option resolution,
    result bookkeeping for `translate`.
  - `tolgee`: project mappings, pull paths and the catalog merge.
  - `editor`, `editor_input`, `editor_view`: the state machine of the
    catalog editor, its key handling, and what each panel shows.
  - `path_glob`: glob expansion over the paths a directory walk found.
- `tests/` — tests of the library.
- `app/` — the command-line program: argument parsing, file and terminal
  I/O, the Tolgee CLI, model providers, and the directory walks.

Verify with Verus; the laws of the library are the public `lemma_*` proof
functions and the contracts of the functions they speak of.
