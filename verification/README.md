# yamalgam

A YAML toolkit whose core is verified with Verus: the scanner (bytes to
tokens), the event parser, the lossless concrete syntax tree, tag
resolution of plain scalars, and the YAML Test Suite tooling that compares
them with other implementations.

## Layout

- `src/` — the verified library. Each public function states its result in
  `ensures` over spec functions of the module it lives in.
  - `reader`, `scan_text`, `token`, `scanner` — character reading and the
    token scanner (fused, first token `StreamStart`, spans within the input;
    the text of quoted and block scalars, their error kinds and when they
    succeed are stated over the input).
  - `input` — encoding detection and decoding (UTF-8/16/32 with BOM).
  - `parser` — the event parser state machine.
  - `resolve` — event-stream middleware (`Resolver`, `ResolvedEvents`):
    each step hands out what `resolve_step` gives over the resolver's own
    account of its outputs.
  - `cst` — the lossless syntax tree; `CstBuilder::build` states the whole
    tree it returns (`built_view`, one builder step per event) and that the
    tree's text is the source when the events' spans line up.
  - `tag_resolution` — failsafe, JSON, YAML 1.2 core and YAML 1.1 typing of
    plain scalars (float spellings are left to be read as `f64`).
  - `compare`, `harness`, `tree_format`, `test_case`, `c_baseline` — YAML
    Test Suite formats, stream comparison, and the classification of the
    C tokenizer harness's output lines.
  - `value_tree`, `compose` — the composer: documents as value trees,
    anchors and aliases, merge keys (`<<`, explicit keys win) and resource
    limits, stated by `spec_compose_stream` over the event stream.
  - `loader`, `config`, `diagnostic`, `observability`, `inputs`, `peers` —
    configuration, errors, calendar arithmetic and benchmark inputs.
  - `text`, `lines` — character-sequence helpers with the meaning of the
    standard string methods.
- `tests/` — tests of the library.
- `app/` — the program around it: stream and file I/O, the C tokenizer's
  result cache, path discovery, serializable copies of the snapshot types,
  and the value tree with floats read as `f64`.
