# katex

Pieces of a KaTeX implementation and of its tooling, written in Verus with
their behaviour stated as contracts and proved.

## Layout

- `src/` — the verified library.
  - Fonts, styles, options, settings and the macro namespace: `font_types`,
    `style`, `options`, `setting`, `namespace`, `str_map`, `macros`,
    `gullet`.
  - Parse nodes and the command handlers that build them: `parse_node`,
    `functions/`, `environments`, `tables`; reading single symbols:
    `parser`, with the regular expressions of `patterns`.
  - Output trees: `dom` (HTML nodes, line breaking), `ord` (the font and
    classes of an ordinary symbol), `mathml`,
    `bin_cancel` (binary operators that read as ordinary symbols).
  - The parse-tree comparison tooling: `json`, `canonical` (dropping the
    fields that carry no meaning), `diff`, `debug_parser` and
    `debug_spec` (reading `{:?}` output), `minimize` and `minimizer`
    (tokenizing and shrinking a failing input), `harness`, `cli`.
  - CPU-profile analysis: `cpuprofile`, `tally`, `profile_stats`,
    `profile_paths`, `bottom_up`, `profile_diff`, and `rpc` (the JSON-RPC
    requests of the profile server).
  - `text`: the string functions the rest is built on.
- `tests/` — tests of the library on concrete inputs.
- `app/` — what talks to the outside world: files, `node`, the command
  lines, the profile server on standard input and output, and the rounding
  of floating-point numbers.
