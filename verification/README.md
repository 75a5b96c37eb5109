# ergogen

A keyboard layout generator: a YAML configuration describes zones, columns
and rows of keys, outlines built from them, and cases extruded from the
outlines; the tool writes DXF/SVG outlines, JSCAD case scripts and point
dumps.

## Layout

- `src/` is the verified library (Verus). It holds the configuration
  model and its transformations (`value`, `inherit`, `params`, `units`,
  `expr`, `yaml_flow`), the key layout decisions (`zones`, `layout`, `kle`),
  outline part selection (`outline`), DXF reading, canonical comparison and
  writing (`dxf_parse`, `dxf`, `dxf_write`), JSCAD case generation
  (`jscad`, `jscad_parts`, `jscad_text`, `jscad_doc`), command line
  decisions (`cli`, `cli_error`) and error messages (`messages`). The
  public proof functions named `law_*` state the properties that hold
  across calls.
- `tests/` runs the library on concrete inputs.
- `app/` is the command line program: file I/O, YAML/JSON via serde,
  floating point geometry (point placement, polygon booleans with
  cavalier_contours, arc math), expression evaluation with meval and PNG
  rendering with tiny-skia. The configuration rules, key names, outline
  part selection and reference cycles, parameter substitution, DXF
  canonicalization and case texts are decided by the library.
