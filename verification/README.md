# mupdf (verified link and page logic)

A Verus library with the logic of PDF link URIs, page selections and a few drawing and
naming helpers of a MuPDF binding, each function with a contract that Verus proves.

- `links`, `destination`, `parse`: link actions, their MuPDF link-URI form (`to_uri`) and
  reading a URI back into an action (`parse_external_link`). Numbers are IEEE binary32
  values (`binary32`); the caller supplies the three floating-point operations (read a
  decimal, write a decimal, add), and the contracts are stated over them.
- `roundtrip`: the laws that tie writing and reading together, chief among them
  `law_uri_round_trip`.
- `percent`, `path`, `text`, `number`: percent-encoding (through the `percent-encoding`
  crate), path normalisation, trimming and splitting, decimal numbers.
- `pages`: page ranges and selections checked against a page count, and the plans of the
  page operations (insert, copy, move, delete, select).
- `irect`, `pixel`, `fonts`, `resources`, `link_dict`, `redact`, `shape`: integer
  rectangles, pixel offsets, font names, resource names, action dictionaries, redaction
  options, rotations, colours and number text.

`app/` holds the `f32` glue (`numbers`), the link functions with `f32` numbers (`links`),
and the floating-point formatting of colours (`shape`).
