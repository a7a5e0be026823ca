# rub-vvz

A command-line client for the public course catalogue (VVZ) of Ruhr-Universitaet
Bochum, written as a Verus library with a thin program around it.

The library (`src/`) holds everything that decides or computes: reading the
command line, parsing the catalogue's HTML pages, building request addresses and
`curl` arguments, reading `curl`'s output, and rendering results as explained
text or JSON. Each function states its result exactly over spec functions, and
the laws of the library are public proof functions (`law_*`).

Fetching is left to the caller. An operation of `VvzClient` is a step function:
it is handed the pages fetched so far and answers with the next address to fetch
or with its result. The program (`app/main.rs`) runs that loop with `curl` and
prints what the library renders.

Layout:

- `src/text.rs`, `src/markup.rs`: character sequences, entity decoding, tag
  stripping, whitespace normalisation.
- `src/html.rs`: finding elements, cells, anchors, attributes and headings.
- `src/url.rs`: query parameters, percent encoding and decoding, link resolution.
- `src/map.rs`: a map with text keys kept in ascending order.
- `src/models.rs`, `src/parsing.rs`: the records read from catalogue pages.
- `src/client.rs`: the catalogue operations as step functions, and `curl` I/O data.
- `src/render.rs`: explained text and JSON output.
- `src/cli.rs`: arguments, options, help, and running a command line.

Searches in page text (tags, attributes, headings, the `tguid=` marker, the description
keywords) match ASCII letters case-insensitively on character positions. Characters whose
Unicode lowercase form has a different UTF-8 length therefore never shift a cut: every
fragment returned is a contiguous piece of the page as it was fetched.

JSON output escapes quotes, backslashes and every control character below U+0020, so each
string in it reads back, by any JSON reader, as the text it came from
(`render::law_json_escape_reads_back`).
