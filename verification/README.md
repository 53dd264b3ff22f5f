# monocle

The document logic of Monocle, a markdown viewer with a headless PDF
exporter, written in Verus with its behaviour stated in contracts and proved.

- `src/frontmatter.rs` — the `css:` key of a document's YAML front matter and
  where the stylesheet it names lies on disk.
- `src/links.rs` — cross-document links in exported pages (`foo.md` becomes
  `foo.md.pdf`, or a `file://` link into the PDF directory) and the
  percent-encoding of directory paths.
- `src/export.rs` — the exporter's command line, its three stylesheet layers
  and the HTML page handed to the browser that prints the PDF.
- `src/viewer.rs` — which window shows a file opened from the desktop, the
  file each new window is to load, and which file-system events count as a
  change of the watched file.
- `src/markdown.rs` — pulldown-cmark, with the options viewer and exporter
  share, behind a trusted item.
- `src/paths.rs` — Unix path joining (proved), the parent and file name of a
  path and the home directory (trusted items), and the user's stylesheet path.
- `src/text.rs` — the character-level model (trimming, searching, prefixes)
  that the parsers are specified and proved against.

`app/` holds the programs around the library (`app/lib.rs`): the Tauri
viewer (`run`, in `app/viewer.rs`), the `render_html` exporter
(`app/render_html.rs`) and the print fixture builder (`app/print_fixture.rs`). They read and write files, run watchers and
windows, and leave every decision to the library.
