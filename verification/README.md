# pixie

A tiny text-based pixel art renderer: a `.px` file lists settings
(`$scale`, `$resolution`, `$auto`), palette entries (`# = #FF0000`) and a
pixel grid; `pixie` renders it to PPM (directly), to other formats (through
ImageMagick's `magick`), or to the terminal.

## Layout

- `src/` — the library, written in Verus and verified:
  - `text.rs`: whitespace, trimming, line and word splitting, names, decimal
    numbers and UTF-8 bytes, each specified over `Seq<char>`/`Seq<u8>`;
  - `error.rs`: the error type and its report line;
  - `model.rs`: colors, resolutions, the palette and the document;
  - `parser.rs`: the document parser, specified line by line
    (`document_of`), with the properties every parsed document has
    (`lemma_document_ok`), and the fact that lines agreeing up to their
    first `;` (trailing blanks aside) give the same result, which covers
    appending ` ;comment` at the end of a line (`lemma_comments_ignored`,
    `lemma_trailing_comments_ignored`, `lemma_comment_appended`);
  - `image.rs`: the output resolution that the settings ask for;
  - `ppm.rs`, `renderer.rs`: PPM bytes, direct pixel sampling, terminal
    escape sequences and the choice of writer;
  - `cli.rs`: the command line.
- `app/` — the program around the library: arguments, files, standard
  output, ImageMagick, and the floating-point reconstruction of `$auto`.
- `tests/` — tests of the library.
