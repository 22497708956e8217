# spotted

Posts anonymous messages ("spotteds") taken from a Google Sheets form: it
selects the rows not yet posted, writes each message on a template image and
draws the QR code of its link, numbering the posts with a counter file.

- `src/` is the verified library: the counter file's decimal text
  (`decimal`, `definitions`), the tokenizer and the line layout of the text
  (`imagens`), the QR code composition on an RGBA canvas (`qr`, `canvas`),
  and the choice of the rows still to be posted (`sheet`).
- `app/` is the program around it: reading and writing files, the Google
  Sheets connection, font metrics and text drawing, and the window.
- `tests/` runs the library on concrete values.
