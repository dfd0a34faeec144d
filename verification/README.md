# odt_reader

Reads the text of OpenDocument (`.odt`) files into a document tree.

- `src/` is the verified library. `content` reads the headings and paragraphs
  of a `content.xml` event stream as a state machine; `odt` is the ODT parser,
  which collects the automatic styles and nests headings, paragraphs and spans
  into a tree (`document`). Both start from the bytes of the `.odt` file:
  `archive` takes out `content.xml` (with `zip`), and the XML is read with
  `xml-rs` (`content`) or `quick_xml` (`odt`). `names` cuts qualified tag
  names, `escape` decodes attribute values and character data (entity
  replacement by `quick_xml`), `table` is a byte-keyed map with unique keys.
- `app/` is the HTTP server around it: it reads the file's bytes, hands them to
  the library, checks heading levels as numbers and writes the JSON answer.
- `tests/` exercises the library on hand-built event streams.
