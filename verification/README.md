# rs_translator

A command-line translator that prints an HTML page with a text and its
translation, built around a library whose logic is verified with Verus.

- `src/` is the verified library:
  - `language` counts Chinese and ASCII characters and picks the target language;
  - `backend` builds the signed Tencent Cloud request (TC3-HMAC-SHA256) and the
    OpenAI-compatible chat request, and reads their replies;
  - `manager` decides among the backends' answers (the first usable one that succeeds, or
    one by name);
  - `markdown` protects LaTeX formulas (`$$...$$` first, then `$...$`, `\(...\)`
    and `\[...\]`)
    behind placeholders, renders Markdown with pulldown-cmark and puts the formulas back;
  - `config`, `name_map`, `error`, `page` and `text` hold the settings, a
    string-keyed map, the error type, the page layout and string helpers.
- `app/` is the program: it reads `rs_translator_config.json`, sends the requests
  with reqwest and prints the page.
- `tests/` exercises the library.
