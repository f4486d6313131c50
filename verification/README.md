# http_server

A small HTTP server for a directory, like `python -m http.server`, with
directory listings and downloads of whole directories as `.tar` archives.

- `src/` is the verified library (Verus):
  - `path`: slash-separated paths as `std::path` reads them on Unix
    (components, `join`, `starts_with`, `file_name`), with laws on them;
  - `encode`: percent-encoding of links and escaping of HTML text (through
    `percent-encoding` and `v_htmlescape`), and decimal numbers;
  - `entries`, `directory_listing`, `listing`: the two listing pages;
  - `tar_request`: the steps taken for a `.tar` request: an existing
    `.tar` file of the requested name is sent as it is (with no check
    against the served root), and otherwise a directory is streamed only
    where its resolved path lies under the served root; `_.tar`, the
    top-level link, streams the whole served directory;
  - `address`: the bind address.
- `app/` is the program around it: command line, the actix-web service,
  reading directories, and writing tar archives in a thread.
- `tests/` runs the library on concrete values.
