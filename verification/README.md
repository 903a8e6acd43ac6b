# couber

A small self-hosted archive of short videos (Coub clips and videos from other sites) with
user- and machine-suggested tags.

- `src/` is the verified library: how tags are typed, encoded, stored, merged, decoded and
  shown; how a submitted URL is classified and a fetched video named; how videos are
  ordered; the stored forms of tag lists and timestamps; the image data URL sent to the
  tagging service and the reading of its reply; the HTML page.
- `app/` is the server around it: command line, SQLite storage, the HTTP routes, running
  the fetch scripts, file-system moves and the call to the vision API.
- `tests/` exercises the library on concrete values.
