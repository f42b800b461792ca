# Sitevik

A minimal static-site server built on Actix Web, with its decisions verified
in Verus.

- `src/request_path.rs`: percent decoding and the screening of request paths
  (no malformed escapes, valid UTF-8, no NUL, no `..` segment), and their
  parse into a relative path through actix-files.
- `src/config.rs`: defaults and strict validation of `SITEVIK_ROOT`,
  `BIND_ADDR` and `SITEVIK_SPA`.
- `src/fallback.rs`: the fallback handler as a state machine that decides
  between 404, 500 and the SPA document after static resolution fails.
- `app/`: the server itself: environment and filesystem access, address
  parsing, and the Actix Web service that runs the state machine.
