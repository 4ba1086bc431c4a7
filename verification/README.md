# proxy_gateway

Configuration and control logic of a reverse proxy, verified with Verus.

- `src/text.rs`: trimming, splitting, port parsing and case folding, with
  their specifications.
- `src/structs.rs`: the configuration data model and its abstract views.
- `src/parceyaml.rs`: from a parsed upstreams file to the proxy's
  configuration (backends, headers, global settings); finishing the main
  settings.
- `src/load.rs`: names and expiry of TLS certificates (via rustls-pemfile and
  x509-parser) and the choice of certificate for a server name.
- `src/order.rs`: ACME bookkeeping: file names, the registered domains, the
  HTTP-01 challenge store, the certificate signing request (via rcgen),
  renewal.
- `src/webserver.rs`: API key checks (constant time, via subtle), HS256
  tokens (via jsonwebtoken) and the
  answers of the configuration API.
- `src/state.rs`: what the proxy serves from, how a configuration received
  from discovery replaces it, and the liveness of each declared backend.
- `src/discovery.rs`: discovery selection and working directories.
- `app/`: file and network I/O, YAML reading, the ACME client and the HTTP
  server around the library.
- `tests/`: tests of the library on concrete values.
