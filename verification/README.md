# vakil

The verified core of Vakil, a reverse proxy whose routing and traffic
decisions are made by dynamically loaded plugins.

- `src/` is the library, verified with Verus:
  - `abi` — the data exchanged with plugins (contexts, requests, responses,
    route decisions, hook outcomes) and the route read/write law;
  - `config` — runtime configuration: plugin path lists, the strict
    key/value config file, environment defaults;
  - `host` — manifest compatibility, plugin init contexts, plugin library
    recognition and the start-up order of protocol modules;
  - `dispatch` — module dispatch order, the callbacks each phase invokes,
    upstream selection and local replies for HTTP requests;
  - `l4` — the relay decisions of the TCP and UDP proxies;
  - `plugins` — the bundled example plugins (no-op, HTTP middleware, URL
    filter, sticky L4 balancer);
  - `text` — character-level helpers shared by the parsers.
- `tests/` exercises the library from outside.
- `app/` is the command line and the I/O around the library: reading the
  environment and files, loading plugin libraries, and the Pingora and
  Rama proxy services. It is not verified.
