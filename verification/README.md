# xproxy

An HTTP/HTTPS tunnelling proxy in two halves. The client side (`xproxy client`) listens for browsers, finds the target host in each request and asks the server side (`xproxy server`) to connect to it. Every request starts with the hash of the shared key. Both sides then relay the traffic, XOR-ed with that key.

- `src/` is the library, verified with Verus:
  - `util`: the XOR stream cipher and the relay loop's state.
  - `text`: string search, line splitting and decimal numerals.
  - `cfg`: parsing the configuration file, the key hash, and `u64` parsing.
  - `prot`: the request and answer messages.
  - `local`, `remote`: what each side decides while it sets up a tunnel.
- `app/` holds the program: the configuration file, the sockets and the async runtime. It performs the actions that the library decides.
- `tests/` holds the tests of the library.
