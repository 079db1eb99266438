# hub

The hub of a van's home automation: it finds the device nodes on the local
network, serves their devices over Bluetooth and HTTP, and passes the
commands it receives on to the nodes.

- `src/` is the library, verified with Verus: command words (`cli_command`),
  text primitives (`text`), what the Bluetooth services and the HTTP server
  read from their input (`ble_server`, `http_server`), device addresses and
  retries (`devices`), the messages between the servers and the main loop
  (`thread_sharing`), and the session's decisions (`session`).
- `tests/` runs the library on concrete inputs.
- `app/` is the program around it: the Bluetooth and HTTP servers, network
  calls, the command line and the main loop.
