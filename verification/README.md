# tuber-lib

A client library for [tuber](https://github.com/tuberq/tuber), a work queue
server that speaks the beanstalkd protocol, with its logic verified by Verus.

- `src/` is the verified library: the protocol's command lines and the
  reading of the server's replies (`protocol`), the simple YAML the server
  reports in (`parse`, over the text primitives of `text` and the decimal
  numbers of `number`), the server, tube, job and group statistics
  (`model`), stable ordering (`order`), the dashboard's state (`dashboard`),
  its poller's decisions (`poll`), the text it shows (`display`), the
  indented text output of the command line client (`outline`) and the
  server address (`resolve_addr`).
- `app/` holds the two programs around it: the command line client
  (`tuber-cli`) and the terminal dashboard (`tuber-tui`), with the network
  connection, the terminal, JSON and the floating point measurements.
- `tests/` runs the library on concrete inputs.
