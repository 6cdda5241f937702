# greedy-nearest-neighbor-algorithm

A routing server that answers `POST /gnn` with a greedy nearest-neighbour
route through the given coordinates, using a travel matrix from
OpenRouteService, and forwards `POST /optimize` to VROOM.

- `src/` is the verified library: the route itself (`gnn`), the checks and
  answers around a route request (`ors`, `server`), the health and
  environment decisions for the two outside services (`ors`, `vrm`), and the
  text helpers they use (`text`, `http_status`).
- `app/` is the server: environment, HTTP client and listener, JSON, process
  start-up, and the floating-point parts (distance ranks and totals).
- `tests/` runs the library on concrete inputs.

`POST /optimize` checks that its payload is a JSON object, then forwards it to
VROOM. The forwarding (`optimize_vroom` in `app/vrm.rs`) is this server's own
minimal choice, as no other behaviour was specified for it: it posts the
payload to the VROOM base address, answers a non-success status as a bad
request, and hands back the JSON that VROOM returns.
