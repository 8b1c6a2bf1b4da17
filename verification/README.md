# flight_follower

The follower side of a distributed search over Arrow Flight, written in Verus.

A leader splits a search job into several parallel `do_get` requests to one follower. The follower
runs the search once and splits the output streams of that one execution among the requests.
A request that comes when all streams are claimed starts no second execution: it has missed nothing,
or it is refused.

- `src/` holds the decisions, verified:
  - `group`: which streams belong to which request;
  - `shared`: the execution that the requests share, and the claims on its streams;
  - `registry`, `entries`: how requests find the execution that they share, and how long it is kept;
  - `fan_out`: what holds of a fan-out as a whole;
  - `shared_build`, `planning`: the course of building such an execution;
  - `do_get`, `request`, `service`: the course of a request, from its ticket to its last batch;
  - `messages`, `session`, `status`, `text`: what is reported, undone and refused;
  - `rewrite`: rewrites that give the partial aggregate of a plan a second input;
  - `outside`: the calls into other crates, and what is taken on trust of them.
- `app/` does what the decisions ask for: gRPC, locks, timers, planning and execution.
- `tests/` runs the library.

Each `law_` function in `src/` states a property of the library as a whole.
