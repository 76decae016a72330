# pgdog_parameter

The parameters of a PostgreSQL session as a connection pooler keeps them, with
proofs in Verus.

A session has parameters of its own, parameters of the current transaction and
local ones. `Parameters` sets, resets, commits and rolls them back, tells
whether two sessions agree by a fingerprint, and writes the `SET` and `RESET`
statements that bring a server up to a state.

- `src/parameters.rs`: `Parameters`.
- `src/value.rs`: `ParameterValue` and `Parameter`; how a value is written in
  SQL and on the wire.
- `src/ordered.rs`: `ParameterMap`, a map that lists its entries by name.
- `src/query.rs`: statements, and the changes that they make.
- `src/fingerprint.rs`, `src/tracking.rs`: the fingerprint, and which parameters
  count for it.
- `src/state.rs`, `src/model.rs`, `src/order.rs`: the mathematics that the
  contracts speak of.
- `src/text.rs`, `src/buffer.rs`: text and byte buffers.
- `src/laws/`: what holds of the library as a whole.
- `app/`: `Display`, logging and conversions around the library.

What is not proved: `str::to_lowercase`, `From<T> for T`, and the four calls
into the `bytes` crate in `src/buffer.rs`. Each stands in one place that
says what is taken for granted of it.
