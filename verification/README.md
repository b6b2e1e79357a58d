# boomerang_federated

The coordination core of a federated reactor runtime, with every decision stated as a
contract and proved with Verus.

A federation is a set of Federates that exchange tagged messages through a runtime
infrastructure (RTI). Each Federate may only advance its logical time to a tag that the RTI
granted, and the RTI grants a tag only when no message can still arrive at or before it.

## Layout

- `src/` — the verified library.
  - `protocol`, `delay_order`, `ids`, `tags`, `text`: wire tags and delays with their order,
    Federate and endpoint identities, and how they read in diagnostics.
  - `rti`: the RTI over a compiled graph (`rti::graph`): message validation, grant
    evaluation, in-transit bookkeeping.
  - `topology`: the RTI over a declared topology, and the laws of its grants.
  - `session`, `session_laws`: the decisions of a static RTI session, from Hello to Stop.
  - `client`, `client_laws`: a Federate's scheduler barrier and logical-time coordinator.
  - `federate_coordination`: the Federate-wide state machine joining its Enclaves' frontiers,
    and the service that executes its actions and ends it on a failure.
  - `runner`: how a static federation run ends, from its schedulers', services' and session's
    reports.
  - `connections`, `hierarchy`: the prebuilt connection bundles and ownership checks of a
    runtime lowering.
  - `channel`: the bounded FIFO with reserved coordination capacity.
  - `conformance`: the reference coordinator and fault scheduler for conformance vectors.
  - `reactor_fields`: how the reactor and reaction derives classify a struct's fields, over a
    plain description of each field's type and attributes.
  - `runtime`, `codec`, `start_sync`: endpoint faults, payload codecs and start-time
    negotiation.
- `tests/` — scenarios run against the compiled library.
- `app/` — the I/O around the core: serde forms of the frames, displayable errors, the async
  session driver, the coordination service loop, the scheduler barrier's wait loop and the
  start-time channels.
