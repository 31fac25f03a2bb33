# rosbridge

A rosbridge server: WebSocket clients that speak the rosbridge v2.1 protocol publish,
subscribe, call services and run actions on ROS 2.

* `src/` is the core, verified with Verus: message definitions, the conversion of
  messages between JSON and CDR, the protocol sessions of clients, glob security,
  throttling and queueing, compression, fragmentation, and the in-process bus. Every
  function has a contract; laws that span functions are public proof functions.
* `app/` is the program around it: sockets, TLS, command line, the ROS backends
  (`loopback`, `dds`, and `rcl` inside a sourced ROS 2 environment), and the `serde`
  form of client operations.
* `tests/` runs the core.

A session never talks to the backend itself. An operation goes into
`ClientSession::dispatch`, which returns an `Effect`: what to report to the client, or
what to ask of the backend. The program does that and tells the session what came of it
(`advertised`, `subscribed`, `service_replied`, `goal_finished` and the like), which
gives the frames to send.

What the core takes on trust are the outside functions that it calls: `serde_json` and
`ciborium` for JSON text and CBOR, `base64`, `png`, the name rules of `ros2_client`, and
a few functions of `std` on text. The doc comment of each says what is assumed of it.
