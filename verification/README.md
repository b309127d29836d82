# cloverleaf

Signalling for a WebRTC video server, verified with Verus.

`src/` is the verified library:

- `candidate`: the grammar of ICE `candidate:` attributes, the line a
  candidate is written as, and the law that a written host candidate reads
  back as itself.
- `sdp`: reading the ICE credentials out of a session description line by
  line, and writing the offer for one H.264 stream; `offer` writes a fixed
  offer with real CRLF line ends.
- `local_candidates`: which of the gathered candidates are offered.
- `agent_setup`: the order of the steps that set up an ICE agent, and what a
  failed step means.
- `sessions`, `state`: the table of sessions that wait for a viewer, and the
  server's decisions on it (opening a session, routing answers and candidates,
  starting to watch).
- `fingerprint`, `payload`, `transport`, `candidate_type`, `text`: the smaller
  pieces those build on.

`app/` is the server around it: the HTTP routes (rocket), the libnice ICE
agent and candidates driven through C, mDNS resolution, and SRTP.

The sessions that wait for a viewer are kept in `SessionTable`, a vector of
(id, agent) pairs whose ids are distinct, with a `Map` view that every
operation is proved against. A `HashMap<String, _>` would not serve here:
vstd states what a lookup gives after an insert only for key types that obey
its key model, and it gives that model for integer keys, not for `String`; it
could only be had by an assumption.
