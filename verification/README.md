# http_streaming_envelope

HTTP-native response metadata for payloads that must remain asynchronous and
streaming: typed request, trace, source and generation metadata goes into the
response headers, the body frames pass through untouched, and a completion
trailer reports the exact number of payload bytes once the body has finished.

The library under `src/` carries machine-checked contracts and proofs:

- `metadata.rs`: request identifiers and trace contexts validated on
  construction, payload sources, timestamps, and the rules by which metadata
  is written into a header map without overwriting headers already present;
- `body.rs`: the completion state machine of the envelope body, the completion
  trailer, and the headers with which a response is wrapped;
- `decimal.rs`: the decimal rendering of the payload count;
- `headers.rs`: the header map and header values of the `http` crate, as the
  library sees them;
- `layer.rs`: the service layer's own values and its metadata requirement.

`app/` holds the `http-body` body type, `wrap_response` on `http::Response`,
and the Tower layer and service, which poll, await and convert while the
library decides.
