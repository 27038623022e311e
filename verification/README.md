# tracelogging

Windows TraceLogging (ETW) event encoding, verified with Verus.

- `src/` is the verified library: the field kinds and values
  (`trace_logging`, `internal`), the provider GUID readers (`guid`), the
  provider traits and event metadata blobs (`metadata`), the event and data
  descriptors (`event`) and the stack of open activities (`activity`).
  Every public function states its whole result; the laws (size fields
  state the blob's own length, payloads match their stated size, both GUID
  readers agree on canonical text and give it back in lower case, stops
  close activities in reverse order of their starts) are proof functions
  beside the code they are about.
- `tests/` runs the library on concrete values.
- `app/` is the unverified side: the macro front ends, which read tokens
  with syn and expand to calls into the runtime, and the ETW runtime itself,
  which exists on Windows only.
