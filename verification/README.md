# comsrv_protocols

The protocol logic of an industrial communication service, written in Verus.
Every function under `src/` carries a contract that Verus proves, except the
small `#[verifier::external_body]` wrappers around calls into std, `uuid`,
`chrono`, `tokio` and `url`: their contracts are trusted, not proved, and each
one's doc comment says what it claims of the call it makes.

- `src/` — the verified library: frame codecs (Modbus TCP device simulation,
  DL/T 645, IEC 61850 MMS/TPKT, Matter, RS-485 power meters, BLE values, CAN
  field extraction), address parsers, configuration defaults, the command
  batcher, slot stores, the shared-memory sync bookkeeping, log formatting,
  and the laws that tie encoders to decoders and writes to reads.
- `tests/` — tests of the library on concrete values.
- `app/` — what runs around the library: channel parameters read from JSON,
  floating-point conversions, and the socket and serial loops (tokio,
  tokio-serial, reqwest, rumqttc) that carry the library's frames.
