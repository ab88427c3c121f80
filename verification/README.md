# symbian SDK logic, verified

The host-testable half of a Symbian S60 SDK: stored record formats, the file loops that a
partial read or a partial write needs, the state machines that drive the platform's
asynchronous services, and the decoders for what the platform hands back. The functions in
`src/` carry contracts that Verus proves; the exceptions are five small wrappers around
standard-library text conversions (`str::encode_utf16`, `str::to_lowercase`,
`core::str::from_utf8`, `String::push`, `String::from_utf16_lossy`), whose contracts are
taken on trust from the standard library's documentation.

- `src/` — the library. Each platform service is an interface (`fs::Fs`, `net::Net`,
  `msg::Msv`, `location::Location`, `apps::Launcher`, …) stated over a model of what it
  holds or a log of what was asked of it. Most have an in-memory implementation (`MemFs`,
  `MemMsv`, `MemLocation`, `MemImages`, `FakeBt`) that keeps those contracts; `Net`,
  `Launcher`, `Http` and `Schema` have none in the library, only the device's and the tests'
  own. The logic above the interfaces is verified against the contracts alone.
- `tests/` — tests of the library on concrete values.
- `app/` — the device side: the native shim's calls, process-wide state, and the few parts
  that carry floating-point values (a GPS fix, an SQL real column).
