# bubble_bridge

The verified core of a bridge between a messaging app and Apple's push,
sign-in and iCloud services. The library (`src/`) holds the decisions,
encodings and bookkeeping, each with a contract proved by Verus; `app/` is
the platform side that performs the file, network and service work and
hands the library plain values.

Modules of the library:

- `text`, `hex`: string helpers, decimal and hexadecimal rendering and
  parsing, device identifiers and UUID text.
- `protowire`, `hwinfo`, `config`: the protobuf hardware-info record a
  Mac's configuration is stored as, with its encoder and decoder and the
  round trip between them.
- `plist`, `migrate`: property-list values and dictionaries, and the
  migration of stored state that moves private keys into the key store.
- `circle`: the sign-in ("circle") exchanges this device answers.
- `poll`: which service sees an incoming push message, and what ends a poll.
- `login`, `files`: what a login reads and settles on, and the plans of file
  work for logging in, forgetting a user and resetting.
- `relay`, `headers`, `time`, `streams`, `beacons`, `summaries`, `cloud`,
  `packaging`: the smaller decisions of the API.

The tests under `tests/` exercise the library on concrete values.
