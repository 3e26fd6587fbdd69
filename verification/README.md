# plume_utils

Finding Apple devices, pairing with them and reaching their services, with the
decisions verified by Verus.

- `src/` is the library. Every item is verified against its contract, but for the
  calls that the last paragraph names.
  - `platform`, `device`, `transport`, `dedup`, `udid`, `device_id`: what is known
    of a device and how it is reached.
  - `discovery`: advertisements on the network (`mod`), what fills them in
    (`enrichment`), the devices that they stand for (`grouping`), when one counts as
    gone (`presence`), and a multicast DNS scan (`mdns`).
  - `pairing`, `pairing_file`, `pairing_cache`, `host`: pairing, pairing records,
    where they are kept, and the names that this host goes by.
  - `flow`: exchanges with a device as states that say what to do next and take in
    what came of it: pairing (`pair`), tunnels (`tunnel`), records of other tools
    (`import`), pairing over a cable (`rsd`).
  - `list_dates`: which property lists hold a date that cannot be read.
  - `property_list`, `string_map`, `text`, `net`, `sequences`, `format`, `error`,
    `apps`, `device_path`, `mac_install`, `bundle_info`: what the others use.
- `app/` is the input and output around it: sockets, files, the device protocols
  and the multicast DNS daemon.
- `tests/` runs the library on concrete values.

Calls into `plist`, `idevice` and `uuid`, and a few into the standard library, stand
behind functions whose contracts are believed. They are in `property_list`,
`pairing_file`, `host`, `pairing_cache`, `device` and `text`, each with a comment that
says what is believed of it. The public proof functions named `lemma_..` at the end of
a module state what holds of the module as a whole.
