# kata_devices

Verified device bookkeeping for a sandbox VM, written in Verus.

- `src/topology.rs`: the guest's PCIe topology. The root bus has 32 slots;
  devices are attached to the first free slot, moved when the hypervisor
  reports another path, and removed by device id. Root ports, PCIe switches
  and switch ports are laid out one by one or by a strategy.
- `src/pci_path.rs`: guest PCI paths and their textual form (`02/1f`).
- `src/string_map.rs`: an insertion-ordered map keyed by strings. It stands
  where a `HashMap<String, _>` would: vstd's specification of `HashMap` holds
  only for key types that obey its key model, which `String` is not known to
  do (a `HashMap<String, u32>` with one `insert` was tried: its length could
  not be proved to be 1), and vstd's `StringHashMap` cannot be iterated,
  which removing and finding devices by id needs.
- `src/guest_volume.rs`: bind mounts whose source lives in the guest
  (`...@guest`).
- `src/driver_spec.rs`, `src/cdi_spec.rs`: the description of an installed
  GPU driver and the CDI description derived from it.
- `src/laws.rs`: properties of the library as a whole (registration is
  idempotent, device ids stay unique, removed devices are gone, ...).
- `app/`: reading the driver directory and YAML templates, checking which
  files exist, and writing the YAML descriptions.
- `tests/`: tests of the library.
