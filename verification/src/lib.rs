//! Device bookkeeping for a sandboxed virtual machine: the PCIe topology of
//! the guest, guest-side volumes and the GPU driver / CDI description.

pub mod text;
pub mod string_map;
pub mod pci_path;
pub mod topology;
pub mod guest_volume;
pub mod driver_spec;
pub mod cdi_spec;
pub mod laws;
