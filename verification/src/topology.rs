//! The PCIe topology of a guest.
//!
//! Two layers are kept. The flat layer is the root bus (`pcie.0`), which has
//! 32 slots; each device attached there is recorded under the textual form of
//! its PCI path. The complex layer records root ports on the root bus, each of
//! which may have one PCIe switch, whose ports lead to downstream devices.

use std::collections::HashMap;

use vstd::prelude::*;
use vstd::string::*;

use crate::pci_path::{path_string, PciPath};
use crate::string_map::StringMap;
use crate::text::{dec_chars, numbered_name, push_decimal, views_of};
use crate::laws::lemma_register_path;

verus! {

broadcast use vstd::std_specs::hash::group_hash_axioms;

/// The name of the root bus.
pub const DEFAULT_PCIE_ROOT_BUS: &'static str = "pcie.0";

/// The address of the root bus.
pub const DEFAULT_PCIE_ROOT_BUS_ADDRESS: &'static str = "0000:00";

/// The number of slots on the root bus.
pub const PCIE_ROOT_BUS_SLOTS_CAPACITY: u32 = 32;

/// The characters of the root bus's name.
pub open spec fn root_bus_name() -> Seq<char> {
    seq!['p', 'c', 'i', 'e', '.', '0']
}

/// Errors of the topology's operations.
#[derive(Clone, Copy, Debug, PartialEq, Eq, Structural)]
pub enum TopologyError {
    /// A root port with this id is already present.
    RootPortExists(u32),
    /// No root port has this id.
    RootPortNotFound(u32),
    /// The root port with this id already has a switch.
    SwitchAlreadyConnected(u32),
    /// The root port with this id has no switch.
    NoConnectedSwitch(u32),
    /// The switch already has a port with this id.
    SwitchPortExists { port: u32, switch: u32 },
    /// Every slot of the root bus is taken.
    PciPathAllocationFailed,
    /// A hybrid layout was asked for with fewer switch ports than switches,
    /// so some switch would have no downstream port.
    TooFewSwitchPorts { switches: u32, ports: u32 },
}

/// The text of an error.
pub open spec fn error_message(e: TopologyError) -> Seq<char> {
    match e {
        TopologyError::RootPortExists(id) => "Root Port "@ + dec_chars(id as nat)
            + " already exists."@,
        TopologyError::RootPortNotFound(id) => "Root Port "@ + dec_chars(id as nat)
            + " does not exist."@,
        TopologyError::SwitchAlreadyConnected(id) => "Root Port "@ + dec_chars(id as nat)
            + " already has a connected switch."@,
        TopologyError::NoConnectedSwitch(id) => "Root Port "@ + dec_chars(id as nat)
            + " has no connected switch."@,
        TopologyError::SwitchPortExists { port, switch } => "Switch Port "@ + dec_chars(
            port as nat,
        ) + " already exists in Switch "@ + dec_chars(switch as nat) + "."@,
        TopologyError::PciPathAllocationFailed => "pci path allocated failed."@,
        TopologyError::TooFewSwitchPorts { switches, ports } => "Hybrid layout of "@ + dec_chars(
            switches as nat,
        ) + " switches needs at least as many switch ports, got "@ + dec_chars(ports as nat)
            + "."@,
    }
}

impl TopologyError {
    /// The error's text, such as `Root Port 3 already exists.`.
    pub fn message(&self) -> (r: String)
        ensures
            r@ == error_message(*self),
    {
        match *self {
            TopologyError::RootPortExists(id) => {
                let mut s = String::from_str("Root Port ");
                push_decimal(&mut s, id);
                s.append(" already exists.");
                s
            },
            TopologyError::RootPortNotFound(id) => {
                let mut s = String::from_str("Root Port ");
                push_decimal(&mut s, id);
                s.append(" does not exist.");
                s
            },
            TopologyError::SwitchAlreadyConnected(id) => {
                let mut s = String::from_str("Root Port ");
                push_decimal(&mut s, id);
                s.append(" already has a connected switch.");
                s
            },
            TopologyError::NoConnectedSwitch(id) => {
                let mut s = String::from_str("Root Port ");
                push_decimal(&mut s, id);
                s.append(" has no connected switch.");
                s
            },
            TopologyError::SwitchPortExists { port, switch } => {
                let mut s = String::from_str("Switch Port ");
                push_decimal(&mut s, port);
                s.append(" already exists in Switch ");
                push_decimal(&mut s, switch);
                s.append(".");
                s
            },
            TopologyError::PciPathAllocationFailed => String::from_str("pci path allocated failed."),
            TopologyError::TooFewSwitchPorts { switches, ports } => {
                let mut s = String::from_str("Hybrid layout of ");
                push_decimal(&mut s, switches);
                s.append(" switches needs at least as many switch ports, got ");
                push_decimal(&mut s, ports);
                s.append(".");
                s
            },
        }
    }
}

/// Something that is known by a device id.
pub trait PCIeDevice: Send + Sync {
    fn device_id(&self) -> &str;
}

/// Reserved resources of a root port.
#[derive(Debug)]
pub struct ResourceReserved {
    /// Secondary buses reserved for a bridge hot-plugged below the port.
    pub bus_reserve: String,
    /// Prefetchable MMIO aperture, 64-bit.
    pub pref64_reserve: String,
    /// Prefetchable MMIO aperture, 32-bit.
    pub pref32_reserve: String,
    /// Non-prefetchable MMIO aperture, 32-bit only.
    pub memory_reserve: String,
    /// IO reservation.
    pub io_reserve: String,
}

impl Clone for ResourceReserved {
    fn clone(&self) -> (r: Self)
        ensures
            r == *self,
    {
        ResourceReserved {
            bus_reserve: self.bus_reserve.clone(),
            pref64_reserve: self.pref64_reserve.clone(),
            pref32_reserve: self.pref32_reserve.clone(),
            memory_reserve: self.memory_reserve.clone(),
            io_reserve: self.io_reserve.clone(),
        }
    }
}

impl Default for ResourceReserved {
    fn default() -> (r: Self)
        ensures
            r.bus_reserve@ == Seq::<char>::empty(),
            r.pref64_reserve@ == Seq::<char>::empty(),
            r.pref32_reserve@ == Seq::<char>::empty(),
            r.memory_reserve@ == Seq::<char>::empty(),
            r.io_reserve@ == Seq::<char>::empty(),
    {
        ResourceReserved {
            bus_reserve: String::new(),
            pref64_reserve: String::new(),
            pref32_reserve: String::new(),
            memory_reserve: String::new(),
            io_reserve: String::new(),
        }
    }
}

/// A PCIe root port.
#[derive(Debug)]
pub struct PCIeRootPort {
    /// `rp{n}`, n >= 0.
    pub id: String,
    /// The bus it sits on, by default `pcie.0`.
    pub bus: String,
    /// Its address on that bus.
    pub address: String,
    /// With `slot`, unique for each root port.
    pub chassis: u8,
    pub slot: u8,
    /// Multi-function, for device passthrough.
    pub multi_function: bool,
    /// Resources reserved for some VMMs.
    pub resource_reserved: ResourceReserved,
    /// The ROM file of the device.
    pub romfile: String,
}

impl Clone for PCIeRootPort {
    fn clone(&self) -> (r: Self)
        ensures
            r == *self,
    {
        PCIeRootPort {
            id: self.id.clone(),
            bus: self.bus.clone(),
            address: self.address.clone(),
            chassis: self.chassis,
            slot: self.slot,
            multi_function: self.multi_function,
            resource_reserved: self.resource_reserved.clone(),
            romfile: self.romfile.clone(),
        }
    }
}

impl Default for PCIeRootPort {
    fn default() -> (r: Self)
        ensures
            r.id@ == Seq::<char>::empty(),
            r.bus@ == Seq::<char>::empty(),
            r.address@ == Seq::<char>::empty(),
            r.chassis == 0,
            r.slot == 0,
            !r.multi_function,
            r.romfile@ == Seq::<char>::empty(),
    {
        PCIeRootPort {
            id: String::new(),
            bus: String::new(),
            address: String::new(),
            chassis: 0,
            slot: 0,
            multi_function: false,
            resource_reserved: ResourceReserved::default(),
            romfile: String::new(),
        }
    }
}

/// A device attached to the topology.
#[derive(Debug)]
pub struct PCIeEndpoint {
    /// The device's id in the device manager.
    pub device_id: String,
    /// The device's PCI path in the guest.
    pub pci_path: PciPath,
    /// The root port of a PCIe device.
    pub root_port: Option<PCIeRootPort>,
    /// virtio-pci, PCI or PCIe.
    pub device_type: String,
}

/// The abstract value of an endpoint.
pub struct EndpointView {
    pub device_id: Seq<char>,
    pub pci_path: Seq<u8>,
    pub root_port: Option<PCIeRootPort>,
    pub device_type: Seq<char>,
}

impl View for PCIeEndpoint {
    type V = EndpointView;

    open spec fn view(&self) -> EndpointView {
        EndpointView {
            device_id: self.device_id@,
            pci_path: self.pci_path@,
            root_port: self.root_port,
            device_type: self.device_type@,
        }
    }
}

impl Clone for PCIeEndpoint {
    fn clone(&self) -> (r: Self)
        ensures
            r@ == self@,
    {
        let root_port = match &self.root_port {
            Some(rp) => Some(rp.clone()),
            None => None,
        };
        PCIeEndpoint {
            device_id: self.device_id.clone(),
            pci_path: self.pci_path.clone(),
            root_port,
            device_type: self.device_type.clone(),
        }
    }
}

impl Default for PCIeEndpoint {
    fn default() -> (r: Self)
        ensures
            r@ == (EndpointView {
                device_id: Seq::empty(),
                pci_path: Seq::empty(),
                root_port: None,
                device_type: Seq::empty(),
            }),
    {
        PCIeEndpoint {
            device_id: String::new(),
            pci_path: PciPath::default(),
            root_port: None,
            device_type: String::new(),
        }
    }
}

impl PCIeDevice for PCIeEndpoint {
    fn device_id(&self) -> (r: &str)
        ensures
            r@ == self.device_id@,
    {
        self.device_id.as_str()
    }
}

/// The root complex: the root bus and the devices attached directly to it,
/// keyed by the textual form of their PCI paths.
#[derive(Clone, Debug)]
pub struct PCIeRootComplex {
    pub root_bus: String,
    pub root_bus_address: String,
    pub root_bus_devices: StringMap<PCIeEndpoint>,
}

impl Default for PCIeRootComplex {
    fn default() -> (r: Self)
        ensures
            r.root_bus@ == Seq::<char>::empty(),
            r.root_bus_address@ == Seq::<char>::empty(),
            r.root_bus_devices.wf(),
            r.root_bus_devices@ == Map::<Seq<char>, PCIeEndpoint>::empty(),
    {
        PCIeRootComplex {
            root_bus: String::new(),
            root_bus_address: String::new(),
            root_bus_devices: StringMap::new(),
        }
    }
}

/// The naming scheme of PCIe ports.
#[derive(Clone, Copy, Debug, PartialEq, Eq, Hash, Structural)]
pub enum PCIePortBusPrefix {
    RootPort,
    SwitchPort,
    SwitchUpstreamPort,
    SwitchDownstreamPort,
}

impl PCIePortBusPrefix {
    /// The prefix's characters.
    pub open spec fn prefix_chars(self) -> Seq<char> {
        match self {
            PCIePortBusPrefix::RootPort => seq!['r', 'p'],
            PCIePortBusPrefix::SwitchPort => seq!['s', 'w'],
            PCIePortBusPrefix::SwitchUpstreamPort => seq!['s', 'w', 'u', 'p'],
            PCIePortBusPrefix::SwitchDownstreamPort => seq!['s', 'w', 'd', 'p'],
        }
    }

    /// The prefix as a string slice.
    pub fn as_str(&self) -> (r: &'static str)
        ensures
            r@ == self.prefix_chars(),
    {
        match self {
            PCIePortBusPrefix::RootPort => {
                proof {
                    reveal_strlit("rp");
                }
                "rp"
            },
            PCIePortBusPrefix::SwitchPort => {
                proof {
                    reveal_strlit("sw");
                }
                "sw"
            },
            PCIePortBusPrefix::SwitchUpstreamPort => {
                proof {
                    reveal_strlit("swup");
                }
                "swup"
            },
            PCIePortBusPrefix::SwitchDownstreamPort => {
                proof {
                    reveal_strlit("swdp");
                }
                "swdp"
            },
        }
    }

    /// The prefix as a string: `rp`, `sw`, `swup` or `swdp`.
    pub fn to_string(&self) -> (r: String)
        ensures
            r@ == self.prefix_chars(),
    {
        String::from_str(self.as_str())
    }
}

/// The name of a numbered port: the prefix followed by the number.
pub open spec fn port_name(prefix: PCIePortBusPrefix, n: nat) -> Seq<char> {
    prefix.prefix_chars() + dec_chars(n)
}

/// Builds the name of a numbered port, such as `rp1` or `swdp3`.
pub fn make_port_name(prefix: PCIePortBusPrefix, n: u32) -> (r: String)
    ensures
        r@ == port_name(prefix, n as nat),
{
    numbered_name(prefix.as_str(), n)
}

/// The kind of PCIe port that devices are attached to.
#[derive(Clone, Copy, Debug, PartialEq, Eq, Hash, Structural)]
pub enum PCIePort {
    /// Hot- and cold-plug of VFIO devices is disabled.
    NoPort,
    /// VFIO devices are attached to a root port.
    RootPort,
    /// VFIO devices are attached to a switch port.
    SwitchPort,
    /// Not a valid port.
    InvalidPort,
}

impl Default for PCIePort {
    fn default() -> (r: Self)
        ensures
            r == PCIePort::NoPort,
    {
        PCIePort::NoPort
    }
}

impl PCIePort {
    /// The port kind's name.
    pub open spec fn name_chars(self) -> Seq<char> {
        match self {
            PCIePort::NoPort => seq!['n', 'o', '-', 'p', 'o', 'r', 't'],
            PCIePort::RootPort => seq!['r', 'o', 'o', 't', '-', 'p', 'o', 'r', 't'],
            PCIePort::SwitchPort => seq!['s', 'w', 'i', 't', 'c', 'h', '-', 'p', 'o', 'r', 't'],
            PCIePort::InvalidPort => seq![
                'i', 'n', 'v', 'a', 'l', 'i', 'd', '-', 'p', 'o', 'r', 't'
            ],
        }
    }

    /// The port kind as a string: `no-port`, `root-port`, `switch-port` or
    /// `invalid-port`.
    pub fn to_string(&self) -> (r: String)
        ensures
            r@ == self.name_chars(),
    {
        match self {
            PCIePort::NoPort => {
                proof {
                    reveal_strlit("no-port");
                }
                String::from_str("no-port")
            },
            PCIePort::RootPort => {
                proof {
                    reveal_strlit("root-port");
                }
                String::from_str("root-port")
            },
            PCIePort::SwitchPort => {
                proof {
                    reveal_strlit("switch-port");
                }
                String::from_str("switch-port")
            },
            PCIePort::InvalidPort => {
                proof {
                    reveal_strlit("invalid-port");
                }
                String::from_str("invalid-port")
            },
        }
    }
}

/// A port of a PCIe switch.
#[derive(Clone, Debug)]
pub struct PciePort {
    pub id: u32,
    pub bus: String,
    pub port_type: PCIePort,
    /// Names of the connected downstream devices.
    pub connected_swdp_devices: Vec<String>,
}

/// The abstract value of a switch port.
pub struct PortView {
    pub id: u32,
    pub bus: Seq<char>,
    pub port_type: PCIePort,
    pub devices: Seq<Seq<char>>,
}

impl View for PciePort {
    type V = PortView;

    open spec fn view(&self) -> PortView {
        PortView {
            id: self.id,
            bus: self.bus@,
            port_type: self.port_type,
            devices: self.connected_swdp_devices@.map_values(|s: String| s@),
        }
    }
}

impl Default for PciePort {
    fn default() -> (r: Self)
        ensures
            r@ == (PortView {
                id: 0,
                bus: Seq::empty(),
                port_type: PCIePort::NoPort,
                devices: Seq::empty(),
            }),
    {
        let r = PciePort {
            id: 0,
            bus: String::new(),
            port_type: PCIePort::NoPort,
            connected_swdp_devices: Vec::new(),
        };
        assert(r@.devices =~= Seq::<Seq<char>>::empty());
        r
    }
}

/// A PCIe switch, attached to a root port.
#[derive(Clone, Debug)]
pub struct PcieSwitch {
    pub id: u32,
    pub bus: String,
    pub switch_ports: HashMap<u32, PciePort>,
}

/// The abstract value of a switch.
pub struct SwitchView {
    pub id: u32,
    pub bus: Seq<char>,
    pub ports: Map<u32, PortView>,
}

impl View for PcieSwitch {
    type V = SwitchView;

    open spec fn view(&self) -> SwitchView {
        SwitchView {
            id: self.id,
            bus: self.bus@,
            ports: self.switch_ports@.map_values(|p: PciePort| p@),
        }
    }
}

/// A root port on the root bus, used for hot-plugging, possibly with a switch.
#[derive(Clone, Debug)]
pub struct TopologyPortDevice {
    pub id: String,
    pub bus: String,
    pub connected_switch: Option<PcieSwitch>,
}

/// The abstract value of a root port.
pub struct PortDeviceView {
    pub id: Seq<char>,
    pub bus: Seq<char>,
    pub switch: Option<SwitchView>,
}

impl View for TopologyPortDevice {
    type V = PortDeviceView;

    open spec fn view(&self) -> PortDeviceView {
        PortDeviceView {
            id: self.id@,
            bus: self.bus@,
            switch: match self.connected_switch {
                Some(s) => Some(s@),
                None => None,
            },
        }
    }
}

impl TopologyPortDevice {
    /// A root port with the given id and bus, and no switch.
    pub fn new(id: &str, bus: &str) -> (r: Self)
        ensures
            r@ == (PortDeviceView { id: id@, bus: bus@, switch: None }),
    {
        TopologyPortDevice {
            id: String::from_str(id),
            bus: String::from_str(bus),
            connected_switch: None,
        }
    }

    /// A port with a switch is a switch port; one without is a root port.
    pub fn get_port_type(&self) -> (r: PCIePort)
        ensures
            r == (if self.connected_switch.is_some() {
                PCIePort::SwitchPort
            } else {
                PCIePort::RootPort
            }),
    {
        match self.connected_switch {
            Some(_) => PCIePort::SwitchPort,
            None => PCIePort::RootPort,
        }
    }
}

/// How switch ports are laid out.
#[derive(Clone, Copy, Debug, PartialEq, Eq, Structural)]
pub enum Strategy {
    /// One root port with one switch that has all the downstream ports.
    SingleRootPort,
    /// One root port per downstream port, each with its own one-port switch.
    MultipleRootPorts,
    /// Several root ports, each with a switch sharing the downstream ports.
    Hybrid,
}

/// The device section of the hypervisor's topology configuration.
#[derive(Clone, Debug)]
pub struct TopologyDeviceInfo {
    pub default_bridges: u32,
    pub pcie_root_port: u32,
    pub pcie_switch_port: u32,
    pub hotplug_vfio_on_root_bus: bool,
}

/// The hypervisor's topology configuration.
#[derive(Clone, Debug)]
pub struct TopologyConfigInfo {
    pub hypervisor_name: String,
    pub device_info: TopologyDeviceInfo,
}

/// The PCIe topology of a guest.
#[derive(Clone, Debug)]
pub struct PCIeTopology {
    pub hypervisor_name: String,
    pub root_complex: PCIeRootComplex,
    pub bridges: u32,
    pub pcie_root_ports: u32,
    pub pcie_switch_ports: u32,
    pub hotplug_vfio_on_root_bus: bool,
    /// The root ports, with their switches, by id.
    pub pcie_port_devices: HashMap<u32, TopologyPortDevice>,
}

/// The port kind that devices are attached to, and how many such ports there
/// are: root ports or switch ports, but never both.
pub open spec fn pcie_port_choice(root_ports: u32, switch_ports: u32) -> Option<(PCIePort, u32)> {
    if root_ports > 0 && switch_ports > 0 {
        None
    } else if root_ports > 0 {
        Some((PCIePort::RootPort, root_ports))
    } else if switch_ports > 0 {
        Some((PCIePort::SwitchPort, switch_ports))
    } else {
        None
    }
}

/// A fresh root port with id `id`.
pub open spec fn new_root_port(id: u32) -> PortDeviceView {
    PortDeviceView {
        id: port_name(PCIePortBusPrefix::RootPort, id as nat),
        bus: root_bus_name(),
        switch: None,
    }
}

/// Whether root port `i` is present and has a switch.
pub open spec fn has_switch(m: Map<u32, PortDeviceView>, i: u32) -> bool {
    m.contains_key(i) && m[i].switch is Some
}

impl PCIeTopology {
    /// The root ports, by id.
    pub open spec fn ports_view(&self) -> Map<u32, PortDeviceView> {
        self.pcie_port_devices@.map_values(|d: TopologyPortDevice| d@)
    }

    /// The devices on the root bus, by the textual form of their PCI paths.
    pub open spec fn bus_view(&self) -> Map<Seq<char>, EndpointView> {
        self.root_complex.root_bus_devices@.map_values(|e: PCIeEndpoint| e@)
    }

    /// Well-formedness of the root bus's record.
    pub open spec fn wf(&self) -> bool {
        self.root_complex.root_bus_devices.wf()
    }

    /// Everything but the root ports is as in `other`.
    pub open spec fn same_except_ports(&self, other: &PCIeTopology) -> bool {
        &&& self.hypervisor_name == other.hypervisor_name
        &&& self.root_complex == other.root_complex
        &&& self.bridges == other.bridges
        &&& self.pcie_root_ports == other.pcie_root_ports
        &&& self.pcie_switch_ports == other.pcie_switch_ports
        &&& self.hotplug_vfio_on_root_bus == other.hotplug_vfio_on_root_bus
    }

    /// Everything but the devices on the root bus is as in `other`.
    pub open spec fn same_except_bus(&self, other: &PCIeTopology) -> bool {
        &&& self.hypervisor_name == other.hypervisor_name
        &&& self.root_complex.root_bus == other.root_complex.root_bus
        &&& self.root_complex.root_bus_address == other.root_complex.root_bus_address
        &&& self.bridges == other.bridges
        &&& self.pcie_root_ports == other.pcie_root_ports
        &&& self.pcie_switch_ports == other.pcie_switch_ports
        &&& self.hotplug_vfio_on_root_bus == other.hotplug_vfio_on_root_bus
        &&& self.pcie_port_devices == other.pcie_port_devices
    }
}

impl Default for PCIeTopology {
    fn default() -> (r: Self)
        ensures
            r.wf(),
            r.hypervisor_name@ == Seq::<char>::empty(),
            r.root_complex.root_bus@ == Seq::<char>::empty(),
            r.root_complex.root_bus_address@ == Seq::<char>::empty(),
            r.bus_view() == Map::<Seq<char>, EndpointView>::empty(),
            r.bridges == 0,
            r.pcie_root_ports == 0,
            r.pcie_switch_ports == 0,
            !r.hotplug_vfio_on_root_bus,
            r.ports_view() == Map::<u32, PortDeviceView>::empty(),
    {
        let r = PCIeTopology {
            hypervisor_name: String::new(),
            root_complex: PCIeRootComplex::default(),
            bridges: 0,
            pcie_root_ports: 0,
            pcie_switch_ports: 0,
            hotplug_vfio_on_root_bus: false,
            pcie_port_devices: HashMap::new(),
        };
        assert(r.bus_view() =~= Map::<Seq<char>, EndpointView>::empty());
        assert(r.ports_view() =~= Map::<u32, PortDeviceView>::empty());
        r
    }
}

impl PCIeTopology {
    /// A topology for the given configuration; none without one, as some
    /// setups do not support PCIe devices.
    pub fn new(config_info: Option<&TopologyConfigInfo>) -> (r: Option<Self>)
        ensures
            config_info is None ==> r is None,
            config_info matches Some(c) ==> r matches Some(t) && {
                &&& t.wf()
                &&& t.hypervisor_name@ == c.hypervisor_name@
                &&& t.root_complex.root_bus@ == root_bus_name()
                &&& t.root_complex.root_bus_address@ == seq!['0', '0', '0', '0', ':', '0', '0']
                &&& t.bus_view() == Map::<Seq<char>, EndpointView>::empty()
                &&& t.bridges == c.device_info.default_bridges
                &&& t.pcie_root_ports == c.device_info.pcie_root_port
                &&& t.pcie_switch_ports == c.device_info.pcie_switch_port
                &&& t.hotplug_vfio_on_root_bus == c.device_info.hotplug_vfio_on_root_bus
                &&& t.ports_view() == Map::<u32, PortDeviceView>::empty()
            },
    {
        let topo_config = match config_info {
            Some(c) => c,
            None => return None,
        };
        proof {
            reveal_strlit("pcie.0");
            reveal_strlit("0000:00");
        }
        let root_complex = PCIeRootComplex {
            root_bus: String::from_str(DEFAULT_PCIE_ROOT_BUS),
            root_bus_address: String::from_str(DEFAULT_PCIE_ROOT_BUS_ADDRESS),
            root_bus_devices: StringMap::new(),
        };
        let total_rp = topo_config.device_info.pcie_root_port;
        let total_swp = topo_config.device_info.pcie_switch_port;
        let t = PCIeTopology {
            hypervisor_name: topo_config.hypervisor_name.clone(),
            root_complex,
            bridges: topo_config.device_info.default_bridges,
            pcie_root_ports: total_rp,
            pcie_switch_ports: total_swp,
            hotplug_vfio_on_root_bus: topo_config.device_info.hotplug_vfio_on_root_bus,
            pcie_port_devices: HashMap::new(),
        };
        assert(t.bus_view() =~= Map::<Seq<char>, EndpointView>::empty());
        assert(t.ports_view() =~= Map::<u32, PortDeviceView>::empty());
        Some(t)
    }

    /// The kind of port and how many of them, from the configured numbers of
    /// root ports and switch ports.
    pub fn get_pcie_port(&self) -> (r: Option<(PCIePort, u32)>)
        ensures
            r == pcie_port_choice(self.pcie_root_ports, self.pcie_switch_ports),
    {
        if self.pcie_root_ports > 0 && self.pcie_switch_ports > 0 {
            None
        } else if self.pcie_root_ports > 0 {
            Some((PCIePort::RootPort, self.pcie_root_ports))
        } else if self.pcie_switch_ports > 0 {
            Some((PCIePort::SwitchPort, self.pcie_switch_ports))
        } else {
            None
        }
    }

    /// Adds root port `id` on the root bus.
    pub fn add_pcie_root_port(&mut self, id: u32) -> (r: Result<(), TopologyError>)
        ensures
            old(self).ports_view().contains_key(id) ==> r == Err::<(), TopologyError>(
                TopologyError::RootPortExists(id),
            ) && *final(self) == *old(self),
            !old(self).ports_view().contains_key(id) ==> r is Ok && final(self).same_except_ports(
                old(self),
            ) && final(self).ports_view() == old(self).ports_view().insert(id, new_root_port(id)),
    {
        if self.pcie_port_devices.contains_key(&id) {
            return Err(TopologyError::RootPortExists(id));
        }
        let root_port_id = make_port_name(PCIePortBusPrefix::RootPort, id);
        proof {
            reveal_strlit("pcie.0");
        }
        let dev = TopologyPortDevice {
            id: root_port_id,
            bus: String::from_str(DEFAULT_PCIE_ROOT_BUS),
            connected_switch: None,
        };
        assert(dev.bus@ =~= root_bus_name());
        assert(dev@ == new_root_port(id));
        let ghost old_pv = self.ports_view();
        self.pcie_port_devices.insert(id, dev);
        assert(self.ports_view() =~= old_pv.insert(id, new_root_port(id)));
        Ok(())
    }

    /// Connects switch `switch_id` to root port `root_port_id`.
    pub fn add_switch_to_root_port(&mut self, root_port_id: u32, switch_id: u32) -> (r: Result<
        (),
        TopologyError,
    >)
        ensures
            !old(self).ports_view().contains_key(root_port_id) ==> r == Err::<(), TopologyError>(
                TopologyError::RootPortNotFound(root_port_id),
            ) && *final(self) == *old(self),
            has_switch(old(self).ports_view(), root_port_id) ==> r == Err::<(), TopologyError>(
                TopologyError::SwitchAlreadyConnected(root_port_id),
            ) && *final(self) == *old(self),
            old(self).ports_view().contains_key(root_port_id) && !has_switch(
                old(self).ports_view(),
                root_port_id,
            ) ==> r is Ok && final(self).same_except_ports(old(self))
                && final(self).ports_view() == old(self).ports_view().insert(
                root_port_id,
                PortDeviceView {
                    id: old(self).ports_view()[root_port_id].id,
                    bus: old(self).ports_view()[root_port_id].bus,
                    switch: Some(
                        SwitchView {
                            id: switch_id,
                            bus: port_name(PCIePortBusPrefix::RootPort, root_port_id as nat),
                            ports: Map::empty(),
                        },
                    ),
                },
            ),
    {
        match self.pcie_port_devices.get(&root_port_id) {
            None => {
                return Err(TopologyError::RootPortNotFound(root_port_id));
            },
            Some(dev) => {
                if dev.connected_switch.is_some() {
                    return Err(TopologyError::SwitchAlreadyConnected(root_port_id));
                }
            },
        }
        let rp_bus = make_port_name(PCIePortBusPrefix::RootPort, root_port_id);
        let ghost old_pv = self.ports_view();
        match self.pcie_port_devices.remove(&root_port_id) {
            Some(dev) => {
                let ports: HashMap<u32, PciePort> = HashMap::new();
                let sw = PcieSwitch { id: switch_id, bus: rp_bus, switch_ports: ports };
                assert(sw@.ports =~= Map::<u32, PortView>::empty());
                let new_dev = TopologyPortDevice {
                    id: dev.id,
                    bus: dev.bus,
                    connected_switch: Some(sw),
                };
                self.pcie_port_devices.insert(root_port_id, new_dev);
                assert(self.ports_view() =~= old_pv.insert(root_port_id, new_dev@));
                Ok(())
            },
            None => {
                proof {
                    assert(false);
                }
                Err(TopologyError::RootPortNotFound(root_port_id))
            },
        }
    }

    /// Adds port `switch_port_id` on bus `swup_bus` to the switch of root port
    /// `root_port_id`, with one downstream device named `swdp_name`.
    pub fn add_switch_port_to_switch(
        &mut self,
        swup_bus: &str,
        root_port_id: u32,
        switch_port_id: u32,
        swdp_name: String,
    ) -> (r: Result<(), TopologyError>)
        ensures
            !old(self).ports_view().contains_key(root_port_id) ==> r == Err::<(), TopologyError>(
                TopologyError::RootPortNotFound(root_port_id),
            ) && *final(self) == *old(self),
            old(self).ports_view().contains_key(root_port_id) && !has_switch(
                old(self).ports_view(),
                root_port_id,
            ) ==> r == Err::<(), TopologyError>(TopologyError::NoConnectedSwitch(root_port_id))
                && *final(self) == *old(self),
            has_switch(old(self).ports_view(), root_port_id) ==> {
                let d = old(self).ports_view()[root_port_id];
                let sw = d.switch->Some_0;
                &&& sw.ports.contains_key(switch_port_id) ==> r == Err::<(), TopologyError>(
                    TopologyError::SwitchPortExists { port: switch_port_id, switch: sw.id },
                ) && *final(self) == *old(self)
                &&& !sw.ports.contains_key(switch_port_id) ==> r is Ok
                    && final(self).same_except_ports(old(self))
                    && final(self).ports_view() == old(self).ports_view().insert(
                    root_port_id,
                    PortDeviceView {
                        id: d.id,
                        bus: d.bus,
                        switch: Some(
                            SwitchView {
                                id: sw.id,
                                bus: sw.bus,
                                ports: sw.ports.insert(
                                    switch_port_id,
                                    PortView {
                                        id: switch_port_id,
                                        bus: swup_bus@,
                                        port_type: PCIePort::SwitchPort,
                                        devices: seq![swdp_name@],
                                    },
                                ),
                            },
                        ),
                    },
                )
            },
    {
        match self.pcie_port_devices.get(&root_port_id) {
            None => {
                return Err(TopologyError::RootPortNotFound(root_port_id));
            },
            Some(dev) => match &dev.connected_switch {
                None => {
                    return Err(TopologyError::NoConnectedSwitch(root_port_id));
                },
                Some(sw) => {
                    if sw.switch_ports.contains_key(&switch_port_id) {
                        return Err(
                            TopologyError::SwitchPortExists { port: switch_port_id, switch: sw.id },
                        );
                    }
                },
            },
        }
        let ghost old_pv = self.ports_view();
        let mut devices: Vec<String> = Vec::new();
        devices.push(swdp_name);
        let port = PciePort {
            id: switch_port_id,
            bus: String::from_str(swup_bus),
            port_type: PCIePort::SwitchPort,
            connected_swdp_devices: devices,
        };
        assert(port@.devices =~= seq![swdp_name@]);
        match self.pcie_port_devices.remove(&root_port_id) {
            Some(dev) => {
                let TopologyPortDevice { id, bus, connected_switch } = dev;
                match connected_switch {
                    Some(sw) => {
                        let PcieSwitch { id: sw_id, bus: sw_bus, switch_ports } = sw;
                        let mut switch_ports = switch_ports;
                        let ghost old_ports = switch_ports@;
                        switch_ports.insert(switch_port_id, port);
                        let new_sw = PcieSwitch { id: sw_id, bus: sw_bus, switch_ports };
                        assert(new_sw@.ports =~= old_pv[root_port_id].switch->Some_0.ports.insert(
                            switch_port_id,
                            port@,
                        ));
                        let new_dev = TopologyPortDevice {
                            id,
                            bus,
                            connected_switch: Some(new_sw),
                        };
                        self.pcie_port_devices.insert(root_port_id, new_dev);
                        assert(self.ports_view() =~= old_pv.insert(root_port_id, new_dev@));
                        Ok(())
                    },
                    None => {
                        proof {
                            assert(false);
                        }
                        Err(TopologyError::NoConnectedSwitch(root_port_id))
                    },
                }
            },
            None => {
                proof {
                    assert(false);
                }
                Err(TopologyError::RootPortNotFound(root_port_id))
            },
        }
    }
}


/// The key on the root bus of slot `s`: the textual form of the path `[s]`.
pub open spec fn slot_key(s: nat) -> Seq<char> {
    path_string(seq![s as u8])
}

/// Whether slot `s` of the root bus is free.
pub open spec fn slot_free(m: Map<Seq<char>, EndpointView>, s: nat) -> bool {
    !m.contains_key(slot_key(s))
}

/// The first free slot of the root bus, from `from` on.
pub open spec fn first_free_slot(m: Map<Seq<char>, EndpointView>, from: nat) -> Option<nat>
    decreases 32 - from,
{
    if from >= 32 {
        None
    } else if slot_free(m, from) {
        Some(from)
    } else {
        first_free_slot(m, from + 1)
    }
}

/// Whether some device on the root bus has id `id`.
pub open spec fn has_device(m: Map<Seq<char>, EndpointView>, id: Seq<char>) -> bool {
    exists|k: Seq<char>| #[trigger] m.contains_key(k) && m[k].device_id == id
}

/// The root bus without the devices whose id is `id`.
pub open spec fn without_device(m: Map<Seq<char>, EndpointView>, id: Seq<char>) -> Map<
    Seq<char>,
    EndpointView,
> {
    Map::new(|k: Seq<char>| m.contains_key(k) && m[k].device_id != id, |k: Seq<char>| m[k])
}

/// An endpoint with its PCI path replaced.
pub open spec fn with_path(ep: EndpointView, p: Seq<u8>) -> EndpointView {
    EndpointView {
        device_id: ep.device_id,
        pci_path: p,
        root_port: ep.root_port,
        device_type: ep.device_type,
    }
}

/// Registering endpoint `ep` on root bus `m`: a new device gets the first
/// free slot; a known device keeps its place if its path is taken, and is
/// otherwise moved to the key of its path. Gives the new root bus, the
/// endpoint as updated, and the path (or the error).
pub open spec fn insert_or_update(m: Map<Seq<char>, EndpointView>, ep: EndpointView) -> (
    Map<Seq<char>, EndpointView>,
    EndpointView,
    Result<Seq<u8>, TopologyError>,
) {
    if !has_device(m, ep.device_id) {
        match first_free_slot(m, 0) {
            None => (m, ep, Err(TopologyError::PciPathAllocationFailed)),
            Some(s) => {
                let ep2 = with_path(ep, seq![s as u8]);
                (m.insert(slot_key(s), ep2), ep2, Ok(seq![s as u8]))
            },
        }
    } else {
        let key = path_string(ep.pci_path);
        if m.contains_key(key) {
            (m, ep, Ok(ep.pci_path))
        } else {
            (without_device(m, ep.device_id).insert(key, ep), ep, Ok(ep.pci_path))
        }
    }
}

/// The abstract value of a path or an error.
pub open spec fn path_result(r: Result<PciPath, TopologyError>) -> Result<Seq<u8>, TopologyError> {
    match r {
        Ok(p) => Ok(p@),
        Err(e) => Err(e),
    }
}

/// The endpoint that `do_add_pcie_endpoint` registers.
pub open spec fn new_pcie_endpoint(device_id: Seq<char>, allocated: Option<Seq<u8>>) -> EndpointView {
    EndpointView {
        device_id,
        pci_path: match allocated {
            Some(p) => p,
            None => Seq::empty(),
        },
        root_port: None,
        device_type: seq!['P', 'C', 'I', 'e'],
    }
}

/// The keys of the devices on root bus `devs` whose id is `device_id`, in
/// the order in which the bus stores them.
fn device_keys(devs: &StringMap<PCIeEndpoint>, device_id: &str) -> (r: Vec<String>)
    requires
        devs.wf(),
    ensures
        forall|q: Seq<char>|
            #[trigger] views_of(r@).contains(q) <==> devs@.contains_key(q) && devs@[q].device_id@
                == device_id@,
{
    let id = String::from_str(device_id);
    let n = devs.len();
    proof {
        devs.lemma_view();
    }
    let ghost ks = devs.key_seq();
    let mut found: Vec<String> = Vec::new();
    for i in 0..n
        invariant
            devs.wf(),
            ks == devs.key_seq(),
            n == ks.len(),
            id@ == device_id@,
            forall|j: int|
                0 <= j < i && devs@[#[trigger] ks[j]].device_id@ == id@ ==> views_of(
                    found@,
                ).contains(ks[j]),
            forall|q: Seq<char>|
                #[trigger] views_of(found@).contains(q) ==> devs@.contains_key(q) && devs@[q].device_id@
                    == id@,
    {
        let v = devs.value_at(i);
        proof {
            devs.lemma_entry(i as int);
        }
        if v.device_id == id {
            let k = devs.key_at(i).clone();
            let ghost before = views_of(found@);
            found.push(k);
            assert(views_of(found@) =~= before.push(ks[i as int]));
            assert forall|x: Seq<char>| before.contains(x) implies #[trigger] views_of(
                found@,
            ).contains(x) by {
                let w = choose|w: int| 0 <= w < before.len() && before[w] == x;
                assert(views_of(found@)[w] == x);
            }
            assert(views_of(found@)[before.len() as int] == ks[i as int]);
            assert forall|q: Seq<char>| #[trigger] views_of(found@).contains(q) implies devs@.contains_key(q)
                && devs@[q].device_id@ == id@ by {
                if q != ks[i as int] {
                    let w = choose|w: int| 0 <= w < views_of(found@).len() && views_of(found@)[w] == q;
                    assert(before[w] == q);
                    assert(before.contains(q));
                }
            }
        }
    }
    assert forall|q: Seq<char>|
        devs@.contains_key(q) && devs@[q].device_id@ == device_id@ implies #[trigger] views_of(
        found@,
    ).contains(q) by {
        let j = choose|j: int| 0 <= j < ks.len() && ks[j] == q;
        assert(devs@.contains_key(ks[j]) && devs@[ks[j]] == devs.val_seq()[j]);
    }
    found
}

impl PCIeTopology {
    /// Attaches `ep` to the first free slot of the root bus, recording the
    /// slot's path in `ep`; none when all 32 slots are taken.
    pub fn insert_device(&mut self, ep: &mut PCIeEndpoint) -> (r: Option<PciPath>)
        requires
            old(self).wf(),
        ensures
            final(self).wf(),
            final(self).same_except_bus(old(self)),
            match first_free_slot(old(self).bus_view(), 0) {
                None => r is None && *final(self) == *old(self) && *final(ep) == *old(ep),
                Some(s) => r matches Some(p) && p@ == seq![s as u8] && final(ep)@ == with_path(
                    old(ep)@,
                    seq![s as u8],
                ) && final(self).bus_view() == old(self).bus_view().insert(slot_key(s), final(ep)@),
            },
    {
        let mut i: u32 = 0;
        while i < PCIE_ROOT_BUS_SLOTS_CAPACITY
            invariant
                self.wf(),
                i <= 32,
                *self == *old(self),
                *ep == *old(ep),
                first_free_slot(self.bus_view(), 0) == first_free_slot(self.bus_view(), i as nat),
            decreases 32 - i,
        {
            let slot: u8 = i as u8;
            let key = PciPath::from_slot(slot).convert_to_string();
            if !self.root_complex.root_bus_devices.contains_key(key.as_str()) {
                assert(slot_free(self.bus_view(), i as nat));
                ep.pci_path = PciPath::from_slot(slot);
                let ghost old_raw = self.root_complex.root_bus_devices@;
                let stored = ep.clone();
                self.root_complex.root_bus_devices.insert(key, stored);
                assert(self.bus_view() =~= old_raw.map_values(|e: PCIeEndpoint| e@).insert(
                    slot_key(i as nat),
                    ep@,
                ));
                return Some(PciPath::from_slot(slot));
            }
            assert(!slot_free(self.bus_view(), i as nat));
            i = i + 1;
        }
        None
    }

    /// Whether a device with id `device_id` is on the root bus.
    pub fn find_device(&mut self, device_id: &str) -> (r: bool)
        requires
            old(self).wf(),
        ensures
            *final(self) == *old(self),
            r == has_device(old(self).bus_view(), device_id@),
    {
        let keys = device_keys(&self.root_complex.root_bus_devices, device_id);
        let r = keys.len() > 0;
        proof {
            if r {
                let k = views_of(keys@)[0];
                assert(views_of(keys@).contains(k));
                assert(self.bus_view().contains_key(k));
            } else {
                assert forall|k: Seq<char>| #[trigger]
                    self.bus_view().contains_key(k) implies self.bus_view()[k].device_id
                    != device_id@ by {
                    if self.bus_view()[k].device_id == device_id@ {
                        assert(views_of(keys@).contains(k));
                    }
                }
            }
        }
        r
    }

    /// Removes every device with id `device_id` from the root bus, giving the
    /// key of one of them; none when there was no such device.
    pub fn remove_device(&mut self, device_id: &str) -> (r: Option<String>)
        requires
            old(self).wf(),
        ensures
            final(self).wf(),
            final(self).same_except_bus(old(self)),
            final(self).bus_view() == without_device(old(self).bus_view(), device_id@),
            r is None <==> !has_device(old(self).bus_view(), device_id@),
            r matches Some(k) ==> old(self).bus_view().contains_key(k@) && old(self).bus_view()[k@].device_id == device_id@,
    {
        let ghost m = self.bus_view();
        let ghost raw = self.root_complex.root_bus_devices@;
        let found = device_keys(&self.root_complex.root_bus_devices, device_id);
        let ghost fv = views_of(found@);
        let count = found.len();
        for j in 0..count
            invariant
                self.wf(),
                self.same_except_bus(old(self)),
                count == found@.len(),
                fv == views_of(found@),
                self.root_complex.root_bus_devices@ == raw.remove_keys(fv.take(j as int).to_set()),
        {
            let _ = self.root_complex.root_bus_devices.remove(found[j].as_str());
            assert(fv.take(j + 1) =~= fv.take(j as int).push(fv[j as int]));
            proof {
                fv.take(j as int).lemma_push_to_set_commute(fv[j as int]);
            }
            assert(self.root_complex.root_bus_devices@ =~= raw.remove_keys(
                fv.take(j + 1).to_set(),
            ));
        }
        assert(fv.take(count as int) =~= fv);
        assert(self.bus_view() =~= without_device(m, device_id@));
        if count == 0 {
            assert forall|k: Seq<char>| #[trigger] m.contains_key(k) implies m[k].device_id
                != device_id@ by {
                if m[k].device_id == device_id@ {
                    assert(fv.contains(k));
                }
            }
            None
        } else {
            let last = found[count - 1].clone();
            assert(fv.contains(fv[count - 1]));
            Some(last)
        }
    }

    /// Moves `ep` to the key of its PCI path, unless that key is taken; gives
    /// the path when the device was moved.
    pub fn update_device(&mut self, ep: &PCIeEndpoint) -> (r: Option<PciPath>)
        requires
            old(self).wf(),
        ensures
            final(self).wf(),
            final(self).same_except_bus(old(self)),
            old(self).bus_view().contains_key(path_string(ep.pci_path@)) ==> r is None && *final(self) == *old(self),
            !old(self).bus_view().contains_key(path_string(ep.pci_path@)) ==> (r matches Some(p)
                && p@ == ep.pci_path@ && final(self).bus_view() == without_device(
                old(self).bus_view(),
                ep.device_id@,
            ).insert(path_string(ep.pci_path@), ep@)),
    {
        let pci_addr = ep.pci_path.clone();
        let key = pci_addr.convert_to_string();
        if self.root_complex.root_bus_devices.contains_key(key.as_str()) {
            return None;
        }
        let ghost m = self.bus_view();
        let _ = self.remove_device(ep.device_id.as_str());
        let ghost mid_raw = self.root_complex.root_bus_devices@;
        let stored = ep.clone();
        self.root_complex.root_bus_devices.insert(key, stored);
        assert(self.bus_view() =~= without_device(m, ep.device_id@).insert(
            path_string(ep.pci_path@),
            ep@,
        ));
        Some(pci_addr)
    }

    /// Registers `pciep`: a new device is attached to a free slot, a known
    /// one is moved to its path if it changed. Gives the device's path.
    pub fn do_insert_or_update(&mut self, pciep: &mut PCIeEndpoint) -> (r: Result<
        PciPath,
        TopologyError,
    >)
        requires
            old(self).wf(),
        ensures
            final(self).wf(),
            final(self).same_except_bus(old(self)),
            final(self).bus_view() == insert_or_update(old(self).bus_view(), old(pciep)@).0,
            final(pciep)@ == insert_or_update(old(self).bus_view(), old(pciep)@).1,
            path_result(r) == insert_or_update(old(self).bus_view(), old(pciep)@).2,
            r matches Ok(p) ==> final(pciep)@.pci_path == p@ && final(self).bus_view().contains_key(
                path_string(p@),
            ),
            !has_device(old(self).bus_view(), old(pciep)@.device_id) ==> (r matches Ok(p) ==> (
            !old(self).bus_view().contains_key(path_string(p@)) && final(self).bus_view()[path_string(
                p@,
            )] == final(pciep)@)),
    {
        proof {
            lemma_register_path(self.bus_view(), pciep@);
        }
        let present = self.find_device(pciep.device_id.as_str());
        if !present {
            match self.insert_device(pciep) {
                Some(pci_addr) => Ok(pci_addr),
                None => Err(TopologyError::PciPathAllocationFailed),
            }
        } else {
            match self.update_device(pciep) {
                Some(pci_addr) => Ok(pci_addr),
                None => Ok(pciep.pci_path.clone()),
            }
        }
    }
}

/// Registers a PCIe device with id `device_id` in `topology`, at the path
/// already allocated to it if there is one.
pub fn do_add_pcie_endpoint(
    device_id: String,
    allocated_pcipath: Option<PciPath>,
    topology: &mut PCIeTopology,
) -> (r: Result<PciPath, TopologyError>)
    requires
        old(topology).wf(),
    ensures
        ({
            let ep = new_pcie_endpoint(
                device_id@,
                match allocated_pcipath {
                    Some(p) => Some(p@),
                    None => None,
                },
            );
            let out = insert_or_update(old(topology).bus_view(), ep);
            &&& final(topology).wf()
            &&& final(topology).same_except_bus(old(topology))
            &&& final(topology).bus_view() == out.0
            &&& path_result(r) == out.2
            &&& r matches Ok(p) ==> final(topology).bus_view().contains_key(path_string(p@))
            &&& !has_device(old(topology).bus_view(), device_id@) ==> (r matches Ok(p) ==> (
            !old(topology).bus_view().contains_key(path_string(p@)) && final(topology).bus_view()[path_string(
                p@,
            )].device_id == device_id@))
        }),
{
    proof {
        reveal_strlit("PCIe");
    }
    let mut pcie_endpoint = PCIeEndpoint {
        device_type: String::from_str("PCIe"),
        device_id,
        pci_path: PciPath::default(),
        root_port: None,
    };
    if let Some(pci_path) = allocated_pcipath {
        pcie_endpoint.pci_path = pci_path;
    }
    assert(pcie_endpoint.device_type@ =~= seq!['P', 'C', 'I', 'e']);
    topology.do_insert_or_update(&mut pcie_endpoint)
}


/// The root ports `0..k` added to `m` where absent.
pub open spec fn with_root_ports(m: Map<u32, PortDeviceView>, k: int) -> Map<u32, PortDeviceView> {
    Map::new(
        |i: u32| m.contains_key(i) || i < k,
        |i: u32|
            if m.contains_key(i) {
                m[i]
            } else {
                new_root_port(i)
            },
    )
}

/// A downstream switch port `j` on bus `bus`, leading to device `swdp{dev}`.
pub open spec fn downstream_port(j: u32, bus: Seq<char>, dev: int) -> PortView {
    PortView {
        id: j,
        bus,
        port_type: PCIePort::SwitchPort,
        devices: seq![port_name(PCIePortBusPrefix::SwitchDownstreamPort, dev as nat)],
    }
}

/// Switch ports `1..=count` on bus `bus`; port `j` leads to device
/// `swdp{base + j}`.
pub open spec fn downstream_ports(count: int, bus: Seq<char>, base: int) -> Map<u32, PortView> {
    Map::new(|j: u32| 1 <= j <= count, |j: u32| downstream_port(j, bus, base + j))
}

/// The switch that the strategies attach to root port `i`: switch `100 + i`
/// on bus `rp{i}`, whose `count` ports sit on bus `swup{100 + i}`.
pub open spec fn strategy_switch(i: u32, count: int, base: int) -> SwitchView {
    SwitchView {
        id: (100 + i) as u32,
        bus: port_name(PCIePortBusPrefix::RootPort, i as nat),
        ports: downstream_ports(
            count,
            port_name(PCIePortBusPrefix::SwitchUpstreamPort, (100 + i) as nat),
            base,
        ),
    }
}

/// Root port `i` of `m` (created if absent) with switch `sw` connected.
pub open spec fn attached(m: Map<u32, PortDeviceView>, i: u32, sw: SwitchView) -> PortDeviceView {
    PortDeviceView {
        id: if m.contains_key(i) {
            m[i].id
        } else {
            port_name(PCIePortBusPrefix::RootPort, i as nat)
        },
        bus: if m.contains_key(i) {
            m[i].bus
        } else {
            root_bus_name()
        },
        switch: Some(sw),
    }
}

/// How many root ports a strategy uses.
pub open spec fn strategy_roots(num_switches: u32, num_switch_ports: u32, strategy: Strategy) -> int {
    match strategy {
        Strategy::SingleRootPort => 1,
        Strategy::MultipleRootPorts => num_switch_ports as int,
        Strategy::Hybrid => num_switches as int,
    }
}

/// The switch that a strategy attaches to root port `i`.
pub open spec fn strategy_switch_for(
    num_switches: u32,
    num_switch_ports: u32,
    strategy: Strategy,
    i: u32,
) -> SwitchView {
    match strategy {
        Strategy::SingleRootPort => strategy_switch(i, num_switch_ports as int, 0),
        Strategy::MultipleRootPorts => strategy_switch(i, 1, i - 1),
        Strategy::Hybrid => {
            let per_switch = num_switch_ports / num_switches;
            strategy_switch(i, per_switch as int, (i - 1) * per_switch)
        },
    }
}

/// The root ports after a strategy has attached its switches to root ports
/// `1..=last`.
pub open spec fn strategy_layout(
    m: Map<u32, PortDeviceView>,
    last: int,
    num_switches: u32,
    num_switch_ports: u32,
    strategy: Strategy,
) -> Map<u32, PortDeviceView> {
    Map::new(
        |i: u32| m.contains_key(i) || 1 <= i <= last,
        |i: u32|
            if 1 <= i <= last {
                attached(m, i, strategy_switch_for(num_switches, num_switch_ports, strategy, i))
            } else {
                m[i]
            },
    )
}

/// Whether a strategy is refused for its numbers: the hybrid layout gives
/// each switch at least one downstream port, so it needs at least as many
/// switch ports as switches.
pub open spec fn strategy_refused(num_switches: u32, num_switch_ports: u32, strategy: Strategy) -> bool {
    strategy == Strategy::Hybrid && num_switch_ports < num_switches
}

/// Whether a strategy can run on root ports `m` without an arithmetic
/// overflow of a switch id: either it uses few enough root ports, or it
/// stops early at a root port that already has a switch.
pub open spec fn strategy_in_range(
    m: Map<u32, PortDeviceView>,
    num_switches: u32,
    num_switch_ports: u32,
    strategy: Strategy,
) -> bool {
    ||| strategy_roots(num_switches, num_switch_ports, strategy) <= u32::MAX - 100
    ||| exists|k: u32| 1 <= k <= u32::MAX - 100 && #[trigger] has_switch(m, k)
}

impl PCIeTopology {
    /// Adds root ports `0..num_root_ports` on the root bus, stopping at the
    /// first one that is already present.
    pub fn add_root_ports_on_bus(&mut self, num_root_ports: u32) -> (r: Result<(), TopologyError>)
        ensures
            final(self).same_except_ports(old(self)),
            r is Ok <==> forall|i: u32| i < num_root_ports ==> !old(self).ports_view().contains_key(i),
            r is Ok ==> final(self).ports_view() == with_root_ports(
                old(self).ports_view(),
                num_root_ports as int,
            ),
            r is Err ==> exists|k: u32|
                #![trigger old(self).ports_view().contains_key(k)]
                k < num_root_ports && old(self).ports_view().contains_key(k) && (forall|i: u32|
                    i < k ==> !old(self).ports_view().contains_key(i)) && r == Err::<
                    (),
                    TopologyError,
                >(TopologyError::RootPortExists(k)) && final(self).ports_view() == with_root_ports(
                    old(self).ports_view(),
                    k as int,
                ),
    {
        let ghost old_pv = self.ports_view();
        assert(with_root_ports(old_pv, 0) =~= old_pv);
        for index in 0..num_root_ports
            invariant
                self.same_except_ports(old(self)),
                old_pv == old(self).ports_view(),
                self.ports_view() == with_root_ports(old_pv, index as int),
                forall|i: u32| i < index ==> !old_pv.contains_key(i),
        {
            let ghost before = self.ports_view();
            match self.add_pcie_root_port(index) {
                Err(e) => {
                    assert(old_pv.contains_key(index));
                    return Err(e);
                },
                Ok(()) => {},
            }
            assert(self.ports_view() =~= with_root_ports(old_pv, index + 1));
        }
        Ok(())
    }

    /// Connects switch `100 + root_port_id` to root port `root_port_id`
    /// (created if absent) and gives it `count` ports; port `j` leads to
    /// device `swdp{base + j}`.
    fn attach_switch(&mut self, root_port_id: u32, count: u32, base: u32) -> (r: Result<
        (),
        TopologyError,
    >)
        requires
            root_port_id <= u32::MAX - 100,
            base + count <= u32::MAX,
        ensures
            final(self).same_except_ports(old(self)),
            has_switch(old(self).ports_view(), root_port_id) ==> r == Err::<(), TopologyError>(
                TopologyError::SwitchAlreadyConnected(root_port_id),
            ) && *final(self) == *old(self),
            !has_switch(old(self).ports_view(), root_port_id) ==> r is Ok && final(self).ports_view() == old(self).ports_view().insert(
                root_port_id,
                attached(
                    old(self).ports_view(),
                    root_port_id,
                    strategy_switch(root_port_id, count as int, base as int),
                ),
            ),
    {
        let ghost old_pv = self.ports_view();
        if !self.pcie_port_devices.contains_key(&root_port_id) {
            match self.add_pcie_root_port(root_port_id) {
                Err(e) => {
                    proof {
                        assert(false);
                    }
                    return Err(e);
                },
                Ok(()) => {},
            }
        }
        let switch_id = 100 + root_port_id;
        match self.add_switch_to_root_port(root_port_id, switch_id) {
            Err(e) => {
                return Err(e);
            },
            Ok(()) => {},
        }
        let ghost mid_pv = self.ports_view();
        let ghost d = attached(old_pv, root_port_id, strategy_switch(root_port_id, 0, base as int));
        assert(d.switch->Some_0.ports =~= Map::<u32, PortView>::empty());
        assert(mid_pv =~= old_pv.insert(root_port_id, d));
        let swup_bus = make_port_name(PCIePortBusPrefix::SwitchUpstreamPort, switch_id);
        let mut j: u64 = 1;
        while j <= count as u64
            invariant
                1 <= j <= count + 1,
                base + count <= u32::MAX,
                root_port_id <= u32::MAX - 100,
                switch_id == 100 + root_port_id,
                swup_bus@ == port_name(PCIePortBusPrefix::SwitchUpstreamPort, switch_id as nat),
                self.same_except_ports(old(self)),
                self.ports_view() == old_pv.insert(
                    root_port_id,
                    attached(
                        old_pv,
                        root_port_id,
                        strategy_switch(root_port_id, j - 1, base as int),
                    ),
                ),
            decreases count + 1 - j,
        {
            let dev_no: u32 = (base as u64 + j) as u32;
            let name = make_port_name(PCIePortBusPrefix::SwitchDownstreamPort, dev_no);
            let ghost sw_before = strategy_switch(root_port_id, j - 1, base as int);
            assert(has_switch(self.ports_view(), root_port_id));
            assert(!sw_before.ports.contains_key(j as u32));
            match self.add_switch_port_to_switch(swup_bus.as_str(), root_port_id, j as u32, name) {
                Err(e) => {
                    proof {
                        assert(false);
                    }
                    return Err(e);
                },
                Ok(()) => {},
            }
            assert(sw_before.ports.insert(j as u32, downstream_port(j as u32, swup_bus@, dev_no as int))
                =~= strategy_switch(root_port_id, j as int, base as int).ports);
            j = j + 1;
        }
        Ok(())
    }

    /// Attaches the switches of a strategy to root ports `1..=roots`,
    /// stopping at the first root port that already has a switch.
    fn attach_switches(
        &mut self,
        num_switches: u32,
        num_switch_ports: u32,
        strategy: Strategy,
    ) -> (r: Result<(), TopologyError>)
        requires
            strategy == Strategy::Hybrid ==> num_switches > 0,
            strategy_in_range(old(self).ports_view(), num_switches, num_switch_ports, strategy),
        ensures
            final(self).same_except_ports(old(self)),
            ({
                let old_pv = old(self).ports_view();
                let roots = strategy_roots(num_switches, num_switch_ports, strategy);
                &&& r is Ok <==> forall|i: u32| 1 <= i <= roots ==> !has_switch(old_pv, i)
                &&& r is Ok ==> final(self).ports_view() == strategy_layout(
                    old_pv,
                    roots,
                    num_switches,
                    num_switch_ports,
                    strategy,
                )
                &&& r is Err ==> exists|k: u32|
                    1 <= k <= roots && #[trigger] has_switch(old_pv, k) && (forall|i: u32|
                        1 <= i < k ==> !has_switch(old_pv, i)) && r == Err::<(), TopologyError>(
                        TopologyError::SwitchAlreadyConnected(k),
                    ) && final(self).ports_view() == strategy_layout(
                        old_pv,
                        k - 1,
                        num_switches,
                        num_switch_ports,
                        strategy,
                    )
            }),
    {
        let ghost old_pv = self.ports_view();
        let roots: u32 = match strategy {
            Strategy::SingleRootPort => 1,
            Strategy::MultipleRootPorts => num_switch_ports,
            Strategy::Hybrid => num_switches,
        };
        let per_switch: u32 = match strategy {
            Strategy::Hybrid => num_switch_ports / num_switches,
            _ => 0,
        };
        assert(strategy_layout(old_pv, 0, num_switches, num_switch_ports, strategy) =~= old_pv);
        let mut i: u64 = 1;
        while i <= roots as u64
            invariant
                1 <= i <= roots + 1,
                roots == strategy_roots(num_switches, num_switch_ports, strategy),
                strategy == Strategy::Hybrid ==> num_switches > 0 && per_switch == num_switch_ports
                    / num_switches,
                strategy_in_range(old_pv, num_switches, num_switch_ports, strategy),
                old_pv == old(self).ports_view(),
                self.same_except_ports(old(self)),
                self.ports_view() == strategy_layout(
                    old_pv,
                    i - 1,
                    num_switches,
                    num_switch_ports,
                    strategy,
                ),
                forall|k: u32| 1 <= k < i ==> !has_switch(old_pv, k),
            decreases roots + 1 - i,
        {
            let rp: u32 = i as u32;
            assert(rp <= u32::MAX - 100) by {
                if rp > u32::MAX - 100 {
                    let k = choose|k: u32| 1 <= k <= u32::MAX - 100 && #[trigger] has_switch(old_pv, k);
                    assert(k < i);
                }
            }
            assert(has_switch(self.ports_view(), rp) == has_switch(old_pv, rp));
            let ghost cur = self.ports_view();
            let res = match strategy {
                Strategy::SingleRootPort => self.attach_switch(rp, num_switch_ports, 0),
                Strategy::MultipleRootPorts => self.attach_switch(rp, 1, rp - 1),
                Strategy::Hybrid => {
                    assert((rp - 1) * per_switch + per_switch <= num_switch_ports) by (nonlinear_arith)
                        requires
                            1 <= rp <= num_switches,
                            per_switch == num_switch_ports / num_switches,
                            num_switches > 0,
                    ;
                    self.attach_switch(rp, per_switch, (rp - 1) * per_switch)
                },
            };
            match res {
                Err(e) => {
                    assert(cur =~= strategy_layout(
                        old_pv,
                        rp - 1,
                        num_switches,
                        num_switch_ports,
                        strategy,
                    ));
                    return Err(e);
                },
                Ok(()) => {},
            }
            assert(attached(cur, rp, strategy_switch_for(num_switches, num_switch_ports, strategy, rp))
                == attached(old_pv, rp, strategy_switch_for(num_switches, num_switch_ports, strategy, rp)));
            assert(self.ports_view() =~= strategy_layout(
                old_pv,
                i as int,
                num_switches,
                num_switch_ports,
                strategy,
            ));
            i = i + 1;
        }
        Ok(())
    }
}

impl PCIeTopology {
    /// Lays out switch ports by `strategy`: attaches to root ports `1..=roots`
    /// (see `strategy_roots`) the switches of `strategy_switch_for`, creating
    /// missing root ports, and stops at the first root port that already has
    /// a switch. A hybrid layout with fewer switch ports than switches is
    /// refused, as each of its switches has at least one downstream port.
    pub fn add_switch_ports_with_strategy(
        &mut self,
        num_switches: u32,
        num_switch_ports: u32,
        strategy: Strategy,
    ) -> (r: Result<(), TopologyError>)
        requires
            strategy == Strategy::Hybrid ==> num_switches > 0,
            strategy_in_range(old(self).ports_view(), num_switches, num_switch_ports, strategy),
        ensures
            final(self).same_except_ports(old(self)),
            strategy_refused(num_switches, num_switch_ports, strategy) ==> r == Err::<
                (),
                TopologyError,
            >(TopologyError::TooFewSwitchPorts { switches: num_switches, ports: num_switch_ports })
                && *final(self) == *old(self),
            !strategy_refused(num_switches, num_switch_ports, strategy) ==> ({
                let old_pv = old(self).ports_view();
                let roots = strategy_roots(num_switches, num_switch_ports, strategy);
                &&& r is Ok <==> forall|i: u32| 1 <= i <= roots ==> !has_switch(old_pv, i)
                &&& r is Ok ==> final(self).ports_view() == strategy_layout(
                    old_pv,
                    roots,
                    num_switches,
                    num_switch_ports,
                    strategy,
                )
                &&& r is Err ==> exists|k: u32|
                    1 <= k <= roots && #[trigger] has_switch(old_pv, k) && (forall|i: u32|
                        1 <= i < k ==> !has_switch(old_pv, i)) && r == Err::<(), TopologyError>(
                        TopologyError::SwitchAlreadyConnected(k),
                    ) && final(self).ports_view() == strategy_layout(
                        old_pv,
                        k - 1,
                        num_switches,
                        num_switch_ports,
                        strategy,
                    )
            }),
            strategy == Strategy::Hybrid && r is Ok ==> forall|i: u32|
                1 <= i <= num_switches ==> #[trigger] final(self).ports_view().contains_key(i)
                    && final(self).ports_view()[i].switch->Some_0.ports.len() >= 1,
            strategy == Strategy::SingleRootPort ==> (r is Ok <==> !has_switch(
                old(self).ports_view(),
                1,
            )) && (r is Ok ==> final(self).ports_view().contains_key(1) && final(self).ports_view()[1].switch == Some(strategy_switch(1, num_switch_ports as int, 0))),
            strategy == Strategy::MultipleRootPorts ==> (r is Ok <==> forall|i: u32|
                1 <= i <= num_switch_ports ==> !has_switch(old(self).ports_view(), i)) && (r is Ok
                ==> forall|i: u32|
                1 <= i <= num_switch_ports ==> #[trigger] final(self).ports_view().contains_key(i)
                    && final(self).ports_view()[i].switch == Some(strategy_switch(i, 1, i - 1))),
            strategy == Strategy::Hybrid ==> (r is Ok <==> num_switch_ports >= num_switches
                && forall|i: u32| 1 <= i <= num_switches ==> !has_switch(old(self).ports_view(), i))
                && (r is Ok ==> forall|i: u32|
                1 <= i <= num_switches ==> #[trigger] final(self).ports_view().contains_key(i)
                    && final(self).ports_view()[i].switch == Some(
                    strategy_switch(
                        i,
                        (num_switch_ports / num_switches) as int,
                        (i - 1) * (num_switch_ports / num_switches),
                    ),
                )),
            r is Ok ==> forall|i: u32|
                !(1 <= i <= strategy_roots(num_switches, num_switch_ports, strategy)) ==> (
                #[trigger] final(self).ports_view().contains_key(i) == old(self).ports_view().contains_key(i) && (
                old(self).ports_view().contains_key(i) ==> final(self).ports_view()[i] == old(
                self).ports_view()[i])),
    {
        proof {
            assert forall|i: u32| 1 <= i <= strategy_roots(num_switches, num_switch_ports, strategy) implies
                #[trigger] strategy_layout(
                    old(self).ports_view(),
                    strategy_roots(num_switches, num_switch_ports, strategy),
                    num_switches,
                    num_switch_ports,
                    strategy,
                ).contains_key(i) && strategy_layout(
                    old(self).ports_view(),
                    strategy_roots(num_switches, num_switch_ports, strategy),
                    num_switches,
                    num_switch_ports,
                    strategy,
                )[i].switch == Some(strategy_switch_for(num_switches, num_switch_ports, strategy, i)) by {
                crate::laws::lemma_strategy_layout_switch(
                    old(self).ports_view(),
                    strategy_roots(num_switches, num_switch_ports, strategy),
                    num_switches,
                    num_switch_ports,
                    strategy,
                    i,
                );
            }
        }
        match strategy {
            Strategy::SingleRootPort => self.add_switch_ports_single_root_port(
                num_switches,
                num_switch_ports,
            ),
            Strategy::MultipleRootPorts => self.add_switch_ports_multiple_root_ports(
                num_switches,
                num_switch_ports,
            ),
            Strategy::Hybrid => self.add_switch_ports_hybrid(num_switches, num_switch_ports),
        }
    }

    /// One root port (`1`) with one switch (`101`) that has all the switch
    /// ports `1..=num_switch_ports`.
    pub fn add_switch_ports_single_root_port(&mut self, num_switches: u32, num_switch_ports: u32) -> (r:
        Result<(), TopologyError>)
        ensures
            final(self).same_except_ports(old(self)),
            has_switch(old(self).ports_view(), 1) ==> r == Err::<(), TopologyError>(
                TopologyError::SwitchAlreadyConnected(1),
            ) && final(self).ports_view() == old(self).ports_view(),
            !has_switch(old(self).ports_view(), 1) ==> r is Ok && final(self).ports_view()
                == strategy_layout(
                old(self).ports_view(),
                1,
                num_switches,
                num_switch_ports,
                Strategy::SingleRootPort,
            ),
            r is Ok ==> final(self).ports_view().contains_key(1) && final(self).ports_view()[1].switch
                == Some(strategy_switch(1, num_switch_ports as int, 0)),
    {
        let r = self.attach_switches(num_switches, num_switch_ports, Strategy::SingleRootPort);
        proof {
            if has_switch(old(self).ports_view(), 1) {
                assert(strategy_layout(
                    old(self).ports_view(),
                    0,
                    num_switches,
                    num_switch_ports,
                    Strategy::SingleRootPort,
                ) =~= old(self).ports_view());
            } else {
                crate::laws::lemma_strategy_layout_switch(
                    old(self).ports_view(),
                    1,
                    num_switches,
                    num_switch_ports,
                    Strategy::SingleRootPort,
                    1,
                );
            }
        }
        r
    }

    /// Root ports `1..=num_switch_ports`, each with its own switch of one
    /// port.
    pub fn add_switch_ports_multiple_root_ports(&mut self, num_switches: u32, num_switch_ports: u32) -> (r:
        Result<(), TopologyError>)
        requires
            strategy_in_range(
                old(self).ports_view(),
                num_switches,
                num_switch_ports,
                Strategy::MultipleRootPorts,
            ),
        ensures
            final(self).same_except_ports(old(self)),
            ({
                let old_pv = old(self).ports_view();
                &&& r is Ok <==> forall|i: u32| 1 <= i <= num_switch_ports ==> !has_switch(old_pv, i)
                &&& r is Ok ==> final(self).ports_view() == strategy_layout(
                    old_pv,
                    num_switch_ports as int,
                    num_switches,
                    num_switch_ports,
                    Strategy::MultipleRootPorts,
                )
                &&& r is Err ==> exists|k: u32|
                    1 <= k <= num_switch_ports && #[trigger] has_switch(old_pv, k) && (forall|i: u32|
                        1 <= i < k ==> !has_switch(old_pv, i)) && r == Err::<(), TopologyError>(
                        TopologyError::SwitchAlreadyConnected(k),
                    ) && final(self).ports_view() == strategy_layout(
                        old_pv,
                        k - 1,
                        num_switches,
                        num_switch_ports,
                        Strategy::MultipleRootPorts,
                    )
            }),
            r is Ok ==> forall|i: u32|
                1 <= i <= num_switch_ports ==> #[trigger] final(self).ports_view().contains_key(i)
                    && final(self).ports_view()[i].switch == Some(strategy_switch(i, 1, i - 1)),
    {
        let r = self.attach_switches(num_switches, num_switch_ports, Strategy::MultipleRootPorts);
        proof {
            if r is Ok {
                assert forall|i: u32| 1 <= i <= num_switch_ports implies #[trigger] final(self).ports_view().contains_key(i)
                    && final(self).ports_view()[i].switch == Some(strategy_switch(i, 1, i - 1)) by {
                    crate::laws::lemma_strategy_layout_switch(
                        old(self).ports_view(),
                        num_switch_ports as int,
                        num_switches,
                        num_switch_ports,
                        Strategy::MultipleRootPorts,
                        i,
                    );
                }
            }
        }
        r
    }

    /// Root ports `1..=num_switches`, each with a switch that has
    /// `num_switch_ports / num_switches` ports, at least one each; refused
    /// when there are fewer switch ports than switches.
    pub fn add_switch_ports_hybrid(&mut self, num_switches: u32, num_switch_ports: u32) -> (r: Result<
        (),
        TopologyError,
    >)
        requires
            num_switches > 0,
            strategy_in_range(
                old(self).ports_view(),
                num_switches,
                num_switch_ports,
                Strategy::Hybrid,
            ),
        ensures
            final(self).same_except_ports(old(self)),
            num_switch_ports < num_switches ==> r == Err::<(), TopologyError>(
                TopologyError::TooFewSwitchPorts { switches: num_switches, ports: num_switch_ports },
            ) && *final(self) == *old(self),
            num_switch_ports >= num_switches ==> ({
                let old_pv = old(self).ports_view();
                &&& r is Ok <==> forall|i: u32| 1 <= i <= num_switches ==> !has_switch(old_pv, i)
                &&& r is Ok ==> final(self).ports_view() == strategy_layout(
                    old_pv,
                    num_switches as int,
                    num_switches,
                    num_switch_ports,
                    Strategy::Hybrid,
                )
                &&& r is Err ==> exists|k: u32|
                    1 <= k <= num_switches && #[trigger] has_switch(old_pv, k) && (forall|i: u32|
                        1 <= i < k ==> !has_switch(old_pv, i)) && r == Err::<(), TopologyError>(
                        TopologyError::SwitchAlreadyConnected(k),
                    ) && final(self).ports_view() == strategy_layout(
                        old_pv,
                        k - 1,
                        num_switches,
                        num_switch_ports,
                        Strategy::Hybrid,
                    )
            }),
            r is Ok ==> forall|i: u32|
                1 <= i <= num_switches ==> #[trigger] final(self).ports_view().contains_key(i)
                    && final(self).ports_view()[i].switch->Some_0.ports.len() >= 1
                    && final(self).ports_view()[i].switch == Some(
                    strategy_switch(
                        i,
                        (num_switch_ports / num_switches) as int,
                        (i - 1) * (num_switch_ports / num_switches),
                    ),
                ),
    {
        if num_switch_ports < num_switches {
            return Err(
                TopologyError::TooFewSwitchPorts { switches: num_switches, ports: num_switch_ports },
            );
        }
        let r = self.attach_switches(num_switches, num_switch_ports, Strategy::Hybrid);
        proof {
            if r is Ok {
                assert(num_switch_ports / num_switches >= 1) by (nonlinear_arith)
                    requires
                        num_switch_ports >= num_switches,
                        num_switches > 0,
                ;
                assert forall|i: u32| 1 <= i <= num_switches implies #[trigger] final(self).ports_view().contains_key(i) && final(self).ports_view()[i].switch->Some_0.ports.len()
                    >= 1 && final(self).ports_view()[i].switch == Some(
                    strategy_switch(
                        i,
                        (num_switch_ports / num_switches) as int,
                        (i - 1) * (num_switch_ports / num_switches),
                    ),
                ) by {
                    crate::laws::lemma_strategy_layout_switch(
                        old(self).ports_view(),
                        num_switches as int,
                        num_switches,
                        num_switch_ports,
                        Strategy::Hybrid,
                        i,
                    );
                }
            }
        }
        r
    }
}

} // verus!
