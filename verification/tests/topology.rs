use std::collections::HashMap;

use kata_devices::pci_path::PciPath;
use kata_devices::topology::{
    do_add_pcie_endpoint, PCIeEndpoint, PCIePort, PCIePortBusPrefix, PCIeTopology, Strategy,
    TopologyConfigInfo, TopologyDeviceInfo, TopologyError, TopologyPortDevice,
};

fn new_pcie_topology(rp_total: u32, sw_total: u32) -> PCIeTopology {
    PCIeTopology {
        pcie_root_ports: rp_total,
        pcie_switch_ports: sw_total,
        pcie_port_devices: HashMap::with_capacity(sw_total as usize),
        ..Default::default()
    }
}

fn create_pcie_topo(rps: u32, swps: u32) -> PCIeTopology {
    PCIeTopology {
        pcie_root_ports: rps,
        pcie_switch_ports: swps,
        ..Default::default()
    }
}

#[test]
fn test_no_port() {
    let pcie_topo = create_pcie_topo(0, 0);
    assert_eq!(pcie_topo.get_pcie_port(), None);
}

#[test]
fn test_root_port_only() {
    let pcie_topo = create_pcie_topo(2, 0);
    assert_eq!(pcie_topo.get_pcie_port(), Some((PCIePort::RootPort, 2)));
}

#[test]
fn test_switch_port_only() {
    let pcie_topo = create_pcie_topo(0, 1);
    assert_eq!(pcie_topo.get_pcie_port(), Some((PCIePort::SwitchPort, 1)));
}

#[test]
fn test_both_ports_invalid() {
    let pcie_topo = create_pcie_topo(1, 1);
    assert_eq!(pcie_topo.get_pcie_port(), None);
}

#[test]
fn test_new_pcie_topology() {
    let topology = new_pcie_topology(2, 3);
    assert_eq!(topology.pcie_root_ports, 2);
    assert_eq!(topology.pcie_switch_ports, 3);
    assert!(topology.pcie_port_devices.is_empty());
}

#[test]
fn test_get_pcie_port() {
    let topology = new_pcie_topology(2, 0);
    assert_eq!(topology.get_pcie_port(), Some((PCIePort::RootPort, 2)));

    let topology = new_pcie_topology(0, 3);
    assert_eq!(topology.get_pcie_port(), Some((PCIePort::SwitchPort, 3)));

    let topology = new_pcie_topology(0, 0);
    assert_eq!(topology.get_pcie_port(), None);

    let topology = new_pcie_topology(2, 3);
    assert_eq!(topology.get_pcie_port(), None);
}

#[test]
fn test_add_pcie_root_port() {
    let mut topology = new_pcie_topology(1, 0);
    assert!(topology.add_pcie_root_port(1).is_ok());
    assert!(topology.pcie_port_devices.contains_key(&1));

    // Adding the same root port again should fail
    assert!(topology.add_pcie_root_port(1).is_err());
}

#[test]
fn test_add_switch_to_root_port() {
    let mut topology = new_pcie_topology(1, 0);
    topology.add_pcie_root_port(1).unwrap();
    assert!(topology.add_switch_to_root_port(1, 101).is_ok());

    // Adding a switch to a non-existent root port should fail
    assert!(topology.add_switch_to_root_port(2, 102).is_err());

    // Adding a switch to a root port that already has a switch should fail
    assert!(topology.add_switch_to_root_port(1, 103).is_err());
}

#[test]
fn test_add_switch_port_to_switch() {
    let mut topology = new_pcie_topology(1, 0);
    topology.add_pcie_root_port(1).unwrap();
    topology.add_switch_to_root_port(1, 101).unwrap();

    let swup_bus = format!("{}{}", PCIePortBusPrefix::SwitchUpstreamPort.to_string(), 101);
    assert!(topology
        .add_switch_port_to_switch(&swup_bus, 1, 1, "swdp1".to_string())
        .is_ok());

    // Adding a switch port to a non-existent root port should fail
    assert!(topology
        .add_switch_port_to_switch(&swup_bus, 2, 1, "swdp2".to_string())
        .is_err());

    // Adding a switch port to a root port without a switch should fail
    let mut topology = new_pcie_topology(1, 0);
    topology.add_pcie_root_port(1).unwrap();
    assert!(topology
        .add_switch_port_to_switch(&swup_bus, 1, 1, "swdp1".to_string())
        .is_err());

    // Adding a switch port with a duplicate ID should fail
    let mut topology = new_pcie_topology(1, 0);
    topology.add_pcie_root_port(1).unwrap();
    topology.add_switch_to_root_port(1, 101).unwrap();
    assert!(topology
        .add_switch_port_to_switch(&swup_bus, 1, 1, "swdp1".to_string())
        .is_ok());
    assert!(topology
        .add_switch_port_to_switch(&swup_bus, 1, 1, "swdp2".to_string())
        .is_err());
}

#[test]
fn test_add_root_ports_on_bus() {
    let mut topology = new_pcie_topology(3, 0);
    assert!(topology.add_root_ports_on_bus(3).is_ok());
    assert_eq!(topology.pcie_port_devices.len(), 3);

    // Adding more root ports than available should fail
    assert!(topology.add_root_ports_on_bus(1).is_err());
}

#[test]
fn test_add_switch_ports_single_root_port() {
    let mut topology = new_pcie_topology(1, 0);
    assert!(topology
        .add_switch_ports_with_strategy(1, 2, Strategy::SingleRootPort)
        .is_ok());

    let root_port = topology.pcie_port_devices.get(&1).unwrap();
    assert!(root_port.connected_switch.is_some());
    let switch = root_port.connected_switch.as_ref().unwrap();
    assert_eq!(switch.switch_ports.len(), 2);
}

#[test]
fn test_add_switch_ports_multiple_root_ports() {
    let mut topology = new_pcie_topology(0, 4);
    assert!(topology
        .add_switch_ports_with_strategy(4, 4, Strategy::MultipleRootPorts)
        .is_ok());

    for i in 1..=3 {
        let root_port = topology.pcie_port_devices.get(&i).unwrap();
        assert!(root_port.connected_switch.is_some());
        let switch = root_port.connected_switch.as_ref().unwrap();
        assert_eq!(switch.switch_ports.len(), 1);
    }
}

#[test]
fn test_add_switch_ports_hybrid() {
    let mut topology = new_pcie_topology(2, 0);
    assert!(topology
        .add_switch_ports_with_strategy(2, 4, Strategy::Hybrid)
        .is_ok());

    for i in 1..=2 {
        let root_port = topology.pcie_port_devices.get(&i).unwrap();
        assert!(root_port.connected_switch.is_some());
        let switch = root_port.connected_switch.as_ref().unwrap();
        assert_eq!(switch.switch_ports.len(), 2);
    }
}

fn endpoint(id: &str) -> PCIeEndpoint {
    PCIeEndpoint {
        device_id: id.to_string(),
        ..Default::default()
    }
}

fn path(slots: &[u8]) -> PciPath {
    PciPath {
        slots: slots
            .iter()
            .map(|s| kata_devices::pci_path::PciSlot(*s))
            .collect(),
    }
}

#[test]
fn topology_from_config() {
    assert!(PCIeTopology::new(None).is_none());
    let config = TopologyConfigInfo {
        hypervisor_name: "qemu".to_string(),
        device_info: TopologyDeviceInfo {
            default_bridges: 1,
            pcie_root_port: 2,
            pcie_switch_port: 0,
            hotplug_vfio_on_root_bus: true,
        },
    };
    let topo = PCIeTopology::new(Some(&config)).unwrap();
    assert_eq!(topo.hypervisor_name, "qemu");
    assert_eq!(topo.root_complex.root_bus, "pcie.0");
    assert_eq!(topo.root_complex.root_bus_address, "0000:00");
    assert_eq!(topo.bridges, 1);
    assert_eq!(topo.pcie_root_ports, 2);
    assert_eq!(topo.pcie_switch_ports, 0);
    assert!(topo.hotplug_vfio_on_root_bus);
    assert!(topo.root_complex.root_bus_devices.is_empty());
    assert_eq!(topo.get_pcie_port(), Some((PCIePort::RootPort, 2)));
}

#[test]
fn insert_device_takes_first_free_slots() {
    let mut topo = PCIeTopology::default();
    let mut a = endpoint("a");
    let mut b = endpoint("b");
    assert_eq!(topo.insert_device(&mut a).unwrap().slots, path(&[0]).slots);
    assert_eq!(topo.insert_device(&mut b).unwrap().convert_to_string(), "01");
    assert_eq!(a.pci_path.convert_to_string(), "00");
    assert_eq!(b.pci_path.convert_to_string(), "01");
    assert!(topo.root_complex.root_bus_devices.contains_key("00"));
    assert!(topo.root_complex.root_bus_devices.contains_key("01"));
    assert_eq!(
        topo.root_complex.root_bus_devices.get("01").unwrap().device_id,
        "b"
    );
    // Removing the first frees its slot, which the next device takes.
    assert_eq!(topo.remove_device("a"), Some("00".to_string()));
    let mut c = endpoint("c");
    assert_eq!(topo.insert_device(&mut c).unwrap().convert_to_string(), "00");
}

#[test]
fn insert_device_fails_when_bus_is_full() {
    let mut topo = PCIeTopology::default();
    for i in 0..32 {
        let mut ep = endpoint(&format!("dev{}", i));
        let p = topo.insert_device(&mut ep).unwrap();
        assert_eq!(p.slots.len(), 1);
        assert_eq!(p.slots[0].0, i as u8);
    }
    assert_eq!(topo.root_complex.root_bus_devices.len(), 32);
    assert_eq!(
        topo.root_complex
            .root_bus_devices
            .get("1f")
            .unwrap()
            .device_id,
        "dev31"
    );
    let mut extra = endpoint("extra");
    assert!(topo.insert_device(&mut extra).is_none());
    assert!(extra.pci_path.slots.is_empty());
    assert_eq!(
        do_add_pcie_endpoint("extra".to_string(), None, &mut topo).unwrap_err(),
        TopologyError::PciPathAllocationFailed
    );
}

#[test]
fn find_and_remove_device() {
    let mut topo = PCIeTopology::default();
    assert!(!topo.find_device("gpu"));
    assert_eq!(topo.remove_device("gpu"), None);
    let mut ep = endpoint("gpu");
    topo.insert_device(&mut ep).unwrap();
    assert!(topo.find_device("gpu"));
    assert_eq!(topo.remove_device("gpu"), Some("00".to_string()));
    assert!(!topo.find_device("gpu"));
    assert!(topo.root_complex.root_bus_devices.is_empty());
}

#[test]
fn update_device_moves_to_new_path() {
    let mut topo = PCIeTopology::default();
    let mut ep = endpoint("nic");
    topo.insert_device(&mut ep).unwrap();
    // Same path: nothing to update.
    assert!(topo.update_device(&ep).is_none());
    // A new path reported by the VMM: the device moves there.
    ep.pci_path = path(&[2, 5]);
    let moved = topo.update_device(&ep).unwrap();
    assert_eq!(moved.convert_to_string(), "02/05");
    assert!(!topo.root_complex.root_bus_devices.contains_key("00"));
    assert_eq!(
        topo.root_complex
            .root_bus_devices
            .get("02/05")
            .unwrap()
            .device_id,
        "nic"
    );
    assert_eq!(topo.root_complex.root_bus_devices.len(), 1);
}

#[test]
fn do_insert_or_update_is_idempotent() {
    let mut topo = PCIeTopology::default();
    let mut ep = endpoint("blk");
    let first = topo.do_insert_or_update(&mut ep).unwrap();
    assert_eq!(first.convert_to_string(), "00");
    let second = topo.do_insert_or_update(&mut ep).unwrap();
    assert_eq!(second.convert_to_string(), "00");
    assert_eq!(topo.root_complex.root_bus_devices.len(), 1);
}

#[test]
fn do_add_pcie_endpoint_registers_pcie_device() {
    let mut topo = PCIeTopology::default();
    let p = do_add_pcie_endpoint("vfio0".to_string(), None, &mut topo).unwrap();
    assert_eq!(p.convert_to_string(), "00");
    let ep = topo.root_complex.root_bus_devices.get("00").unwrap();
    assert_eq!(ep.device_type, "PCIe");
    assert_eq!(ep.device_id, "vfio0");
    // Already known, with a path allocated elsewhere: it is moved there.
    let p = do_add_pcie_endpoint("vfio0".to_string(), Some(path(&[3])), &mut topo).unwrap();
    assert_eq!(p.convert_to_string(), "03");
    assert!(!topo.root_complex.root_bus_devices.contains_key("00"));
    assert!(topo.root_complex.root_bus_devices.contains_key("03"));
    // Unknown device with an allocated path still takes the first free slot.
    let p = do_add_pcie_endpoint("vfio1".to_string(), Some(path(&[9])), &mut topo).unwrap();
    assert_eq!(p.convert_to_string(), "00");
}

#[test]
fn port_names_and_kinds() {
    assert_eq!(PCIePortBusPrefix::RootPort.to_string(), "rp");
    assert_eq!(PCIePortBusPrefix::SwitchPort.to_string(), "sw");
    assert_eq!(PCIePortBusPrefix::SwitchUpstreamPort.to_string(), "swup");
    assert_eq!(PCIePortBusPrefix::SwitchDownstreamPort.to_string(), "swdp");
    assert_eq!(PCIePort::NoPort.to_string(), "no-port");
    assert_eq!(PCIePort::RootPort.to_string(), "root-port");
    assert_eq!(PCIePort::SwitchPort.to_string(), "switch-port");
    assert_eq!(PCIePort::InvalidPort.to_string(), "invalid-port");
    assert_eq!(PCIePort::default(), PCIePort::NoPort);
    let dev = TopologyPortDevice::new("rp0", "pcie.0");
    assert_eq!(dev.id, "rp0");
    assert_eq!(dev.bus, "pcie.0");
    assert_eq!(dev.get_port_type(), PCIePort::RootPort);
}

#[test]
fn root_ports_and_switches_are_named() {
    let mut topo = PCIeTopology::default();
    topo.add_root_ports_on_bus(12).unwrap();
    assert_eq!(topo.pcie_port_devices.get(&0).unwrap().id, "rp0");
    assert_eq!(topo.pcie_port_devices.get(&11).unwrap().id, "rp11");
    assert_eq!(topo.pcie_port_devices.get(&11).unwrap().bus, "pcie.0");
    topo.add_switch_to_root_port(11, 111).unwrap();
    let dev = topo.pcie_port_devices.get(&11).unwrap();
    assert_eq!(dev.get_port_type(), PCIePort::SwitchPort);
    let sw = dev.connected_switch.as_ref().unwrap();
    assert_eq!(sw.id, 111);
    assert_eq!(sw.bus, "rp11");
    assert_eq!(
        topo.add_switch_to_root_port(11, 112),
        Err(TopologyError::SwitchAlreadyConnected(11))
    );
    assert_eq!(
        topo.add_switch_to_root_port(40, 140),
        Err(TopologyError::RootPortNotFound(40))
    );
    assert_eq!(
        topo.add_switch_port_to_switch("swup111", 3, 1, "swdp1".to_string()),
        Err(TopologyError::NoConnectedSwitch(3))
    );
    topo.add_switch_port_to_switch("swup111", 11, 7, "swdp7".to_string())
        .unwrap();
    assert_eq!(
        topo.add_switch_port_to_switch("swup111", 11, 7, "swdp8".to_string()),
        Err(TopologyError::SwitchPortExists { port: 7, switch: 111 })
    );
    let port = topo.pcie_port_devices.get(&11).unwrap().connected_switch.as_ref().unwrap()
        .switch_ports
        .get(&7)
        .unwrap();
    assert_eq!(port.bus, "swup111");
    assert_eq!(port.port_type, PCIePort::SwitchPort);
    assert_eq!(port.connected_swdp_devices, vec!["swdp7".to_string()]);
}

#[test]
fn root_ports_stop_at_first_existing() {
    let mut topo = PCIeTopology::default();
    topo.add_pcie_root_port(2).unwrap();
    assert_eq!(
        topo.add_root_ports_on_bus(5),
        Err(TopologyError::RootPortExists(2))
    );
    assert_eq!(topo.pcie_port_devices.len(), 3);
    assert!(topo.pcie_port_devices.contains_key(&0));
    assert!(topo.pcie_port_devices.contains_key(&1));
    assert!(!topo.pcie_port_devices.contains_key(&3));
}

#[test]
fn strategies_lay_out_named_ports() {
    let mut topo = PCIeTopology::default();
    topo.add_switch_ports_with_strategy(1, 3, Strategy::SingleRootPort)
        .unwrap();
    let sw = topo.pcie_port_devices.get(&1).unwrap().connected_switch.as_ref().unwrap();
    assert_eq!(sw.id, 101);
    assert_eq!(sw.bus, "rp1");
    let p3 = sw.switch_ports.get(&3).unwrap();
    assert_eq!(p3.bus, "swup101");
    assert_eq!(p3.connected_swdp_devices, vec!["swdp3".to_string()]);
    // The root port already has its switch: the strategy fails on it.
    assert_eq!(
        topo.add_switch_ports_with_strategy(1, 3, Strategy::SingleRootPort),
        Err(TopologyError::SwitchAlreadyConnected(1))
    );

    let mut topo = PCIeTopology::default();
    topo.add_switch_ports_with_strategy(3, 7, Strategy::Hybrid)
        .unwrap();
    assert_eq!(topo.pcie_port_devices.len(), 3);
    let sw3 = topo.pcie_port_devices.get(&3).unwrap().connected_switch.as_ref().unwrap();
    assert_eq!(sw3.id, 103);
    assert_eq!(sw3.switch_ports.len(), 2);
    let p2 = sw3.switch_ports.get(&2).unwrap();
    assert_eq!(p2.bus, "swup103");
    assert_eq!(p2.connected_swdp_devices, vec!["swdp6".to_string()]);

    let mut topo = PCIeTopology::default();
    topo.add_pcie_root_port(1).unwrap();
    topo.add_switch_to_root_port(3, 0).unwrap_err();
    topo.add_pcie_root_port(3).unwrap();
    topo.add_switch_to_root_port(3, 99).unwrap();
    assert_eq!(
        topo.add_switch_ports_with_strategy(5, 5, Strategy::MultipleRootPorts),
        Err(TopologyError::SwitchAlreadyConnected(3))
    );
    let sw2 = topo.pcie_port_devices.get(&2).unwrap().connected_switch.as_ref().unwrap();
    assert_eq!(sw2.id, 102);
    assert_eq!(
        sw2.switch_ports.get(&1).unwrap().connected_swdp_devices,
        vec!["swdp2".to_string()]
    );
    assert!(!topo.pcie_port_devices.contains_key(&4));
}

fn count_with_id(topo: &PCIeTopology, id: &str) -> usize {
    let devs = &topo.root_complex.root_bus_devices;
    (0..devs.len())
        .filter(|i| devs.value_at(*i).device_id == id)
        .count()
}

#[test]
fn remove_undoes_register() {
    let mut topo = PCIeTopology::default();
    do_add_pcie_endpoint("a".to_string(), None, &mut topo).unwrap();
    do_add_pcie_endpoint("b".to_string(), None, &mut topo).unwrap();
    assert_eq!(topo.remove_device("b"), Some("01".to_string()));
    assert_eq!(topo.root_complex.root_bus_devices.len(), 1);
    assert_eq!(topo.root_complex.root_bus_devices.key_at(0), "00");
    assert!(!topo.find_device("b"));
}

#[test]
fn device_ids_stay_unique() {
    let mut topo = PCIeTopology::default();
    for p in [None, Some(path(&[4])), Some(path(&[4])), Some(path(&[1, 2])), None] {
        do_add_pcie_endpoint("x".to_string(), p, &mut topo).unwrap();
        assert_eq!(count_with_id(&topo, "x"), 1);
    }
    // The last registration carries no path: the known device is recorded
    // under the empty path.
    assert!(topo.root_complex.root_bus_devices.contains_key(""));
    assert_eq!(topo.root_complex.root_bus_devices.len(), 1);
}

#[test]
fn error_messages() {
    assert_eq!(
        TopologyError::RootPortExists(3).message(),
        "Root Port 3 already exists."
    );
    assert_eq!(
        TopologyError::RootPortNotFound(12).message(),
        "Root Port 12 does not exist."
    );
    assert_eq!(
        TopologyError::SwitchAlreadyConnected(1).message(),
        "Root Port 1 already has a connected switch."
    );
    assert_eq!(
        TopologyError::NoConnectedSwitch(0).message(),
        "Root Port 0 has no connected switch."
    );
    assert_eq!(
        TopologyError::SwitchPortExists { port: 2, switch: 101 }.message(),
        "Switch Port 2 already exists in Switch 101."
    );
    assert_eq!(
        TopologyError::PciPathAllocationFailed.message(),
        "pci path allocated failed."
    );
}

#[test]
fn hybrid_needs_a_port_per_switch() {
    let mut topo = PCIeTopology::default();
    assert_eq!(
        topo.add_switch_ports_with_strategy(2, 1, Strategy::Hybrid),
        Err(TopologyError::TooFewSwitchPorts { switches: 2, ports: 1 })
    );
    assert!(topo.pcie_port_devices.is_empty());
    assert_eq!(
        TopologyError::TooFewSwitchPorts { switches: 2, ports: 1 }.message(),
        "Hybrid layout of 2 switches needs at least as many switch ports, got 1."
    );
    topo.add_switch_ports_hybrid(2, 2).unwrap();
    for i in 1..=2 {
        let sw = topo.pcie_port_devices.get(&i).unwrap().connected_switch.as_ref().unwrap();
        assert_eq!(sw.switch_ports.len(), 1);
    }
}

#[test]
fn strategies_callable_directly() {
    let mut topo = PCIeTopology::default();
    topo.add_switch_ports_single_root_port(1, 2).unwrap();
    assert_eq!(
        topo.pcie_port_devices.get(&1).unwrap().connected_switch.as_ref().unwrap().switch_ports.len(),
        2
    );
    assert_eq!(
        topo.add_switch_ports_multiple_root_ports(3, 3),
        Err(TopologyError::SwitchAlreadyConnected(1))
    );
}
