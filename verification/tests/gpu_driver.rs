use kata_devices::cdi_spec::{generate_cdi_config, CdiError, CdiSpec, ContainerEdits, Device, Mount};
use kata_devices::driver_spec::{
    libraries_from_file_names, library_name, DriverInfo, DriverSpec, Template,
};
use kata_devices::pci_path::{PciPath, PciSlot};
use kata_devices::string_map::StringMap;
use kata_devices::text::numbered_name;

fn strings(v: &[&str]) -> Vec<String> {
    v.iter().map(|s| s.to_string()).collect()
}

fn template() -> Template {
    let mut libs = StringMap::new();
    libs.insert("compute".to_string(), strings(&["libcuda.so", "libnvidia-ml.so", "libmissing.so"]));
    let mut bins = StringMap::new();
    bins.insert("utils".to_string(), strings(&["nvidia-smi", "nvidia-debugdump"]));
    Template {
        libs,
        bins,
        options: StringMap::new(),
    }
}

fn found_libs() -> StringMap<String> {
    let mut m = StringMap::new();
    m.insert("libcuda.so".to_string(), "libcuda.so.525.105.17".to_string());
    m.insert("libnvidia-ml.so".to_string(), "libnvidia-ml.so.525.105.17".to_string());
    m
}

#[test]
fn library_names() {
    assert_eq!(library_name("libcuda.so.1"), Some("libcuda.so".to_string()));
    assert_eq!(
        library_name("libnvidia-ml.so.525.105.17"),
        Some("libnvidia-ml.so".to_string())
    );
    assert_eq!(library_name("lib.so.x.so.2"), Some("lib.so.x.so".to_string()));
    assert_eq!(library_name("libfoo.so"), None);
    assert_eq!(library_name("README"), None);
}

#[test]
fn string_map_keeps_order_and_replaces() {
    let mut m: StringMap<u32> = StringMap::new();
    assert!(m.is_empty());
    m.insert("b".to_string(), 1);
    m.insert("a".to_string(), 2);
    m.insert("b".to_string(), 3);
    assert_eq!(m.len(), 2);
    assert_eq!(m.key_at(0), "b");
    assert_eq!(*m.value_at(0), 3);
    assert_eq!(m.get("a"), Some(&2));
    assert_eq!(m.remove("b"), Some(3));
    assert_eq!(m.remove("b"), None);
    assert!(!m.contains_key("b"));
    assert_eq!(m.key_at(0), "a");
}

#[test]
fn update_libraries_joins_paths() {
    let t = template();
    let libs = t.update_libraries(found_libs(), "/opt/nvidia");
    assert_eq!(libs.len(), 1);
    let compute = libs.get("compute").unwrap();
    assert_eq!(compute.len(), 2);
    assert_eq!(
        compute.get("libcuda.so").unwrap(),
        "/opt/nvidia/libcuda.so.525.105.17"
    );
    assert_eq!(
        compute.get("libnvidia-ml.so").unwrap(),
        "/opt/nvidia/libnvidia-ml.so.525.105.17"
    );
    assert!(compute.get("libmissing.so").is_none());
}

#[test]
fn update_binaries_keeps_present_ones() {
    let t = template();
    let present = strings(&["/opt/nvidia/nvidia-smi"]);
    let bins = t.update_binaries("/opt/nvidia", &present);
    let utils = bins.get("utils").unwrap();
    assert_eq!(utils.len(), 1);
    assert_eq!(utils.get("nvidia-smi").unwrap(), "/opt/nvidia/nvidia-smi");
}

#[test]
fn driver_info_new() {
    let present = strings(&["/opt/nvidia/nvidia-smi", "/opt/nvidia/nvidia-debugdump"]);
    let info = DriverInfo::new("525.105.27", "/opt/nvidia", template(), found_libs(), &present);
    assert_eq!(info.metadata.product_vendor, "nvidia");
    assert_eq!(info.metadata.product_type, "tesla");
    assert_eq!(info.metadata.driver_version, "525.105.27");
    assert_eq!(info.metadata.driver_path, "/opt/nvidia");
    assert!(info.metadata.annotations.is_empty());
    assert_eq!(info.spec.libs.get("compute").unwrap().len(), 2);
    assert_eq!(info.spec.bins.get("utils").unwrap().len(), 2);
}

#[test]
fn cdi_building_blocks() {
    let m = Mount::new("/host/lib.so", "/usr/lib64/lib.so");
    assert_eq!(m.mount_type, "bind");
    assert_eq!(m.options, strings(&["ro", "nosuid", "nodev", "bind"]));
    let e = ContainerEdits::new();
    assert_eq!(e.env, strings(&["NVIDIA_VISIBLE_DEVICES=void"]));
    assert!(e.mounts.is_empty() && e.device_nodes.is_empty() && e.hooks.is_empty());
    let d = Device::new("x", vec!["/dev/a", "/dev/b"]);
    assert_eq!(d.name, "x");
    assert_eq!(d.container_edits.device_nodes.len(), 2);
    assert_eq!(d.container_edits.device_nodes[1].path, "/dev/b");
    assert!(d.container_edits.env.is_empty());
    let c = CdiSpec::new();
    assert_eq!(c.kind, "nvidia.com/gpu");
    assert_eq!(c.version, "0.5.0");
    assert_eq!(c.devices.len(), 3);
    assert_eq!(c.devices[2].name, "all");
    assert_eq!(c.devices[2].container_edits.device_nodes[0].path, "/dev/vfio/75");
    assert_eq!(c.devices[2].container_edits.device_nodes[1].path, "/dev/vfio/76");
}

fn driver_spec() -> DriverSpec {
    let mut inner = StringMap::new();
    inner.insert("libcuda.so".to_string(), "/opt/nv/libcuda.so.1".to_string());
    inner.insert("libnvidia-ml.so".to_string(), "/opt/nv/libnvidia-ml.so.1".to_string());
    let mut libs = StringMap::new();
    libs.insert("compute".to_string(), inner);
    let mut binner = StringMap::new();
    binner.insert("nvidia-smi".to_string(), "/opt/nv/nvidia-smi".to_string());
    let mut bins = StringMap::new();
    bins.insert("utils".to_string(), binner);
    DriverSpec { libs, bins }
}

#[test]
fn generate_cdi_config_mounts_and_preloads() {
    let mut base = StringMap::new();
    base.insert("/opt/nv/libcuda.so.1".to_string(), "libcuda.so.525".to_string());
    base.insert("/opt/nv/libnvidia-ml.so.1".to_string(), "libnvidia-ml.so.525".to_string());
    let cdi = generate_cdi_config(driver_spec(), &base).unwrap();
    let edits = cdi.container_edits.unwrap();
    assert_eq!(
        edits.env,
        strings(&[
            "NVIDIA_VISIBLE_DEVICES=void",
            "LD_PRELOAD=/usr/lib64/libnvidia-ml.so.525"
        ])
    );
    assert_eq!(edits.mounts.len(), 3);
    assert_eq!(edits.mounts[0].host_path, "/opt/nv/libcuda.so.1");
    assert_eq!(edits.mounts[0].container_path, "/usr/lib64/libcuda.so.525");
    assert_eq!(edits.mounts[1].container_path, "/usr/lib64/libnvidia-ml.so.525");
    assert_eq!(edits.mounts[2].host_path, "/opt/nv/nvidia-smi");
    assert_eq!(edits.mounts[2].container_path, "/usr/bin/nvidia-smi");
    assert_eq!(cdi.devices.len(), 3);
}

#[test]
fn generate_cdi_config_needs_base_names() {
    let mut base = StringMap::new();
    base.insert("/opt/nv/libcuda.so.1".to_string(), "libcuda.so.525".to_string());
    assert_eq!(
        generate_cdi_config(driver_spec(), &base).unwrap_err(),
        CdiError::BaseNameUnavailable
    );
}

#[test]
fn pci_path_text() {
    let p = PciPath {
        slots: vec![PciSlot(0x02), PciSlot(0x1f), PciSlot(0xab)],
    };
    assert_eq!(p.convert_to_string(), "02/1f/ab");
    assert_eq!(PciPath::from_slot(7).convert_to_string(), "07");
    assert_eq!(PciPath::default().convert_to_string(), "");
    assert_eq!(numbered_name("rp", 0), "rp0");
    assert_eq!(numbered_name("swdp", 4294967295), "swdp4294967295");
}

#[test]
fn libraries_from_directory_listing() {
    let names = strings(&[
        "libcuda.so.1",
        "README",
        "libnvidia-ml.so.525.105.17",
        "libcuda.so.525.105.17",
        "nvidia-smi",
    ]);
    let libs = libraries_from_file_names(&names);
    assert_eq!(libs.len(), 2);
    assert_eq!(libs.get("libcuda.so").unwrap(), "libcuda.so.525.105.17");
    assert_eq!(libs.get("libnvidia-ml.so").unwrap(), "libnvidia-ml.so.525.105.17");
}
