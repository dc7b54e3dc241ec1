use kata_devices::guest_volume::{
    extract_before_guest, is_guest_mount, is_guest_volume, GuestVolume, OciMount, GUEST_PREFIX,
};

fn mount(t: &str, source: &str) -> OciMount {
    OciMount {
        destination: "/data".to_string(),
        mount_type: t.to_string(),
        source: source.to_string(),
        options: vec!["rbind".to_string(), "ro".to_string()],
    }
}

#[test]
fn guest_mount_detection() {
    assert_eq!(GUEST_PREFIX, "@guest");
    assert!(is_guest_mount("/run/@guest"));
    assert!(is_guest_mount("@guest/x"));
    assert!(!is_guest_mount("/run/guest"));
    assert!(!is_guest_mount(""));
    assert!(is_guest_volume(&mount("bind", "/dev/shm@guest")));
    assert!(!is_guest_volume(&mount("tmpfs", "/dev/shm@guest")));
    assert!(!is_guest_volume(&mount("bind", "/dev/shm")));
}

#[test]
fn extract_cuts_before_last_marker() {
    assert_eq!(extract_before_guest("/var/run/nvidia@guest"), "/var/run/nvidia");
    assert_eq!(extract_before_guest("/a@guest/b@guest/c"), "/a@guest/b");
    assert_eq!(extract_before_guest("@guest/path"), "");
    assert_eq!(extract_before_guest("/no/marker"), "/no/marker");
    assert_eq!(extract_before_guest("/dé@guest"), "/dé");
}

#[test]
fn guest_volume_passes_mount_through() {
    let m = mount("bind", "/var/run/nvidia-topologyd@guest");
    let v = GuestVolume::new(&m);
    let mounts = v.get_volume_mount();
    assert_eq!(mounts.len(), 1);
    assert_eq!(mounts[0].source, "/var/run/nvidia-topologyd");
    assert_eq!(mounts[0].destination, "/data");
    assert_eq!(mounts[0].mount_type, "bind");
    assert_eq!(mounts[0].options, vec!["rbind".to_string(), "ro".to_string()]);
    assert_eq!(v.get_device_id(), None);
}
