//! The Container Device Interface (CDI) description of the GPUs: the devices
//! a container runtime may add, and the edits it makes to the container so
//! that the driver's libraries and binaries are mounted into it.

use vstd::prelude::*;
use vstd::string::*;

use crate::driver_spec::{join_path, nested_wf, str_map_view, DriverSpec};
use crate::string_map::StringMap;
use crate::text::{chars_of, clone_strings, starts_with_chars, views_of};

use crate::laws::{
    lemma_every_binary_mounted, lemma_every_library_mounted, lemma_host_listed, lemma_preload_envs,
};

verus! {

/// The CDI version of the description.
pub const CURRENT_CDI_VERSION: &'static str = "0.5.0";

/// The kind of device described.
pub const NVIDIA_GPU_KIND: &'static str = "nvidia.com/gpu";

/// Where libraries go in the container.
pub const X86_64_LIB64_DIR: &'static str = "/usr/lib64";

/// Where binaries go in the container.
pub const USR_BIN_PATH: &'static str = "/usr/bin";

/// A mount to add to the container.
#[derive(Clone, Debug)]
pub struct Mount {
    pub host_path: String,
    pub container_path: String,
    pub mount_type: String,
    pub options: Vec<String>,
}

/// The abstract value of a mount.
pub struct MountView {
    pub host_path: Seq<char>,
    pub container_path: Seq<char>,
    pub mount_type: Seq<char>,
    pub options: Seq<Seq<char>>,
}

impl View for Mount {
    type V = MountView;

    open spec fn view(&self) -> MountView {
        MountView {
            host_path: self.host_path@,
            container_path: self.container_path@,
            mount_type: self.mount_type@,
            options: views_of(self.options@),
        }
    }
}

/// A read-only bind mount of `host` at `container`.
pub open spec fn bind_mount(host: Seq<char>, container: Seq<char>) -> MountView {
    MountView {
        host_path: host,
        container_path: container,
        mount_type: "bind"@,
        options: seq!["ro"@, "nosuid"@, "nodev"@, "bind"@],
    }
}

/// A hook to run in the container's lifecycle.
#[derive(Clone, Debug)]
pub struct Hook {
    pub hook_name: String,
    pub path: String,
    pub args: Vec<String>,
    pub env: Vec<String>,
    pub timeout: Option<i32>,
}

/// Intel RDT parameters of the container.
#[derive(Clone, Debug)]
pub struct IntelRdt {
    pub clos_id: String,
    pub l3_cache_schema: String,
    pub mem_bw_schema: String,
    pub enable_cmt: bool,
    pub enable_mbm: bool,
}

/// A device node to add to the container.
#[derive(Clone, Debug)]
pub struct DeviceNode {
    pub path: String,
    pub host_path: String,
    pub node_type: String,
    pub major: Option<i64>,
    pub minor: Option<i64>,
    pub file_mode: Option<u32>,
    pub permissions: Option<String>,
    pub uid: Option<u32>,
    pub gid: Option<u32>,
}

/// The abstract value of a device node.
pub struct DeviceNodeView {
    pub path: Seq<char>,
    pub host_path: Seq<char>,
    pub node_type: Seq<char>,
    pub major: Option<i64>,
    pub minor: Option<i64>,
    pub file_mode: Option<u32>,
    pub permissions: Option<Seq<char>>,
    pub uid: Option<u32>,
    pub gid: Option<u32>,
}

impl View for DeviceNode {
    type V = DeviceNodeView;

    open spec fn view(&self) -> DeviceNodeView {
        DeviceNodeView {
            path: self.path@,
            host_path: self.host_path@,
            node_type: self.node_type@,
            major: self.major,
            minor: self.minor,
            file_mode: self.file_mode,
            permissions: match self.permissions {
                Some(p) => Some(p@),
                None => None,
            },
            uid: self.uid,
            gid: self.gid,
        }
    }
}

/// A device node with only its path set.
pub open spec fn plain_node(path: Seq<char>) -> DeviceNodeView {
    DeviceNodeView {
        path,
        host_path: Seq::empty(),
        node_type: Seq::empty(),
        major: None,
        minor: None,
        file_mode: None,
        permissions: None,
        uid: None,
        gid: None,
    }
}

/// Device nodes with only their paths set.
pub open spec fn plain_nodes(paths: Seq<Seq<char>>) -> Seq<DeviceNodeView> {
    paths.map_values(|p: Seq<char>| plain_node(p))
}

/// The edits a container runtime makes to the container.
#[derive(Clone, Debug)]
pub struct ContainerEdits {
    pub env: Vec<String>,
    pub device_nodes: Vec<DeviceNode>,
    pub hooks: Vec<Hook>,
    pub mounts: Vec<Mount>,
    pub intel_rdt: Option<IntelRdt>,
    pub additional_gids: Vec<u32>,
}

/// The abstract value of container edits.
pub struct EditsView {
    pub env: Seq<Seq<char>>,
    pub device_nodes: Seq<DeviceNodeView>,
    pub hooks: Seq<Hook>,
    pub mounts: Seq<MountView>,
    pub intel_rdt: Option<IntelRdt>,
    pub additional_gids: Seq<u32>,
}

/// The views of a sequence of device nodes.
pub open spec fn node_views(s: Seq<DeviceNode>) -> Seq<DeviceNodeView> {
    s.map_values(|n: DeviceNode| n@)
}

/// The views of a sequence of mounts.
pub open spec fn mount_views(s: Seq<Mount>) -> Seq<MountView> {
    s.map_values(|m: Mount| m@)
}

impl View for ContainerEdits {
    type V = EditsView;

    open spec fn view(&self) -> EditsView {
        EditsView {
            env: views_of(self.env@),
            device_nodes: node_views(self.device_nodes@),
            hooks: self.hooks@,
            mounts: mount_views(self.mounts@),
            intel_rdt: self.intel_rdt,
            additional_gids: self.additional_gids@,
        }
    }
}

/// Edits with nothing in them.
pub open spec fn no_edits() -> EditsView {
    EditsView {
        env: Seq::empty(),
        device_nodes: Seq::empty(),
        hooks: Seq::empty(),
        mounts: Seq::empty(),
        intel_rdt: None,
        additional_gids: Seq::empty(),
    }
}

/// The base edits: GPUs are hidden from the NVIDIA runtime inside the guest.
pub open spec fn base_edits() -> EditsView {
    EditsView {
        env: seq!["NVIDIA_VISIBLE_DEVICES=void"@],
        device_nodes: Seq::empty(),
        hooks: Seq::empty(),
        mounts: Seq::empty(),
        intel_rdt: None,
        additional_gids: Seq::empty(),
    }
}

/// A device that a container runtime can add to a container.
#[derive(Clone, Debug)]
pub struct Device {
    pub name: String,
    pub container_edits: ContainerEdits,
    pub annotations: StringMap<String>,
}

/// The abstract value of a device.
pub struct DeviceView {
    pub name: Seq<char>,
    pub edits: EditsView,
    pub annotations: Map<Seq<char>, Seq<char>>,
}

impl View for Device {
    type V = DeviceView;

    open spec fn view(&self) -> DeviceView {
        DeviceView {
            name: self.name@,
            edits: self.container_edits@,
            annotations: str_map_view(self.annotations),
        }
    }
}

/// A device named `name` whose edits add device nodes at `paths`.
pub open spec fn device_with_nodes(name: Seq<char>, paths: Seq<Seq<char>>) -> DeviceView {
    DeviceView {
        name,
        edits: EditsView {
            env: Seq::empty(),
            device_nodes: plain_nodes(paths),
            hooks: Seq::empty(),
            mounts: Seq::empty(),
            intel_rdt: None,
            additional_gids: Seq::empty(),
        },
        annotations: Map::empty(),
    }
}

/// The devices of the description: GPU `0`, GPU `1`, and `all`.
pub open spec fn gpu_devices() -> Seq<DeviceView> {
    seq![
        device_with_nodes("0"@, seq!["/dev/vfio/75"@]),
        device_with_nodes("1"@, seq!["/dev/vfio/76"@]),
        device_with_nodes("all"@, seq!["/dev/vfio/75"@, "/dev/vfio/76"@]),
    ]
}

/// The views of a sequence of devices.
pub open spec fn device_views(s: Seq<Device>) -> Seq<DeviceView> {
    s.map_values(|d: Device| d@)
}

/// The CDI description.
#[derive(Clone, Debug)]
pub struct CdiSpec {
    pub version: String,
    pub kind: String,
    pub annotations: StringMap<String>,
    pub devices: Vec<Device>,
    pub container_edits: Option<ContainerEdits>,
}

/// Errors of building the CDI description.
#[derive(Clone, Copy, Debug, PartialEq, Eq, Structural)]
pub enum CdiError {
    /// The base name of a library's host path could not be had.
    BaseNameUnavailable,
}

impl Mount {
    /// A read-only bind mount of `host_path` at `container_path`.
    pub fn new(host_path: &str, container_path: &str) -> (r: Self)
        ensures
            r@ == bind_mount(host_path@, container_path@),
    {
        proof {
            reveal_strlit("bind");
            reveal_strlit("ro");
            reveal_strlit("nosuid");
            reveal_strlit("nodev");
        }
        let mut options: Vec<String> = Vec::new();
        options.push(String::from_str("ro"));
        options.push(String::from_str("nosuid"));
        options.push(String::from_str("nodev"));
        options.push(String::from_str("bind"));
        let r = Mount {
            host_path: String::from_str(host_path),
            container_path: String::from_str(container_path),
            mount_type: String::from_str("bind"),
            options,
        };
        assert(r@.options =~= seq!["ro"@, "nosuid"@, "nodev"@, "bind"@]);
        r
    }
}

impl Default for ContainerEdits {
    fn default() -> (r: Self)
        ensures
            r@ == no_edits(),
    {
        let r = ContainerEdits {
            env: Vec::new(),
            device_nodes: Vec::new(),
            hooks: Vec::new(),
            mounts: Vec::new(),
            intel_rdt: None,
            additional_gids: Vec::new(),
        };
        assert(r@.env =~= Seq::<Seq<char>>::empty());
        assert(r@.device_nodes =~= Seq::<DeviceNodeView>::empty());
        assert(r@.mounts =~= Seq::<MountView>::empty());
        r
    }
}

impl ContainerEdits {
    /// The base edits (see `base_edits`).
    pub fn new() -> (r: Self)
        ensures
            r@ == base_edits(),
    {
        proof {
            reveal_strlit("NVIDIA_VISIBLE_DEVICES=void");
        }
        let mut env: Vec<String> = Vec::new();
        env.push(String::from_str("NVIDIA_VISIBLE_DEVICES=void"));
        let r = ContainerEdits {
            env,
            device_nodes: Vec::new(),
            hooks: Vec::new(),
            mounts: Vec::new(),
            intel_rdt: None,
            additional_gids: Vec::new(),
        };
        assert(r@.env =~= seq!["NVIDIA_VISIBLE_DEVICES=void"@]);
        assert(r@.device_nodes =~= Seq::<DeviceNodeView>::empty());
        assert(r@.mounts =~= Seq::<MountView>::empty());
        r
    }
}

impl Default for DeviceNode {
    fn default() -> (r: Self)
        ensures
            r@ == plain_node(Seq::empty()),
    {
        DeviceNode {
            path: String::new(),
            host_path: String::new(),
            node_type: String::new(),
            major: None,
            minor: None,
            file_mode: None,
            permissions: None,
            uid: None,
            gid: None,
        }
    }
}

impl Device {
    /// A device named `name` with a device node at each of `dev_paths`.
    pub fn new(name: &str, dev_paths: Vec<&str>) -> (r: Self)
        ensures
            r.annotations.wf(),
            r@ == device_with_nodes(name@, dev_paths@.map_values(|p: &str| p@)),
    {
        let mut device_nodes: Vec<DeviceNode> = Vec::new();
        let n = dev_paths.len();
        let ghost paths = dev_paths@.map_values(|p: &str| p@);
        for i in 0..n
            invariant
                n == dev_paths@.len(),
                paths == dev_paths@.map_values(|p: &str| p@),
                node_views(device_nodes@).len() == i,
                forall|k: int| 0 <= k < i ==> #[trigger] node_views(device_nodes@)[k] == plain_node(paths[k]),
        {
            let dev_node = DeviceNode {
                path: String::from_str(dev_paths[i]),
                host_path: String::new(),
                node_type: String::new(),
                major: None,
                minor: None,
                file_mode: None,
                permissions: None,
                uid: None,
                gid: None,
            };
            assert(dev_node@ == plain_node(paths[i as int]));
            let ghost before = device_nodes@;
            device_nodes.push(dev_node);
            assert forall|k: int| 0 <= k <= i implies #[trigger] node_views(device_nodes@)[k]
                == plain_node(paths[k]) by {
                if k < i {
                    assert(device_nodes@[k] == before[k]);
                    assert(node_views(before)[k] == before[k]@);
                }
            }
        }
        assert(node_views(device_nodes@) =~= plain_nodes(paths));
        let r = Device {
            name: String::from_str(name),
            container_edits: ContainerEdits {
                env: Vec::new(),
                device_nodes,
                hooks: Vec::new(),
                mounts: Vec::new(),
                intel_rdt: None,
                additional_gids: Vec::new(),
            },
            annotations: StringMap::new(),
        };
        assert(r@.edits.env =~= Seq::<Seq<char>>::empty());
        assert(r@.edits.mounts =~= Seq::<MountView>::empty());
        assert(r@.annotations =~= Map::<Seq<char>, Seq<char>>::empty());
        r
    }
}

impl CdiSpec {
    /// The description of the GPUs, with the base edits.
    pub fn new() -> (r: Self)
        ensures
            r.version@ == "0.5.0"@,
            r.kind@ == "nvidia.com/gpu"@,
            r.annotations.wf(),
            r.annotations@ == Map::<Seq<char>, String>::empty(),
            device_views(r.devices@) == gpu_devices(),
            r.container_edits matches Some(e) && e@ == base_edits(),
    {
        proof {
            reveal_strlit("0");
            reveal_strlit("1");
            reveal_strlit("all");
            reveal_strlit("/dev/vfio/75");
            reveal_strlit("/dev/vfio/76");
        }
        let mut p0: Vec<&str> = Vec::new();
        p0.push("/dev/vfio/75");
        let mut p1: Vec<&str> = Vec::new();
        p1.push("/dev/vfio/76");
        let mut pall: Vec<&str> = Vec::new();
        pall.push("/dev/vfio/75");
        pall.push("/dev/vfio/76");
        assert(p0@.map_values(|p: &str| p@) =~= seq!["/dev/vfio/75"@]);
        assert(p1@.map_values(|p: &str| p@) =~= seq!["/dev/vfio/76"@]);
        assert(pall@.map_values(|p: &str| p@) =~= seq!["/dev/vfio/75"@, "/dev/vfio/76"@]);
        let mut devices: Vec<Device> = Vec::new();
        devices.push(Device::new("0", p0));
        devices.push(Device::new("1", p1));
        devices.push(Device::new("all", pall));
        assert(device_views(devices@) =~= gpu_devices());
        CdiSpec {
            kind: String::from_str(NVIDIA_GPU_KIND),
            version: String::from_str(CURRENT_CDI_VERSION),
            annotations: StringMap::new(),
            devices,
            container_edits: Some(ContainerEdits::new()),
        }
    }
}

/// The host paths of a group of libraries, in order.
pub open spec fn group_hosts(g: StringMap<String>) -> Seq<Seq<char>> {
    views_of(g.val_seq())
}

/// The host paths of all library groups, group after group.
pub open spec fn all_hosts(groups: Seq<StringMap<String>>) -> Seq<Seq<char>>
    decreases groups.len(),
{
    if groups.len() == 0 {
        Seq::empty()
    } else {
        all_hosts(groups.drop_last()) + group_hosts(groups.last())
    }
}

/// The (binary name, host path) entries of a group of binaries, in order.
pub open spec fn group_entries(g: StringMap<String>) -> Seq<(Seq<char>, Seq<char>)> {
    Seq::new(g.key_seq().len(), |i: int| (g.key_seq()[i], g.val_seq()[i]@))
}

/// The entries of all binary groups, group after group.
pub open spec fn all_entries(groups: Seq<StringMap<String>>) -> Seq<(Seq<char>, Seq<char>)>
    decreases groups.len(),
{
    if groups.len() == 0 {
        Seq::empty()
    } else {
        all_entries(groups.drop_last()) + group_entries(groups.last())
    }
}

/// Where a library with base name `base` goes in the container.
pub open spec fn lib_container_path(base: Seq<char>) -> Seq<char> {
    join_path("/usr/lib64"@, base)
}

/// Whether base name `base` is that of the NVIDIA management library.
pub open spec fn is_nvml(base: Seq<char>) -> bool {
    "libnvidia-ml.so"@.len() <= base.len() && base.subrange(0, "libnvidia-ml.so"@.len() as int)
        == "libnvidia-ml.so"@
}

/// The variable that preloads the library with base name `base`.
pub open spec fn preload_env(base: Seq<char>) -> Seq<char> {
    "LD_PRELOAD="@ + lib_container_path(base)
}

/// The mounts of the libraries at `hosts`, whose base names `b` gives.
pub open spec fn lib_mounts(hosts: Seq<Seq<char>>, b: Map<Seq<char>, Seq<char>>) -> Seq<MountView>
    decreases hosts.len(),
{
    if hosts.len() == 0 {
        Seq::empty()
    } else {
        lib_mounts(hosts.drop_last(), b).push(
            bind_mount(hosts.last(), lib_container_path(b[hosts.last()])),
        )
    }
}

/// The preload variables of the libraries at `hosts` that are the NVIDIA
/// management library.
pub open spec fn preload_envs(hosts: Seq<Seq<char>>, b: Map<Seq<char>, Seq<char>>) -> Seq<Seq<char>>
    decreases hosts.len(),
{
    if hosts.len() == 0 {
        Seq::empty()
    } else if is_nvml(b[hosts.last()]) {
        preload_envs(hosts.drop_last(), b).push(preload_env(b[hosts.last()]))
    } else {
        preload_envs(hosts.drop_last(), b)
    }
}

/// The mounts of binaries: each at its name under `/usr/bin`.
pub open spec fn bin_mounts(entries: Seq<(Seq<char>, Seq<char>)>) -> Seq<MountView>
    decreases entries.len(),
{
    if entries.len() == 0 {
        Seq::empty()
    } else {
        bin_mounts(entries.drop_last()).push(
            bind_mount(entries.last().1, join_path("/usr/bin"@, entries.last().0)),
        )
    }
}

/// Whether `b` gives a base name for each of `hosts`.
pub open spec fn has_base_names(hosts: Seq<Seq<char>>, b: Map<Seq<char>, Seq<char>>) -> bool {
    forall|k: int| 0 <= k < hosts.len() ==> b.contains_key(#[trigger] hosts[k])
}

/// The host paths of the first groups come first among all host paths.
pub proof fn lemma_all_hosts_prefix(groups: Seq<StringMap<String>>, i: int)
    requires
        0 <= i <= groups.len(),
    ensures
        all_hosts(groups.take(i)).len() <= all_hosts(groups).len(),
        forall|k: int|
            0 <= k < all_hosts(groups.take(i)).len() ==> #[trigger] all_hosts(groups.take(i))[k]
                == all_hosts(groups)[k],
    decreases groups.len() - i,
{
    if i < groups.len() {
        lemma_all_hosts_prefix(groups, i + 1);
        assert(groups.take(i + 1).drop_last() =~= groups.take(i));
        assert(groups.take(i + 1).last() == groups[i]);
        let a = all_hosts(groups.take(i));
        assert(all_hosts(groups.take(i + 1)) == a + group_hosts(groups[i]));
        assert forall|k: int| 0 <= k < a.len() implies #[trigger] a[k] == all_hosts(groups)[k] by {
            assert((a + group_hosts(groups[i]))[k] == a[k]);
            assert(all_hosts(groups.take(i + 1))[k] == all_hosts(groups)[k]);
        }
    } else {
        assert(groups.take(i) =~= groups);
    }
}

/// Builds the CDI description of the driver found as `driver_spec`: each
/// library is mounted under `/usr/lib64` by its base name (`base_names`
/// gives the base name of each library's host path), the NVIDIA management
/// library is also preloaded, and each binary is mounted under `/usr/bin`.
/// Fails when a library's base name is not in `base_names`.
pub fn generate_cdi_config(driver_spec: DriverSpec, base_names: &StringMap<String>) -> (r: Result<
    CdiSpec,
    CdiError,
>)
    requires
        nested_wf(driver_spec.libs),
        nested_wf(driver_spec.bins),
        base_names.wf(),
    ensures
        ({
            let hosts = all_hosts(driver_spec.libs.val_seq());
            let b = str_map_view(*base_names);
            &&& r is Err <==> !has_base_names(hosts, b)
            &&& r matches Ok(c) ==> {
                &&& c.version@ == "0.5.0"@
                &&& c.kind@ == "nvidia.com/gpu"@
                &&& c.annotations.wf()
                &&& c.annotations@ == Map::<Seq<char>, String>::empty()
                &&& device_views(c.devices@) == gpu_devices()
                &&& c.container_edits matches Some(e) && e@ == (EditsView {
                    env: seq!["NVIDIA_VISIBLE_DEVICES=void"@] + preload_envs(hosts, b),
                    device_nodes: Seq::empty(),
                    hooks: Seq::empty(),
                    mounts: lib_mounts(hosts, b) + bin_mounts(
                        all_entries(driver_spec.bins.val_seq()),
                    ),
                    intel_rdt: None,
                    additional_gids: Seq::empty(),
                })
            }
        }),
        r matches Ok(c) ==> c.container_edits matches Some(e) && forall|i: int, j: int|
            0 <= i < driver_spec.libs.val_seq().len() && 0 <= j < driver_spec.libs.val_seq()[i].val_seq().len()
                ==> e@.mounts.contains(
                bind_mount(
                    #[trigger] driver_spec.libs.val_seq()[i].val_seq()[j]@,
                    "/usr/lib64"@ + seq!['/'] + str_map_view(
                        *base_names,
                    )[driver_spec.libs.val_seq()[i].val_seq()[j]@],
                ),
            ),
        r matches Ok(c) ==> c.container_edits matches Some(e) && forall|i: int, j: int|
            0 <= i < driver_spec.libs.val_seq().len() && 0 <= j < driver_spec.libs.val_seq()[i].val_seq().len()
                && is_nvml(str_map_view(*base_names)[driver_spec.libs.val_seq()[i].val_seq()[j]@])
                ==> e@.env.contains(
                "LD_PRELOAD=/usr/lib64/"@ + str_map_view(
                    *base_names,
                )[#[trigger] driver_spec.libs.val_seq()[i].val_seq()[j]@],
            ),
        r matches Ok(c) ==> c.container_edits matches Some(e) && forall|i: int, j: int|
            0 <= i < driver_spec.bins.val_seq().len() && 0 <= j < driver_spec.bins.val_seq()[i].key_seq().len()
                ==> e@.mounts.contains(
                bind_mount(
                    driver_spec.bins.val_seq()[i].val_seq()[j]@,
                    "/usr/bin"@ + seq!['/'] + #[trigger] driver_spec.bins.val_seq()[i].key_seq()[j],
                ),
            ),
{
    proof {
        reveal_strlit("libnvidia-ml.so");
        reveal_strlit("LD_PRELOAD=");
        reveal_strlit("/usr/lib64");
        reveal_strlit("/usr/bin");
    }
    let ghost b = str_map_view(*base_names);
    let ghost groups = driver_spec.libs.val_seq();
    let ghost bgroups = driver_spec.bins.val_seq();
    let mut cdi_spec = CdiSpec::new();
    let mut container_edits = ContainerEdits::new();
    let mut mounts: Vec<Mount> = Vec::new();
    let mut envs: Vec<String> = clone_strings(&container_edits.env);
    let nvml = chars_of("libnvidia-ml.so");
    let nl = driver_spec.libs.len();
    proof {
        driver_spec.libs.lemma_view();
        driver_spec.bins.lemma_view();
        base_names.lemma_view();
    }
    assert(groups.take(0) =~= Seq::<StringMap<String>>::empty());
    assert(mount_views(mounts@) =~= Seq::<MountView>::empty());
    for i in 0..nl
        invariant
            nl == groups.len(),
            groups == driver_spec.libs.val_seq(),
            nested_wf(driver_spec.libs),
            driver_spec.libs.key_seq().len() == groups.len(),
            base_names.wf(),
            b == str_map_view(*base_names),
            nvml@ == "libnvidia-ml.so"@,
            mount_views(mounts@) == lib_mounts(all_hosts(groups.take(i as int)), b),
            views_of(envs@) == seq!["NVIDIA_VISIBLE_DEVICES=void"@] + preload_envs(
                all_hosts(groups.take(i as int)),
                b,
            ),
            has_base_names(all_hosts(groups.take(i as int)), b),
            cdi_spec.version@ == "0.5.0"@,
            cdi_spec.kind@ == "nvidia.com/gpu"@,
            cdi_spec.annotations.wf(),
            cdi_spec.annotations@ == Map::<Seq<char>, String>::empty(),
            device_views(cdi_spec.devices@) == gpu_devices(),
            container_edits@ == base_edits(),
    {
        let libs = driver_spec.libs.value_at(i);
        proof {
            driver_spec.libs.lemma_entry(i as int);
        }
        assert(libs.wf());
        let ghost g = *libs;
        let ghost pre = all_hosts(groups.take(i as int));
        let m = libs.len();
        proof {
            libs.lemma_view();
        }
        for j in 0..m
            invariant
                m == g.key_seq().len(),
                g == *libs,
                g.wf(),
                g.val_seq().len() == g.key_seq().len(),
                base_names.wf(),
                b == str_map_view(*base_names),
                nvml@ == "libnvidia-ml.so"@,
                mount_views(mounts@) == lib_mounts(pre + group_hosts(g).take(j as int), b),
                views_of(envs@) == seq!["NVIDIA_VISIBLE_DEVICES=void"@] + preload_envs(
                    pre + group_hosts(g).take(j as int),
                    b,
                ),
                has_base_names(pre + group_hosts(g).take(j as int), b),
                pre == all_hosts(groups.take(i as int)),
                groups == driver_spec.libs.val_seq(),
                i < groups.len(),
                groups[i as int] == g,
        {
            proof {
                libs.lemma_view();
            }
            let host_path = libs.value_at(j);
            let ghost p = pre + group_hosts(g).take(j as int);
            let ghost h = host_path@;
            assert(group_hosts(g)[j as int] == h);
            assert(pre + group_hosts(g).take(j + 1) =~= p.push(h));
            assert(p.push(h).drop_last() =~= p);
            let base_name = match base_names.get(host_path.as_str()) {
                Some(bn) => bn,
                None => {
                    proof {
                        assert(!b.contains_key(h));
                        lemma_all_hosts_prefix(groups, i + 1);
                        assert(groups.take(i + 1).drop_last() =~= groups.take(i as int));
                        assert(groups.take(i + 1).last() == g);
                        assert(all_hosts(groups.take(i + 1)) == pre + group_hosts(g));
                        let k = pre.len() + j;
                        assert((pre + group_hosts(g))[k] == group_hosts(g)[j as int]);
                        assert(all_hosts(groups.take(i + 1))[k] == h);
                        assert(all_hosts(groups)[k] == h);
                        assert(0 <= k < all_hosts(groups).len());
                        assert(!has_base_names(all_hosts(groups), b));
                    }
                    return Err(CdiError::BaseNameUnavailable);
                },
            };
            assert(b[h] == base_name@);
            let base_chars = chars_of(base_name.as_str());
            if starts_with_chars(&base_chars, &nvml) {
                let mut env_ml = String::from_str("LD_PRELOAD=");
                env_ml.append(X86_64_LIB64_DIR);
                env_ml.append("/");
                env_ml.append(base_name.as_str());
                proof {
                    reveal_strlit("/");
                }
                assert(env_ml@ =~= preload_env(b[h]));
                let ghost before = envs@;
                envs.push(env_ml);
                assert(views_of(envs@) =~= views_of(before).push(preload_env(b[h])));
            }
            let container_path = make_lib_path(base_name.as_str());
            let ghost before_m = mounts@;
            mounts.push(Mount::new(host_path.as_str(), container_path.as_str()));
            assert(mount_views(mounts@) =~= mount_views(before_m).push(
                bind_mount(h, lib_container_path(b[h])),
            ));
            assert(has_base_names(p.push(h), b)) by {
                assert forall|k: int| 0 <= k < p.push(h).len() implies b.contains_key(
                    #[trigger] p.push(h)[k],
                ) by {
                    if k < p.len() {
                        assert(p.push(h)[k] == p[k]);
                    }
                }
            }
        }
        assert(group_hosts(g).take(m as int) =~= group_hosts(g));
        assert(groups.take(i + 1).drop_last() =~= groups.take(i as int));
        assert(groups.take(i + 1).last() == g);
        assert(all_hosts(groups.take(i + 1)) == pre + group_hosts(g));
    }
    assert(groups.take(nl as int) =~= groups);
    let ghost hosts = all_hosts(groups);
    let nb = driver_spec.bins.len();
    assert(bgroups.take(0) =~= Seq::<StringMap<String>>::empty());
    assert(lib_mounts(hosts, b) + bin_mounts(all_entries(bgroups.take(0))) =~= lib_mounts(
        hosts,
        b,
    ));
    for i in 0..nb
        invariant
            nb == bgroups.len(),
            bgroups == driver_spec.bins.val_seq(),
            nested_wf(driver_spec.bins),
            driver_spec.bins.key_seq().len() == bgroups.len(),
            mount_views(mounts@) == lib_mounts(hosts, b) + bin_mounts(
                all_entries(bgroups.take(i as int)),
            ),
    {
        let bins = driver_spec.bins.value_at(i);
        proof {
            driver_spec.bins.lemma_entry(i as int);
        }
        let ghost g = *bins;
        let ghost pre = all_entries(bgroups.take(i as int));
        let m = bins.len();
        proof {
            bins.lemma_view();
        }
        for j in 0..m
            invariant
                m == g.key_seq().len(),
                g == *bins,
                g.wf(),
                g.val_seq().len() == g.key_seq().len(),
                mount_views(mounts@) == lib_mounts(hosts, b) + bin_mounts(
                    pre + group_entries(g).take(j as int),
                ),
        {
            let base_name = bins.key_at(j);
            let host_path = bins.value_at(j);
            let ghost p = pre + group_entries(g).take(j as int);
            let ghost e = (base_name@, host_path@);
            assert(group_entries(g)[j as int] == e);
            assert(pre + group_entries(g).take(j + 1) =~= p.push(e));
            assert(p.push(e).drop_last() =~= p);
            let container_path = make_path_in(USR_BIN_PATH, base_name.as_str());
            let ghost before_m = mounts@;
            mounts.push(Mount::new(host_path.as_str(), container_path.as_str()));
            assert(mount_views(mounts@) =~= mount_views(before_m).push(
                bind_mount(e.1, join_path("/usr/bin"@, e.0)),
            ));
            assert(bin_mounts(p.push(e)) == bin_mounts(p).push(
                bind_mount(e.1, join_path("/usr/bin"@, e.0)),
            ));
            assert(lib_mounts(hosts, b) + bin_mounts(p.push(e)) =~= (lib_mounts(hosts, b)
                + bin_mounts(p)).push(bind_mount(e.1, join_path("/usr/bin"@, e.0))));
        }
        assert(group_entries(g).take(m as int) =~= group_entries(g));
        assert(bgroups.take(i + 1).drop_last() =~= bgroups.take(i as int));
        assert(bgroups.take(i + 1).last() == g);
        assert(all_entries(bgroups.take(i + 1)) == pre + group_entries(g));
    }
    assert(bgroups.take(nb as int) =~= bgroups);
    proof {
        let lm = lib_mounts(hosts, b);
        let bm = bin_mounts(all_entries(bgroups));
        assert forall|i: int, j: int|
            0 <= i < groups.len() && 0 <= j < groups[i].val_seq().len() implies mount_views(
            mounts@,
        ).contains(
            bind_mount(
                #[trigger] groups[i].val_seq()[j]@,
                "/usr/lib64"@ + seq!['/'] + b[groups[i].val_seq()[j]@],
            ),
        ) by {
            lemma_every_library_mounted(groups, b, i, j);
            let q = choose|q: int|
                0 <= q < lm.len() && #[trigger] lm[q] == bind_mount(
                    groups[i].val_seq()[j]@,
                    "/usr/lib64"@ + seq!['/'] + b[groups[i].val_seq()[j]@],
                );
            assert(mount_views(mounts@)[q] == lm[q]);
        }
        lemma_preload_envs(hosts, b);
        assert forall|i: int, j: int|
            0 <= i < groups.len() && 0 <= j < groups[i].val_seq().len() && is_nvml(
                b[groups[i].val_seq()[j]@],
            ) implies views_of(envs@).contains(
            "LD_PRELOAD=/usr/lib64/"@ + b[#[trigger] groups[i].val_seq()[j]@],
        ) by {
            lemma_host_listed(groups, i, j);
            let q = choose|q: int|
                0 <= q < hosts.len() && #[trigger] hosts[q] == groups[i].val_seq()[j]@;
            let pe = preload_envs(hosts, b);
            assert(pe.contains("LD_PRELOAD=/usr/lib64/"@ + b[hosts[q]]));
            let w = choose|w: int| 0 <= w < pe.len() && pe[w] == "LD_PRELOAD=/usr/lib64/"@ + b[hosts[q]];
            assert(views_of(envs@)[w + 1] == pe[w]);
        }
        assert forall|i: int, j: int|
            0 <= i < bgroups.len() && 0 <= j < bgroups[i].key_seq().len() implies mount_views(
            mounts@,
        ).contains(
            bind_mount(
                bgroups[i].val_seq()[j]@,
                "/usr/bin"@ + seq!['/'] + #[trigger] bgroups[i].key_seq()[j],
            ),
        ) by {
            lemma_every_binary_mounted(bgroups, i, j);
            let q = choose|q: int|
                0 <= q < bm.len() && #[trigger] bm[q] == bind_mount(
                    bgroups[i].val_seq()[j]@,
                    "/usr/bin"@ + seq!['/'] + bgroups[i].key_seq()[j],
                );
            assert(mount_views(mounts@)[lm.len() + q] == bm[q]);
        }
    }
    container_edits.env = envs;
    container_edits.mounts = mounts;
    cdi_spec.container_edits = Some(container_edits);
    Ok(cdi_spec)
}

/// `/usr/lib64/base`.
fn make_lib_path(base: &str) -> (r: String)
    ensures
        r@ == lib_container_path(base@),
{
    proof {
        reveal_strlit("/usr/lib64");
    }
    make_path_in(X86_64_LIB64_DIR, base)
}

/// `dir/name`.
fn make_path_in(dir: &str, name: &str) -> (r: String)
    ensures
        r@ == join_path(dir@, name@),
{
    crate::driver_spec::make_path(dir, name)
}

} // verus!
