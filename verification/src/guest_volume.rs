//! Guest volumes: bind mounts whose source lives in the guest, marked by
//! `@guest` in the source path; the mount is passed from the guest to the
//! container with the marker and what follows it cut off.

use vstd::prelude::*;
use vstd::string::*;

use crate::text::{
    before_last, chars_of, clone_strings, lemma_last_match, occurs_in, rfind_chars, views_of,
};

verus! {

/// The marker of a source path that lives in the guest.
pub const GUEST_PREFIX: &'static str = "@guest";

/// Where the NCCL topology file is placed in the container.
pub const NCCL_XML_CONTAINER_PATH: &'static str = "/var/run/nvidia-topologyd/";

/// The characters of `@guest`.
pub open spec fn guest_marker() -> Seq<char> {
    seq!['@', 'g', 'u', 'e', 's', 't']
}

/// The characters of `bind`.
pub open spec fn bind_type() -> Seq<char> {
    seq!['b', 'i', 'n', 'd']
}

/// A mount of a container, as the OCI runtime spec describes it.
#[derive(Debug)]
pub struct OciMount {
    pub destination: String,
    pub mount_type: String,
    pub source: String,
    pub options: Vec<String>,
}

/// The abstract value of a mount.
pub struct MountView {
    pub destination: Seq<char>,
    pub mount_type: Seq<char>,
    pub source: Seq<char>,
    pub options: Seq<Seq<char>>,
}

impl View for OciMount {
    type V = MountView;

    open spec fn view(&self) -> MountView {
        MountView {
            destination: self.destination@,
            mount_type: self.mount_type@,
            source: self.source@,
            options: views_of(self.options@),
        }
    }
}

impl Clone for OciMount {
    fn clone(&self) -> (r: Self)
        ensures
            r@ == self@,
    {
        OciMount {
            destination: self.destination.clone(),
            mount_type: self.mount_type.clone(),
            source: self.source.clone(),
            options: clone_strings(&self.options),
        }
    }
}

/// A mount passed through from the guest to the container.
#[derive(Debug)]
pub struct GuestVolume {
    mount: OciMount,
}

impl GuestVolume {
    /// The mount that the volume passes to the container.
    pub closed spec fn mount_view(&self) -> MountView {
        self.mount@
    }

    /// The guest volume for mount `m`: its source is cut before the last
    /// `@guest`.
    pub fn new(m: &OciMount) -> (r: Self)
        ensures
            r.mount_view() == (MountView {
                destination: m.destination@,
                mount_type: m.mount_type@,
                source: before_last(m.source@, guest_marker()),
                options: views_of(m.options@),
            }),
    {
        let guest_src = extract_before_guest(m.source.as_str());
        let mnt = OciMount {
            destination: m.destination.clone(),
            mount_type: m.mount_type.clone(),
            source: String::from_str(guest_src),
            options: clone_strings(&m.options),
        };
        GuestVolume { mount: mnt }
    }

    /// The mounts of the volume: its one mount.
    pub fn get_volume_mount(&self) -> (r: Vec<OciMount>)
        ensures
            r@.len() == 1 && r@[0]@ == self.mount_view(),
    {
        let mut v: Vec<OciMount> = Vec::new();
        v.push(self.mount.clone());
        v
    }

    /// A guest volume has no device.
    pub fn get_device_id(&self) -> (r: Option<String>)
        ensures
            r is None,
    {
        None
    }
}

/// Whether mount `m` is a guest volume: a bind mount whose source holds
/// `@guest`.
pub fn is_guest_volume(m: &OciMount) -> (r: bool)
    ensures
        r == (m.mount_type@ == bind_type() && occurs_in(m.source@, guest_marker())),
{
    proof {
        reveal_strlit("bind");
    }
    let bind = String::from_str("bind");
    assert(bind@ =~= bind_type());
    m.mount_type == bind && is_guest_mount(m.source.as_str())
}

/// Whether source path `src` holds `@guest`.
pub fn is_guest_mount(src: &str) -> (r: bool)
    ensures
        r == occurs_in(src@, guest_marker()),
{
    proof {
        reveal_strlit("@guest");
    }
    let hay = chars_of(src);
    let needle = chars_of(GUEST_PREFIX);
    assert(needle@ =~= guest_marker());
    match rfind_chars(&hay, &needle) {
        Some(i) => {
            assert(crate::text::matches_at(hay@, needle@, i as int));
            true
        },
        None => false,
    }
}

/// The part of `input` before its last `@guest`; all of `input` when it
/// holds none.
pub fn extract_before_guest(input: &str) -> (r: &str)
    ensures
        r@ == before_last(input@, guest_marker()),
{
    proof {
        reveal_strlit("@guest");
    }
    let hay = chars_of(input);
    let needle = chars_of(GUEST_PREFIX);
    assert(needle@ =~= guest_marker());
    match rfind_chars(&hay, &needle) {
        Some(index) => {
            proof {
                lemma_last_match(input@, guest_marker(), index as int);
            }
            input.substring_char(0, index)
        },
        None => input,
    }
}

} // verus!
