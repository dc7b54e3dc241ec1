//! Properties that hold of the library as a whole: of the topology's
//! operations taken together, and of the paths and mounts it derives.

use vstd::prelude::*;
use vstd::string::*;

use crate::cdi_spec::{
    all_entries, all_hosts, bind_mount, is_nvml, preload_env, preload_envs, bin_mounts, group_entries, group_hosts, lib_container_path,
    lib_mounts,
};
use crate::driver_spec::{bin_paths, join_path, lib_paths, libraries_of, library_name_of, so_marker};
use crate::string_map::StringMap;
use crate::text::views_of;
use crate::pci_path::path_string;
use crate::text::{before_last, is_last_match, last_match, matches_at, occurs_in};
use crate::topology::{
    first_free_slot, has_device, insert_or_update, new_root_port, slot_free, slot_key,
    strategy_layout, strategy_switch, strategy_switch_for, with_path, with_root_ports, without_device, EndpointView,
    PortDeviceView, Strategy, TopologyError,
};

verus! {

/// Each device id occurs at most once on the root bus.
pub open spec fn ids_unique(m: Map<Seq<char>, EndpointView>) -> bool {
    forall|k1: Seq<char>, k2: Seq<char>|
        #![trigger m[k1], m[k2]]
        m.contains_key(k1) && m.contains_key(k2) && m[k1].device_id == m[k2].device_id ==> k1 == k2
}

/// The slot found for a new device is free, lies on the root bus's 32
/// slots, and every slot before it is taken.
pub proof fn lemma_first_free_slot(m: Map<Seq<char>, EndpointView>, from: nat)
    ensures
        match first_free_slot(m, from) {
            Some(s) => from <= s < 32 && slot_free(m, s) && forall|i: nat|
                from <= i < s ==> !slot_free(m, i),
            None => forall|i: nat| from <= i < 32 ==> !slot_free(m, i),
        },
    decreases 32 - from,
{
    if from < 32 && !slot_free(m, from) {
        lemma_first_free_slot(m, from + 1);
    }
}

/// Attaching a device to the root bus never displaces a device already there.
pub proof fn lemma_insert_keeps_devices(m: Map<Seq<char>, EndpointView>, ep: EndpointView)
    ensures
        forall|k: Seq<char>| #[trigger]
            m.contains_key(k) ==> insert_or_update(m, ep).0.contains_key(k) || (
            m[k].device_id == ep.device_id),
        forall|k: Seq<char>|
            #![trigger m[k]]
            m.contains_key(k) && m[k].device_id != ep.device_id ==> insert_or_update(m, ep).0[k]
                == m[k],
{
    lemma_first_free_slot(m, 0);
}

/// A device that was registered successfully is then found on the root bus.
pub proof fn lemma_registered_device_is_found(m: Map<Seq<char>, EndpointView>, ep: EndpointView)
    requires
        insert_or_update(m, ep).2 is Ok,
    ensures
        has_device(insert_or_update(m, ep).0, ep.device_id),
{
    let out = insert_or_update(m, ep);
    if !has_device(m, ep.device_id) {
        let s = first_free_slot(m, 0)->Some_0;
        assert(out.0.contains_key(slot_key(s)));
    } else {
        let key = path_string(ep.pci_path);
        if m.contains_key(key) {
        } else {
            assert(out.0.contains_key(key));
        }
    }
}

/// A removed device is no longer found on the root bus, and every other
/// device stays where it was.
pub proof fn lemma_removed_device_is_gone(m: Map<Seq<char>, EndpointView>, id: Seq<char>)
    ensures
        !has_device(without_device(m, id), id),
        forall|k: Seq<char>|
            #![trigger m[k]]
            m.contains_key(k) && m[k].device_id != id ==> without_device(m, id).contains_key(k)
                && without_device(m, id)[k] == m[k],
{
}

/// Removing a newly registered device undoes its registration: the root
/// bus is as before, and the only key that held the device is its slot's.
pub proof fn lemma_remove_undoes_register(m: Map<Seq<char>, EndpointView>, ep: EndpointView)
    requires
        !has_device(m, ep.device_id),
        insert_or_update(m, ep).2 is Ok,
    ensures
        without_device(insert_or_update(m, ep).0, ep.device_id) == m,
        forall|k: Seq<char>|
            #![trigger insert_or_update(m, ep).0[k]]
            insert_or_update(m, ep).0.contains_key(k) && insert_or_update(m, ep).0[k].device_id
                == ep.device_id ==> k == slot_key(first_free_slot(m, 0)->Some_0),
{
    lemma_first_free_slot(m, 0);
    let s = first_free_slot(m, 0)->Some_0;
    let n = insert_or_update(m, ep).0;
    assert(without_device(n, ep.device_id) =~= m);
}

/// Registering a device a second time, with the endpoint as the first
/// registration left it, changes nothing and gives the same path.
pub proof fn lemma_register_idempotent(m: Map<Seq<char>, EndpointView>, ep: EndpointView)
    requires
        insert_or_update(m, ep).2 is Ok,
    ensures
        insert_or_update(insert_or_update(m, ep).0, insert_or_update(m, ep).1) == insert_or_update(
            m,
            ep,
        ),
{
    let out = insert_or_update(m, ep);
    lemma_registered_device_is_found(m, ep);
    if !has_device(m, ep.device_id) {
        let s = first_free_slot(m, 0)->Some_0;
        assert(out.1 == with_path(ep, seq![s as u8]));
        assert(out.0.contains_key(path_string(out.1.pci_path)));
    } else {
        let key = path_string(ep.pci_path);
        if !m.contains_key(key) {
            assert(out.0.contains_key(key));
        }
    }
}

/// The path that a registration gives is where the device now is and what
/// its endpoint records. A new device takes the lowest free slot among the
/// root bus's 32, and fails only when all of them are taken; a known device
/// keeps its reported path, and is moved there when that key is free.
pub proof fn lemma_register_path(m: Map<Seq<char>, EndpointView>, ep: EndpointView)
    ensures
        ({
            let out = insert_or_update(m, ep);
            &&& out.2 matches Ok(p) ==> out.1 == with_path(ep, p) && out.0.contains_key(
                path_string(p),
            )
            &&& !has_device(m, ep.device_id) ==> match out.2 {
                Ok(p) => p.len() == 1 && p[0] < 32 && !m.contains_key(path_string(p))
                    && out.0 == m.insert(path_string(p), out.1) && out.0[path_string(p)].device_id
                    == ep.device_id && forall|i: u8|
                    i < p[0] ==> m.contains_key(#[trigger] path_string(seq![i])),
                Err(e) => e == TopologyError::PciPathAllocationFailed && out.0 == m && forall|i: u8|
                    i < 32 ==> m.contains_key(#[trigger] path_string(seq![i])),
            }
            &&& has_device(m, ep.device_id) ==> out.2 == Ok::<Seq<u8>, TopologyError>(ep.pci_path)
                && out.1 == ep && (m.contains_key(path_string(ep.pci_path)) ==> out.0 == m)
                && (!m.contains_key(path_string(ep.pci_path)) ==> out.0[path_string(ep.pci_path)]
                == ep && forall|k: Seq<char>|
                #![trigger out.0[k]]
                out.0.contains_key(k) && k != path_string(ep.pci_path) ==> m.contains_key(k)
                    && out.0[k] == m[k] && m[k].device_id != ep.device_id)
        }),
{
    let out = insert_or_update(m, ep);
    lemma_first_free_slot(m, 0);
    if !has_device(m, ep.device_id) {
        match first_free_slot(m, 0) {
            Some(s) => {
                let p = seq![s as u8];
                assert(p[0] == s);
                assert(out.1.pci_path == p);
                assert(with_path(ep, p) == out.1);
                assert forall|i: u8| i < p[0] implies m.contains_key(#[trigger] path_string(seq![i])) by {
                    assert(!slot_free(m, i as nat));
                    assert(slot_key(i as nat) == path_string(seq![i]));
                }
            },
            None => {
                assert forall|i: u8| i < 32 implies m.contains_key(#[trigger] path_string(seq![i])) by {
                    assert(!slot_free(m, i as nat));
                    assert(slot_key(i as nat) == path_string(seq![i]));
                }
            },
        }
    } else {
        assert(with_path(ep, ep.pci_path) == ep);
    }
}

/// Registering a device keeps each device id at most once on the root bus.
pub proof fn lemma_register_keeps_ids_unique(m: Map<Seq<char>, EndpointView>, ep: EndpointView)
    requires
        ids_unique(m),
    ensures
        ids_unique(insert_or_update(m, ep).0),
{
    let out = insert_or_update(m, ep);
    lemma_first_free_slot(m, 0);
    if !has_device(m, ep.device_id) {
        match first_free_slot(m, 0) {
            None => {},
            Some(s) => {
                let n = out.0;
                assert forall|k1: Seq<char>, k2: Seq<char>|
                    #![trigger n[k1], n[k2]]
                    n.contains_key(k1) && n.contains_key(k2) && n[k1].device_id == n[k2].device_id
                        implies k1 == k2 by {
                    if k1 != slot_key(s) && k2 != slot_key(s) {
                        assert(m[k1] == n[k1] && m[k2] == n[k2]);
                    } else if k1 == slot_key(s) && k2 != slot_key(s) {
                        assert(m.contains_key(k2) && m[k2].device_id == ep.device_id);
                    } else if k2 == slot_key(s) && k1 != slot_key(s) {
                        assert(m.contains_key(k1) && m[k1].device_id == ep.device_id);
                    }
                }
            },
        }
    } else {
        let key = path_string(ep.pci_path);
        if !m.contains_key(key) {
            let w = without_device(m, ep.device_id);
            let n = out.0;
            assert forall|k1: Seq<char>, k2: Seq<char>|
                #![trigger n[k1], n[k2]]
                n.contains_key(k1) && n.contains_key(k2) && n[k1].device_id == n[k2].device_id
                    implies k1 == k2 by {
                if k1 != key && k2 != key {
                    assert(m[k1] == n[k1] && m[k2] == n[k2]);
                } else if k1 == key && k2 != key {
                    assert(w.contains_key(k2));
                } else if k2 == key && k1 != key {
                    assert(w.contains_key(k1));
                }
            }
        }
    }
}

/// Removing a device keeps each device id at most once on the root bus.
pub proof fn lemma_remove_keeps_ids_unique(m: Map<Seq<char>, EndpointView>, id: Seq<char>)
    requires
        ids_unique(m),
    ensures
        ids_unique(without_device(m, id)),
{
    let n = without_device(m, id);
    assert forall|k1: Seq<char>, k2: Seq<char>|
        #![trigger n[k1], n[k2]]
        n.contains_key(k1) && n.contains_key(k2) && n[k1].device_id == n[k2].device_id implies k1
            == k2 by {
        assert(m[k1] == n[k1] && m[k2] == n[k2]);
    }
}

/// The numbers `1..=count`, as 32-bit keys, are `count` many.
pub proof fn lemma_one_to_count_len(count: nat)
    requires
        count <= u32::MAX,
    ensures
        Set::new(|j: u32| 1 <= j <= count).finite(),
        Set::new(|j: u32| 1 <= j <= count).len() == count,
    decreases count,
{
    if count == 0 {
        assert(Set::new(|j: u32| 1 <= j <= count) =~= Set::<u32>::empty());
    } else {
        lemma_one_to_count_len((count - 1) as nat);
        let smaller = Set::new(|j: u32| 1 <= j <= count - 1);
        assert(Set::new(|j: u32| 1 <= j <= count) =~= smaller.insert(count as u32));
    }
}

/// The numbers `0..count`, as 32-bit keys, are `count` many.
pub proof fn lemma_below_count_len(count: nat)
    requires
        count <= u32::MAX + 1,
    ensures
        Set::new(|j: u32| j < count).finite(),
        Set::new(|j: u32| j < count).len() == count,
    decreases count,
{
    if count == 0 {
        assert(Set::new(|j: u32| j < count) =~= Set::<u32>::empty());
    } else {
        lemma_below_count_len((count - 1) as nat);
        let smaller = Set::new(|j: u32| j < count - 1);
        assert(Set::new(|j: u32| j < count) =~= smaller.insert((count - 1) as u32));
    }
}

/// Adding root ports `0..n` to a topology without root ports gives exactly
/// `n` root ports, `rp0` to `rp{n-1}`.
pub proof fn lemma_root_ports_on_empty_bus(n: u32)
    ensures
        with_root_ports(Map::empty(), n as int).len() == n,
        forall|i: u32| i < n ==> #[trigger] with_root_ports(Map::empty(), n as int)[i]
            == new_root_port(i),
{
    lemma_below_count_len(n as nat);
    assert(with_root_ports(Map::empty(), n as int).dom() =~= Set::new(|j: u32| j < n));
}

/// Once root ports `0..n` (n > 0) are present, adding root ports again
/// fails on root port 0.
pub proof fn lemma_root_ports_twice(m: Map<u32, PortDeviceView>, n: u32)
    requires
        n > 0,
    ensures
        with_root_ports(m, n as int).contains_key(0),
{
}

/// A switch laid out by a strategy has exactly `count` ports.
pub proof fn lemma_strategy_switch_ports(i: u32, count: nat, base: int)
    requires
        count <= u32::MAX,
    ensures
        strategy_switch(i, count as int, base).ports.len() == count,
{
    lemma_one_to_count_len(count);
    assert(strategy_switch(i, count as int, base).ports.dom() =~= Set::new(
        |j: u32| 1 <= j <= count,
    ));
}

/// How many ports a strategy gives each switch: all of them for one root
/// port, one each for multiple root ports, and an equal share for the hybrid
/// layout.
pub open spec fn per_switch_ports(num_switches: u32, num_switch_ports: u32, strategy: Strategy) -> nat {
    match strategy {
        Strategy::SingleRootPort => num_switch_ports as nat,
        Strategy::MultipleRootPorts => 1,
        Strategy::Hybrid => (num_switch_ports / num_switches) as nat,
    }
}

/// After a strategy ran on root ports `1..=last`, root port `i` of that
/// range has the strategy's switch, with as many ports as the strategy gives
/// each switch.
pub proof fn lemma_strategy_layout_switch(
    m: Map<u32, PortDeviceView>,
    last: int,
    num_switches: u32,
    num_switch_ports: u32,
    strategy: Strategy,
    i: u32,
)
    requires
        strategy == Strategy::Hybrid ==> num_switches > 0,
        1 <= i <= last,
    ensures
        strategy_layout(m, last, num_switches, num_switch_ports, strategy).contains_key(i),
        strategy_layout(m, last, num_switches, num_switch_ports, strategy)[i].switch == Some(
            strategy_switch_for(num_switches, num_switch_ports, strategy, i),
        ),
        strategy_switch_for(num_switches, num_switch_ports, strategy, i).ports.len()
            == per_switch_ports(num_switches, num_switch_ports, strategy),
{
    match strategy {
        Strategy::SingleRootPort => {
            lemma_strategy_switch_ports(i, num_switch_ports as nat, 0);
        },
        Strategy::MultipleRootPorts => {
            lemma_strategy_switch_ports(i, 1, i - 1);
        },
        Strategy::Hybrid => {
            let per = num_switch_ports / num_switches;
            lemma_strategy_switch_ports(i, per as nat, (i - 1) * per);
        },
    }
}

/// The source that a guest volume keeps is a prefix of the given
/// source; when the source holds `@guest`, the marker follows right after
/// the kept part and does not occur again later.
pub proof fn lemma_before_last_is_prefix(hay: Seq<char>, needle: Seq<char>)
    ensures
        before_last(hay, needle).len() <= hay.len(),
        before_last(hay, needle) == hay.subrange(0, before_last(hay, needle).len() as int),
        occurs_in(hay, needle) ==> is_last_match(hay, needle, before_last(hay, needle).len() as int),
{
    if occurs_in(hay, needle) {
        let w = choose|i: int| #[trigger] matches_at(hay, needle, i);
        lemma_last_match_exists(hay, needle, w);
        let i = last_match(hay, needle);
        assert(is_last_match(hay, needle, i));
    } else {
        assert(hay.subrange(0, hay.len() as int) =~= hay);
    }
}

/// If `needle` occurs at `w`, it has a last occurrence.
pub proof fn lemma_last_match_exists(hay: Seq<char>, needle: Seq<char>, w: int)
    requires
        matches_at(hay, needle, w),
    ensures
        exists|i: int| is_last_match(hay, needle, i),
    decreases hay.len() - w,
{
    if !is_last_match(hay, needle, w) {
        let w2 = choose|j: int| w < j && #[trigger] matches_at(hay, needle, j);
        lemma_last_match_exists(hay, needle, w2);
    }
}

/// A library name is a prefix of its file name that ends in `.so` and is
/// followed by a dot, and no `.so.` of the file name starts after it begins
/// its own `.so`; a file name has none exactly when `.so.` does not occur
/// in it.
pub proof fn lemma_library_name_is_prefix(file_name: Seq<char>)
    ensures
        library_name_of(file_name) matches Some(l) ==> {
            &&& l.len() < file_name.len()
            &&& l == file_name.subrange(0, l.len() as int)
            &&& l.subrange(l.len() - 3, l.len() as int) == seq!['.', 's', 'o']
            &&& file_name[l.len() as int] == '.'
            &&& forall|j: int|
                l.len() - 3 < j ==> !#[trigger] matches_at(file_name, so_marker(), j)
        },
        library_name_of(file_name) is None <==> forall|j: int|
            !#[trigger] matches_at(file_name, so_marker(), j),
        so_marker() == seq!['.', 's', 'o', '.'],
{
    if occurs_in(file_name, so_marker()) {
        let w = choose|i: int| #[trigger] matches_at(file_name, so_marker(), i);
        lemma_last_match_exists(file_name, so_marker(), w);
        let i = last_match(file_name, so_marker());
        assert(is_last_match(file_name, so_marker(), i));
        let l = file_name.subrange(0, i + 3);
        assert(file_name.subrange(i, i + 4)[3] == '.');
        let m = file_name.subrange(i, i + 4);
        assert(m == so_marker());
        assert(l.subrange(l.len() - 3, l.len() as int) =~= seq!['.', 's', 'o']) by {
            assert(l.subrange(l.len() - 3, l.len() as int)[0] == m[0]);
            assert(l.subrange(l.len() - 3, l.len() as int)[1] == m[1]);
            assert(l.subrange(l.len() - 3, l.len() as int)[2] == m[2]);
        }
    }
}

/// Every library and binary path that a driver description records lies in
/// the driver's directory.
pub proof fn lemma_paths_in_driver_dir(
    targets: Seq<Seq<char>>,
    found: Map<Seq<char>, Seq<char>>,
    present: Seq<Seq<char>>,
    dir: Seq<char>,
)
    ensures
        forall|l: Seq<char>| #[trigger]
            lib_paths(targets, found, dir).contains_key(l) ==> lib_paths(targets, found, dir)[l]
                == join_path(dir, found[l]),
        forall|b: Seq<char>| #[trigger]
            bin_paths(targets, present, dir).contains_key(b) ==> present.contains(
                bin_paths(targets, present, dir)[b],
            ) && bin_paths(targets, present, dir)[b] == join_path(dir, b),
{
}

/// The CDI description mounts one read-only bind mount per library, under
/// `/usr/lib64`, followed by one per binary, under `/usr/bin`.
pub proof fn lemma_cdi_mounts(
    hosts: Seq<Seq<char>>,
    b: Map<Seq<char>, Seq<char>>,
    entries: Seq<(Seq<char>, Seq<char>)>,
)
    ensures
        lib_mounts(hosts, b).len() == hosts.len(),
        bin_mounts(entries).len() == entries.len(),
        forall|k: int|
            0 <= k < hosts.len() ==> #[trigger] lib_mounts(hosts, b)[k] == bind_mount(
                hosts[k],
                lib_container_path(b[hosts[k]]),
            ),
        forall|k: int|
            0 <= k < entries.len() ==> #[trigger] bin_mounts(entries)[k] == bind_mount(
                entries[k].1,
                join_path("/usr/bin"@, entries[k].0),
            ),
    decreases hosts.len() + entries.len(),
{
    if hosts.len() > 0 {
        lemma_cdi_mounts(hosts.drop_last(), b, entries);
        assert forall|k: int| 0 <= k < hosts.len() implies #[trigger] lib_mounts(hosts, b)[k]
            == bind_mount(hosts[k], lib_container_path(b[hosts[k]])) by {
            if k < hosts.len() - 1 {
                assert(hosts.drop_last()[k] == hosts[k]);
            }
        }
    }
    if entries.len() > 0 {
        lemma_cdi_mounts(Seq::empty(), b, entries.drop_last());
        assert forall|k: int| 0 <= k < entries.len() implies #[trigger] bin_mounts(entries)[k]
            == bind_mount(entries[k].1, join_path("/usr/bin"@, entries[k].0)) by {
            if k < entries.len() - 1 {
                assert(entries.drop_last()[k] == entries[k]);
            }
        }
    }
}

/// Every file of a directory listing whose name holds `.so.` gives its
/// library an entry, no other library gets one, and each library is mapped
/// to the last listed file of that library.
pub proof fn lemma_libraries_of(names: Seq<Seq<char>>)
    ensures
        forall|l: Seq<char>|
            #![trigger libraries_of(names).contains_key(l)]
            libraries_of(names).contains_key(l) <==> exists|k: int|
                0 <= k < names.len() && #[trigger] library_name_of(names[k]) == Some(l),
        forall|l: Seq<char>|
            #![trigger libraries_of(names)[l]]
            libraries_of(names).contains_key(l) ==> exists|k: int|
                0 <= k < names.len() && #[trigger] library_name_of(names[k]) == Some(l)
                    && libraries_of(names)[l] == names[k] && forall|j: int|
                    k < j < names.len() ==> library_name_of(#[trigger] names[j]) != Some(l),
    decreases names.len(),
{
    if names.len() > 0 {
        let p = names.drop_last();
        let x = names.last();
        let n = names.len() - 1;
        lemma_libraries_of(p);
        assert forall|k: int| 0 <= k < p.len() implies #[trigger] p[k] == names[k] by {}
        let r = libraries_of(names);
        let rp = libraries_of(p);
        assert forall|l: Seq<char>| #[trigger] r.contains_key(l) <==> exists|k: int|
            0 <= k < names.len() && #[trigger] library_name_of(names[k]) == Some(l) by {
            if r.contains_key(l) {
                if library_name_of(x) == Some(l) {
                    assert(library_name_of(names[n]) == Some(l));
                } else {
                    assert(rp.contains_key(l));
                    let k = choose|k: int| 0 <= k < p.len() && #[trigger] library_name_of(p[k]) == Some(l);
                    assert(library_name_of(names[k]) == Some(l));
                }
            }
            if exists|k: int| 0 <= k < names.len() && #[trigger] library_name_of(names[k]) == Some(l) {
                let k = choose|k: int| 0 <= k < names.len() && #[trigger] library_name_of(names[k]) == Some(l);
                if k < n {
                    assert(library_name_of(p[k]) == Some(l));
                    assert(rp.contains_key(l));
                }
            }
        }
        assert forall|l: Seq<char>| #[trigger] r.contains_key(l) implies exists|k: int|
            0 <= k < names.len() && #[trigger] library_name_of(names[k]) == Some(l) && r[l] == names[k]
                && forall|j: int| k < j < names.len() ==> library_name_of(#[trigger] names[j]) != Some(l) by {
            if library_name_of(x) == Some(l) {
                assert(library_name_of(names[n]) == Some(l) && r[l] == names[n]);
            } else {
                assert(rp.contains_key(l));
                let k = choose|k: int|
                    0 <= k < p.len() && #[trigger] library_name_of(p[k]) == Some(l) && rp[l] == p[k]
                        && forall|j: int| k < j < p.len() ==> library_name_of(#[trigger] p[j]) != Some(l);
                assert(library_name_of(names[k]) == Some(l) && r[l] == names[k]);
                assert forall|j: int| k < j < names.len() implies library_name_of(#[trigger] names[j])
                    != Some(l) by {
                    if j < n {
                        assert(names[j] == p[j]);
                    }
                }
            }
        }
    }
}

/// A template group's result holds exactly the libraries that the group
/// lists and that were found, each at `dir/` followed by its file name.
pub proof fn lemma_lib_paths(
    targets: Seq<Seq<char>>,
    found: Map<Seq<char>, Seq<char>>,
    dir: Seq<char>,
)
    ensures
        forall|l: Seq<char>|
            #![trigger lib_paths(targets, found, dir).contains_key(l)]
            lib_paths(targets, found, dir).contains_key(l) <==> (exists|t: int|
                0 <= t < targets.len() && #[trigger] targets[t] == l) && found.contains_key(l),
        forall|l: Seq<char>|
            #![trigger lib_paths(targets, found, dir)[l]]
            lib_paths(targets, found, dir).contains_key(l) ==> lib_paths(targets, found, dir)[l]
                == dir + seq!['/'] + found[l],
{
}

/// A template group's result holds exactly the binaries that the group
/// lists and whose path in `dir` exists, each at that path.
pub proof fn lemma_bin_paths(targets: Seq<Seq<char>>, present: Seq<Seq<char>>, dir: Seq<char>)
    ensures
        forall|b: Seq<char>|
            #![trigger bin_paths(targets, present, dir).contains_key(b)]
            bin_paths(targets, present, dir).contains_key(b) <==> (exists|t: int|
                0 <= t < targets.len() && #[trigger] targets[t] == b) && (exists|q: int|
                0 <= q < present.len() && #[trigger] present[q] == dir + seq!['/'] + b),
        forall|b: Seq<char>|
            #![trigger bin_paths(targets, present, dir)[b]]
            bin_paths(targets, present, dir).contains_key(b) ==> bin_paths(targets, present, dir)[b]
                == dir + seq!['/'] + b,
{
}

/// The entries of a group of binaries are its names with their host paths,
/// in order.
pub proof fn lemma_group_entries(g: StringMap<String>)
    requires
        g.wf(),
    ensures
        group_entries(g).len() == g@.len(),
        forall|j: int|
            0 <= j < g@.len() ==> g@.contains_key(#[trigger] group_entries(g)[j].0)
                && g@[group_entries(g)[j].0]@ == group_entries(g)[j].1,
{
    g.lemma_view();
    assert forall|j: int| 0 <= j < g@.len() implies g@.contains_key(#[trigger] group_entries(g)[j].0)
        && g@[group_entries(g)[j].0]@ == group_entries(g)[j].1 by {
        g.lemma_entry(j);
    }
}

/// The entries of several groups are those of the first groups followed by
/// those of the others; an empty list of groups gives none, and one group gives its own.
pub proof fn lemma_all_entries_concat(g1: Seq<StringMap<String>>, g2: Seq<StringMap<String>>)
    ensures
        all_entries(g1 + g2) == all_entries(g1) + all_entries(g2),
        g1.len() == 0 ==> all_entries(g1) == Seq::<(Seq<char>, Seq<char>)>::empty(),
        g2.len() == 1 ==> all_entries(g2) == group_entries(g2[0]),
    decreases g2.len(),
{
    if g2.len() == 1 {
        assert(g2.drop_last() =~= Seq::<StringMap<String>>::empty());
        assert(all_entries(g2.drop_last()) + group_entries(g2.last()) =~= group_entries(g2[0]));
    }
    if g2.len() == 0 {
        assert(g1 + g2 =~= g1);
        assert(all_entries(g2) =~= Seq::<(Seq<char>, Seq<char>)>::empty());
    } else {
        lemma_all_entries_concat(g1, g2.drop_last());
        assert((g1 + g2).drop_last() =~= g1 + g2.drop_last());
        assert((g1 + g2).last() == g2.last());
    }
}

/// The host paths of several library groups are those of the first groups
/// followed by those of the others; an empty list of groups gives none, and one group
/// gives its own.
pub proof fn lemma_all_hosts_concat(g1: Seq<StringMap<String>>, g2: Seq<StringMap<String>>)
    ensures
        all_hosts(g1 + g2) == all_hosts(g1) + all_hosts(g2),
        g1.len() == 0 ==> all_hosts(g1) == Seq::<Seq<char>>::empty(),
        g2.len() == 1 ==> all_hosts(g2) == group_hosts(g2[0]),
    decreases g2.len(),
{
    if g2.len() == 1 {
        assert(g2.drop_last() =~= Seq::<StringMap<String>>::empty());
        assert(all_hosts(g2.drop_last()) + group_hosts(g2.last()) =~= group_hosts(g2[0]));
    }
    if g2.len() == 0 {
        assert(g1 + g2 =~= g1);
        assert(all_hosts(g2) =~= Seq::<Seq<char>>::empty());
    } else {
        lemma_all_hosts_concat(g1, g2.drop_last());
        assert((g1 + g2).drop_last() =~= g1 + g2.drop_last());
        assert((g1 + g2).last() == g2.last());
    }
}

/// Every binary of every group is mounted read-only under `/usr/bin` by its
/// name.
pub proof fn lemma_every_binary_mounted(groups: Seq<StringMap<String>>, i: int, j: int)
    requires
        0 <= i < groups.len(),
        0 <= j < groups[i].key_seq().len(),
    ensures
        exists|p: int|
            0 <= p < bin_mounts(all_entries(groups)).len() && #[trigger] bin_mounts(
                all_entries(groups),
            )[p] == bind_mount(
                groups[i].val_seq()[j]@,
                "/usr/bin"@ + seq!['/'] + groups[i].key_seq()[j],
            ),
{
    let a = groups.take(i);
    let c = groups.skip(i + 1);
    assert(groups =~= a + (seq![groups[i]] + c));
    lemma_all_entries_concat(a, seq![groups[i]] + c);
    lemma_all_entries_concat(seq![groups[i]], c);
    assert(seq![groups[i]].drop_last() =~= Seq::<StringMap<String>>::empty());
    assert(all_entries(seq![groups[i]].drop_last()) =~= Seq::<(Seq<char>, Seq<char>)>::empty());
    assert(all_entries(seq![groups[i]]) =~= group_entries(groups[i]));
    let e = all_entries(groups);
    let p = all_entries(a).len() + j;
    assert(e[p] == group_entries(groups[i])[j]);
    lemma_cdi_mounts(Seq::empty(), Map::empty(), e);
    assert(bin_mounts(e)[p] == bind_mount(e[p].1, join_path("/usr/bin"@, e[p].0)));
}

/// Every library of every group is mounted read-only under `/usr/lib64` by
/// its base name.
pub proof fn lemma_every_library_mounted(
    groups: Seq<StringMap<String>>,
    b: Map<Seq<char>, Seq<char>>,
    i: int,
    j: int,
)
    requires
        0 <= i < groups.len(),
        0 <= j < groups[i].val_seq().len(),
    ensures
        exists|p: int|
            0 <= p < lib_mounts(all_hosts(groups), b).len() && #[trigger] lib_mounts(
                all_hosts(groups),
                b,
            )[p] == bind_mount(
                groups[i].val_seq()[j]@,
                "/usr/lib64"@ + seq!['/'] + b[groups[i].val_seq()[j]@],
            ),
{
    let a = groups.take(i);
    let c = groups.skip(i + 1);
    assert(groups =~= a + (seq![groups[i]] + c));
    lemma_all_hosts_concat(a, seq![groups[i]] + c);
    lemma_all_hosts_concat(seq![groups[i]], c);
    assert(seq![groups[i]].drop_last() =~= Seq::<StringMap<String>>::empty());
    assert(all_hosts(seq![groups[i]].drop_last()) =~= Seq::<Seq<char>>::empty());
    assert(all_hosts(seq![groups[i]]) =~= group_hosts(groups[i]));
    let h = all_hosts(groups);
    let p = all_hosts(a).len() + j;
    assert(h[p] == group_hosts(groups[i])[j]);
    assert(h[p] == groups[i].val_seq()[j]@);
    lemma_cdi_mounts(h, b, Seq::empty());
    assert(lib_mounts(h, b)[p] == bind_mount(h[p], lib_container_path(b[h[p]])));
}


/// Every host path of the library groups is listed among the host paths of
/// all groups.
pub proof fn lemma_host_listed(groups: Seq<StringMap<String>>, i: int, j: int)
    requires
        0 <= i < groups.len(),
        0 <= j < groups[i].val_seq().len(),
    ensures
        exists|p: int|
            0 <= p < all_hosts(groups).len() && #[trigger] all_hosts(groups)[p]
                == groups[i].val_seq()[j]@,
{
    let a = groups.take(i);
    let c = groups.skip(i + 1);
    assert(groups =~= a + (seq![groups[i]] + c));
    lemma_all_hosts_concat(a, seq![groups[i]] + c);
    lemma_all_hosts_concat(seq![groups[i]], c);
    assert(seq![groups[i]].drop_last() =~= Seq::<StringMap<String>>::empty());
    assert(all_hosts(seq![groups[i]].drop_last()) =~= Seq::<Seq<char>>::empty());
    assert(all_hosts(seq![groups[i]]) =~= group_hosts(groups[i]));
    let h = all_hosts(groups);
    let p = all_hosts(a).len() + j;
    assert(h[p] == group_hosts(groups[i])[j]);
    assert(h[p] == groups[i].val_seq()[j]@);
}

/// Whether `env` is the preload variable of one of the libraries at `hosts`
/// whose base name is that of the NVIDIA management library.
pub open spec fn preloads_library(hosts: Seq<Seq<char>>, b: Map<Seq<char>, Seq<char>>, env: Seq<char>) -> bool {
    exists|k: int|
        0 <= k < hosts.len() && is_nvml(b[hosts[k]]) && env == "LD_PRELOAD=/usr/lib64/"@
            + #[trigger] b[hosts[k]]
}

/// The preload variables are those of the libraries whose base name is
/// that of the NVIDIA management library, each pointing at the library's
/// place under `/usr/lib64`, in the order of the libraries.
pub proof fn lemma_preload_envs(hosts: Seq<Seq<char>>, b: Map<Seq<char>, Seq<char>>)
    ensures
        forall|k: int|
            0 <= k < hosts.len() && is_nvml(b[hosts[k]]) ==> #[trigger] preload_envs(hosts, b).contains(
                "LD_PRELOAD=/usr/lib64/"@ + b[hosts[k]],
            ),
        forall|q: int|
            0 <= q < preload_envs(hosts, b).len() ==> preloads_library(
                hosts,
                b,
                #[trigger] preload_envs(hosts, b)[q],
            ),
    decreases hosts.len(),
{
    reveal_strlit("LD_PRELOAD=/usr/lib64/");
    reveal_strlit("LD_PRELOAD=");
    reveal_strlit("/usr/lib64");
    if hosts.len() > 0 {
        let p = hosts.drop_last();
        let n = hosts.len() - 1;
        lemma_preload_envs(p, b);
        let e = preload_envs(hosts, b);
        let ep = preload_envs(p, b);
        assert(preload_env(b[hosts[n]]) =~= "LD_PRELOAD=/usr/lib64/"@ + b[hosts[n]]);
        assert(hosts.last() == hosts[n]);
        if is_nvml(b[hosts[n]]) {
            assert(e == ep.push("LD_PRELOAD=/usr/lib64/"@ + b[hosts[n]]));
        } else {
            assert(e == ep);
        }
        assert forall|k: int|
            0 <= k < hosts.len() && is_nvml(b[hosts[k]]) implies #[trigger] e.contains(
            "LD_PRELOAD=/usr/lib64/"@ + b[hosts[k]],
        ) by {
            if k < n {
                assert(p[k] == hosts[k]);
                assert(ep.contains("LD_PRELOAD=/usr/lib64/"@ + b[p[k]]));
                let w = choose|w: int| 0 <= w < ep.len() && ep[w] == "LD_PRELOAD=/usr/lib64/"@ + b[p[k]];
                assert(e[w] == ep[w]);
            } else {
                assert(e[e.len() - 1] == "LD_PRELOAD=/usr/lib64/"@ + b[hosts[n]]);
            }
        }
        assert forall|q: int| 0 <= q < e.len() implies preloads_library(hosts, b, #[trigger] e[q]) by {
            if q < ep.len() {
                assert(e[q] == ep[q]);
                assert(preloads_library(p, b, ep[q]));
                let k = choose|k: int|
                    0 <= k < p.len() && is_nvml(b[p[k]]) && ep[q] == "LD_PRELOAD=/usr/lib64/"@
                        + #[trigger] b[p[k]];
                assert(p[k] == hosts[k]);
                assert(0 <= k < hosts.len() && is_nvml(b[hosts[k]]) && e[q]
                    == "LD_PRELOAD=/usr/lib64/"@ + b[hosts[k]]);
            } else {
                assert(e[q] == "LD_PRELOAD=/usr/lib64/"@ + b[hosts[n]]);
                assert(0 <= n < hosts.len() && is_nvml(b[hosts[n]]) && e[q]
                    == "LD_PRELOAD=/usr/lib64/"@ + b[hosts[n]]);
            }
        }
    } else {
        assert(preload_envs(hosts, b).len() == 0);
    }
}

} // verus!
