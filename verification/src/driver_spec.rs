//! The GPU driver description: which libraries and binaries of an installed
//! driver a template asks for, and where they are found.

use vstd::prelude::*;
use vstd::string::*;

use crate::string_map::StringMap;
use crate::text::{
    chars_of, last_match, lemma_last_match, lemma_take_one_more, occurs_in, rfind_chars, views_of,
};

verus! {

/// The driver's metadata.
#[derive(Clone, Debug)]
pub struct Metadata {
    pub driver_version: String,
    pub driver_path: String,
    pub product_vendor: String,
    pub product_type: String,
    pub annotations: StringMap<String>,
}

/// The libraries and binaries that a driver configuration asks for, by group.
#[derive(Clone, Debug)]
pub struct Template {
    pub libs: StringMap<Vec<String>>,
    pub bins: StringMap<Vec<String>>,
    pub options: StringMap<Vec<String>>,
}

/// The libraries and binaries found, by group: each name with its path.
#[derive(Clone, Debug)]
pub struct DriverSpec {
    pub libs: StringMap<StringMap<String>>,
    pub bins: StringMap<StringMap<String>>,
}

/// A driver: its metadata and what was found of it.
#[derive(Clone, Debug)]
pub struct DriverInfo {
    pub metadata: Metadata,
    pub spec: DriverSpec,
}

/// A map of strings to strings, as characters.
pub open spec fn str_map_view(m: StringMap<String>) -> Map<Seq<char>, Seq<char>> {
    m@.map_values(|s: String| s@)
}

/// A map of groups of string maps, as characters.
pub open spec fn nested_view(m: StringMap<StringMap<String>>) -> Map<
    Seq<char>,
    Map<Seq<char>, Seq<char>>,
> {
    m@.map_values(|i: StringMap<String>| str_map_view(i))
}

/// A map of groups whose groups are well formed too.
pub open spec fn nested_wf(m: StringMap<StringMap<String>>) -> bool {
    &&& m.wf()
    &&& forall|k: Seq<char>| #[trigger] m@.contains_key(k) ==> m@[k].wf()
}

/// `dir/name`.
pub open spec fn join_path(dir: Seq<char>, name: Seq<char>) -> Seq<char> {
    dir + seq!['/'] + name
}

/// The libraries of `targets` found among `found_libs` (library name to file
/// name), each with its path in `dir`.
pub open spec fn lib_paths(
    targets: Seq<Seq<char>>,
    found_libs: Map<Seq<char>, Seq<char>>,
    dir: Seq<char>,
) -> Map<Seq<char>, Seq<char>> {
    Map::new(
        |lib: Seq<char>| targets.contains(lib) && found_libs.contains_key(lib),
        |lib: Seq<char>| join_path(dir, found_libs[lib]),
    )
}

/// The binaries of `targets` whose path in `dir` is among `present`, each
/// with that path.
pub open spec fn bin_paths(targets: Seq<Seq<char>>, present: Seq<Seq<char>>, dir: Seq<char>) -> Map<
    Seq<char>,
    Seq<char>,
> {
    Map::new(
        |bin: Seq<char>| targets.contains(bin) && present.contains(join_path(dir, bin)),
        |bin: Seq<char>| join_path(dir, bin),
    )
}

/// The characters of `.so.`.
pub open spec fn so_marker() -> Seq<char> {
    seq!['.', 's', 'o', '.']
}

/// The library name of a file name: the file name up to and including the
/// `.so` of its last `.so.` (so `libcuda.so.1` is `libcuda.so`); none for
/// a file name without `.so.`.
pub open spec fn library_name_of(file_name: Seq<char>) -> Option<Seq<char>> {
    if occurs_in(file_name, so_marker()) {
        Some(file_name.subrange(0, last_match(file_name, so_marker()) + 3))
    } else {
        None
    }
}

/// The library name of a file of the driver's directory (see
/// `library_name_of`).
pub fn library_name(file_name: &str) -> (r: Option<String>)
    ensures
        match r {
            Some(s) => library_name_of(file_name@) == Some(s@),
            None => library_name_of(file_name@) is None,
        },
{
    proof {
        reveal_strlit(".so.");
    }
    let hay = chars_of(file_name);
    let needle = chars_of(".so.");
    assert(needle@ =~= so_marker());
    match rfind_chars(&hay, &needle) {
        Some(index) => {
            proof {
                lemma_last_match(file_name@, so_marker(), index as int);
            }
            assert(index + 4 <= hay.len());
            let lib = file_name.substring_char(0, index + 3);
            Some(String::from_str(lib))
        },
        None => None,
    }
}

/// The libraries among file names `names`: each library name with the
/// file name it was found in; a later file of the same library wins.
pub open spec fn libraries_of(names: Seq<Seq<char>>) -> Map<Seq<char>, Seq<char>>
    decreases names.len(),
{
    if names.len() == 0 {
        Map::empty()
    } else {
        let m = libraries_of(names.drop_last());
        match library_name_of(names.last()) {
            Some(l) => m.insert(l, names.last()),
            None => m,
        }
    }
}

/// The libraries among the files of a driver's directory (see
/// `libraries_of`).
pub fn libraries_from_file_names(file_names: &Vec<String>) -> (r: StringMap<String>)
    ensures
        r.wf(),
        str_map_view(r) == libraries_of(views_of(file_names@)),
        forall|k: int|
            0 <= k < file_names@.len() ==> (library_name_of(#[trigger] file_names@[k]@) matches Some(
                l,
            ) ==> str_map_view(r).contains_key(l)),
        forall|l: Seq<char>|
            #[trigger] str_map_view(r).contains_key(l) ==> exists|k: int|
                0 <= k < file_names@.len() && library_name_of(#[trigger] file_names@[k]@) == Some(l)
                    && str_map_view(r)[l] == file_names@[k]@,
{
    let mut libraries: StringMap<String> = StringMap::new();
    let ghost names = views_of(file_names@);
    assert(names.take(0) =~= Seq::<Seq<char>>::empty());
    assert(str_map_view(libraries) =~= Map::<Seq<char>, Seq<char>>::empty());
    let n = file_names.len();
    for i in 0..n
        invariant
            n == file_names@.len(),
            names == views_of(file_names@),
            libraries.wf(),
            str_map_view(libraries) == libraries_of(names.take(i as int)),
    {
        let filename = &file_names[i];
        let ghost before = str_map_view(libraries);
        assert(names.take(i + 1).drop_last() =~= names.take(i as int));
        assert(names.take(i + 1).last() == filename@);
        match library_name(filename.as_str()) {
            Some(lib) => {
                let ghost l = lib@;
                libraries.insert(lib, filename.clone());
                assert(str_map_view(libraries) =~= before.insert(l, filename@));
            },
            None => {},
        }
    }
    assert(names.take(n as int) =~= names);
    proof {
        crate::laws::lemma_libraries_of(names);
        assert forall|k: int|
            0 <= k < file_names@.len() implies (library_name_of(#[trigger] file_names@[k]@) matches Some(
            l,
        ) ==> str_map_view(libraries).contains_key(l)) by {
            assert(names[k] == file_names@[k]@);
            if library_name_of(names[k]) is Some {
                let l = library_name_of(names[k])->Some_0;
                assert(str_map_view(libraries).contains_key(l));
            }
        }
        assert forall|l: Seq<char>| #[trigger] str_map_view(libraries).contains_key(l) implies exists|k: int|
            0 <= k < file_names@.len() && library_name_of(#[trigger] file_names@[k]@) == Some(l)
                && str_map_view(libraries)[l] == file_names@[k]@ by {
            let k = choose|k: int|
                0 <= k < names.len() && #[trigger] library_name_of(names[k]) == Some(l)
                    && libraries_of(names)[l] == names[k] && forall|j: int|
                    k < j < names.len() ==> library_name_of(#[trigger] names[j]) != Some(l);
            assert(names[k] == file_names@[k]@);
        }
    }
    libraries
}

/// Builds `dir/name`.
pub fn make_path(dir: &str, name: &str) -> (r: String)
    ensures
        r@ == join_path(dir@, name@),
{
    proof {
        reveal_strlit("/");
    }
    let mut s = String::from_str(dir);
    s.append("/");
    s.append(name);
    s
}

/// Whether `path` is among `present`.
fn is_present(present: &Vec<String>, path: &String) -> (r: bool)
    ensures
        r == views_of(present@).contains(path@),
{
    let n = present.len();
    for i in 0..n
        invariant
            n == present@.len(),
            forall|j: int| 0 <= j < i ==> present@[j]@ != path@,
    {
        if present[i] == *path {
            assert(views_of(present@)[i as int] == path@);
            return true;
        }
    }
    assert forall|j: int| 0 <= j < views_of(present@).len() implies views_of(present@)[j]
        != path@ by {
        assert(views_of(present@)[j] == present@[j]@);
    }
    false
}

impl Template {
    /// Well-formedness of the template's maps.
    pub open spec fn wf(&self) -> bool {
        &&& self.libs.wf()
        &&& self.bins.wf()
        &&& self.options.wf()
    }

    /// For each library group, the libraries of the group that are found in
    /// `libs` (library name to file name), with their paths in
    /// `driver_path`.
    pub fn update_libraries(&self, libs: StringMap<String>, driver_path: &str) -> (r: StringMap<
        StringMap<String>,
    >)
        requires
            self.wf(),
            libs.wf(),
        ensures
            nested_wf(r),
            r.key_seq() == self.libs.key_seq(),
            nested_view(r) == Map::new(
                |k: Seq<char>| self.libs@.contains_key(k),
                |k: Seq<char>| lib_paths(views_of(self.libs@[k]@), str_map_view(libs), driver_path@),
            ),            forall|k: Seq<char>, l: Seq<char>|
                #![trigger nested_view(r)[k].contains_key(l)]
                self.libs@.contains_key(k) ==> (nested_view(r)[k].contains_key(l) <==> views_of(
                    self.libs@[k]@,
                ).contains(l) && str_map_view(libs).contains_key(l)),
            forall|k: Seq<char>, l: Seq<char>|
                #![trigger nested_view(r)[k][l]]
                self.libs@.contains_key(k) && nested_view(r)[k].contains_key(l) ==> nested_view(
                    r,
                )[k][l] == driver_path@ + seq!['/'] + str_map_view(libs)[l],
    {
        let mut driver_libs: StringMap<StringMap<String>> = StringMap::new();
        let n = self.libs.len();
        proof {
            self.libs.lemma_view();
        }
        let ghost ks = self.libs.key_seq();
        let ghost found_libs = str_map_view(libs);
        for i in 0..n
            invariant
                self.wf(),
                libs.wf(),
                found_libs == str_map_view(libs),
                ks == self.libs.key_seq(),
                n == ks.len(),
                nested_wf(driver_libs),
                driver_libs.key_seq() == ks.take(i as int),
                nested_view(driver_libs) == Map::new(
                    |k: Seq<char>| ks.take(i as int).contains(k),
                    |k: Seq<char>| lib_paths(views_of(self.libs@[k]@), found_libs, driver_path@),
                ),
        {
            proof {
                self.libs.lemma_view();
            }
            let key = self.libs.key_at(i);
            let template_group = self.libs.value_at(i);
            proof {
                self.libs.lemma_entry(i as int);
            }
            let ghost targets = views_of(template_group@);
            let mut kv_updating: StringMap<String> = StringMap::new();
            let m = template_group.len();
            for j in 0..m
                invariant
                    libs.wf(),
                    found_libs == str_map_view(libs),
                    m == template_group@.len(),
                    targets == views_of(template_group@),
                    kv_updating.wf(),
                    str_map_view(kv_updating) == lib_paths(targets.take(j as int), found_libs, driver_path@),
            {
                let target_lib = &template_group[j];
                let ghost before = str_map_view(kv_updating);
                match libs.get(target_lib.as_str()) {
                    Some(real_name) => {
                        let lib_path = make_path(driver_path, real_name.as_str());
                        let k = target_lib.clone();
                        kv_updating.insert(k, lib_path);
                        assert(str_map_view(kv_updating) =~= before.insert(
                            target_lib@,
                            join_path(driver_path@, found_libs[target_lib@]),
                        ));
                    },
                    None => {
                        assert(!found_libs.contains_key(target_lib@));
                    },
                }
                assert(targets.take(j + 1) =~= targets.take(j as int).push(targets[j as int]));
                assert(targets[j as int] == target_lib@);
                proof {
                    lemma_take_one_more(targets, j as int);
                }
                assert(str_map_view(kv_updating) =~= lib_paths(
                    targets.take(j + 1),
                    found_libs,
                    driver_path@,
                ));
            }
            assert(targets.take(m as int) =~= targets);
            let ghost before = nested_view(driver_libs);
            assert(!driver_libs.key_seq().contains(ks[i as int])) by {
                if driver_libs.key_seq().contains(ks[i as int]) {
                    let w = choose|w: int| 0 <= w < i && ks.take(i as int)[w] == ks[i as int];
                    assert(ks[w] == ks[i as int]);
                }
            }
            let ghost kv_view = str_map_view(kv_updating);
            driver_libs.insert(key.clone(), kv_updating);
            assert(nested_view(driver_libs) =~= before.insert(ks[i as int], kv_view));
            assert(driver_libs.key_seq() =~= ks.take(i + 1));
            proof {
                driver_libs.lemma_view();
                assert forall|k: Seq<char>| #[trigger] driver_libs@.contains_key(k) implies driver_libs@[k].wf() by {
                    if k != key@ {
                        assert(before.contains_key(k));
                    }
                }
            }
            assert(nested_view(driver_libs) =~= Map::new(
                |k: Seq<char>| ks.take(i + 1).contains(k),
                |k: Seq<char>| lib_paths(views_of(self.libs@[k]@), found_libs, driver_path@),
            )) by {
                lemma_take_one_more(ks, i as int);
            }
        }
        assert(ks.take(n as int) =~= ks);
        assert(nested_view(driver_libs) =~= Map::new(
            |k: Seq<char>| self.libs@.contains_key(k),
            |k: Seq<char>| lib_paths(views_of(self.libs@[k]@), found_libs, driver_path@),
        ));
        driver_libs
    }

    /// For each binary group, the binaries of the group whose path in
    /// `driver_path` is among `present` (the paths found to exist), with
    /// those paths.
    pub fn update_binaries(&self, driver_path: &str, present: &Vec<String>) -> (r: StringMap<
        StringMap<String>,
    >)
        requires
            self.wf(),
        ensures
            nested_wf(r),
            r.key_seq() == self.bins.key_seq(),
            nested_view(r) == Map::new(
                |k: Seq<char>| self.bins@.contains_key(k),
                |k: Seq<char>| bin_paths(views_of(self.bins@[k]@), views_of(present@), driver_path@),
            ),            forall|k: Seq<char>, b: Seq<char>|
                #![trigger nested_view(r)[k].contains_key(b)]
                self.bins@.contains_key(k) ==> (nested_view(r)[k].contains_key(b) <==> views_of(
                    self.bins@[k]@,
                ).contains(b) && views_of(present@).contains(driver_path@ + seq!['/'] + b)),
            forall|k: Seq<char>, b: Seq<char>|
                #![trigger nested_view(r)[k][b]]
                self.bins@.contains_key(k) && nested_view(r)[k].contains_key(b) ==> nested_view(
                    r,
                )[k][b] == driver_path@ + seq!['/'] + b,
    {
        let mut driver_bins: StringMap<StringMap<String>> = StringMap::new();
        let n = self.bins.len();
        proof {
            self.bins.lemma_view();
        }
        let ghost ks = self.bins.key_seq();
        for i in 0..n
            invariant
                self.wf(),
                ks == self.bins.key_seq(),
                n == ks.len(),
                nested_wf(driver_bins),
                driver_bins.key_seq() == ks.take(i as int),
                nested_view(driver_bins) == Map::new(
                    |k: Seq<char>| ks.take(i as int).contains(k),
                    |k: Seq<char>| bin_paths(views_of(self.bins@[k]@), views_of(present@), driver_path@),
                ),
        {
            proof {
                self.bins.lemma_view();
            }
            let key = self.bins.key_at(i);
            let template_group = self.bins.value_at(i);
            proof {
                self.bins.lemma_entry(i as int);
            }
            let ghost targets = views_of(template_group@);
            let mut kv_updating: StringMap<String> = StringMap::new();
            let m = template_group.len();
            for j in 0..m
                invariant
                    m == template_group@.len(),
                    targets == views_of(template_group@),
                    kv_updating.wf(),
                    str_map_view(kv_updating) == bin_paths(targets.take(j as int), views_of(present@), driver_path@),
            {
                let target_bin = &template_group[j];
                let ghost before = str_map_view(kv_updating);
                let bin_path = make_path(driver_path, target_bin.as_str());
                if is_present(present, &bin_path) {
                    let k = target_bin.clone();
                    kv_updating.insert(k, bin_path);
                    assert(str_map_view(kv_updating) =~= before.insert(
                        target_bin@,
                        join_path(driver_path@, target_bin@),
                    ));
                }
                assert(targets[j as int] == target_bin@);
                proof {
                    lemma_take_one_more(targets, j as int);
                }
                assert(str_map_view(kv_updating) =~= bin_paths(
                    targets.take(j + 1),
                    views_of(present@),
                    driver_path@,
                ));
            }
            assert(targets.take(m as int) =~= targets);
            let ghost before = nested_view(driver_bins);
            assert(!driver_bins.key_seq().contains(ks[i as int])) by {
                if driver_bins.key_seq().contains(ks[i as int]) {
                    let w = choose|w: int| 0 <= w < i && ks.take(i as int)[w] == ks[i as int];
                    assert(ks[w] == ks[i as int]);
                }
            }
            let ghost kv_view = str_map_view(kv_updating);
            driver_bins.insert(key.clone(), kv_updating);
            assert(nested_view(driver_bins) =~= before.insert(ks[i as int], kv_view));
            assert(driver_bins.key_seq() =~= ks.take(i + 1));
            proof {
                driver_bins.lemma_view();
                assert forall|k: Seq<char>| #[trigger] driver_bins@.contains_key(k) implies driver_bins@[k].wf() by {
                    if k != key@ {
                        assert(before.contains_key(k));
                    }
                }
            }
            assert(nested_view(driver_bins) =~= Map::new(
                |k: Seq<char>| ks.take(i + 1).contains(k),
                |k: Seq<char>| bin_paths(views_of(self.bins@[k]@), views_of(present@), driver_path@),
            )) by {
                lemma_take_one_more(ks, i as int);
            }
        }
        assert(ks.take(n as int) =~= ks);
        assert(nested_view(driver_bins) =~= Map::new(
            |k: Seq<char>| self.bins@.contains_key(k),
            |k: Seq<char>| bin_paths(views_of(self.bins@[k]@), views_of(present@), driver_path@),
        ));
        driver_bins
    }
}

impl DriverInfo {
    /// The description of the driver installed in `driver_path`, by
    /// `template`: `origin_libs` maps each library name to the file found
    /// for it in that directory, and `present_bins` holds the paths of
    /// binaries found to exist.
    pub fn new(
        driver_version: &str,
        driver_path: &str,
        template: Template,
        origin_libs: StringMap<String>,
        present_bins: &Vec<String>,
    ) -> (r: Self)
        requires
            template.wf(),
            origin_libs.wf(),
        ensures
            r.metadata.product_vendor@ == seq!['n', 'v', 'i', 'd', 'i', 'a'],
            r.metadata.product_type@ == seq!['t', 'e', 's', 'l', 'a'],
            r.metadata.driver_version@ == driver_version@,
            r.metadata.driver_path@ == driver_path@,
            r.metadata.annotations.wf(),
            r.metadata.annotations@ == Map::<Seq<char>, String>::empty(),
            nested_wf(r.spec.libs),
            nested_wf(r.spec.bins),
            r.spec.libs.key_seq() == template.libs.key_seq(),
            r.spec.bins.key_seq() == template.bins.key_seq(),
            nested_view(r.spec.libs) == Map::new(
                |k: Seq<char>| template.libs@.contains_key(k),
                |k: Seq<char>|
                    lib_paths(views_of(template.libs@[k]@), str_map_view(origin_libs), driver_path@),
            ),
            nested_view(r.spec.bins) == Map::new(
                |k: Seq<char>| template.bins@.contains_key(k),
                |k: Seq<char>|
                    bin_paths(views_of(template.bins@[k]@), views_of(present_bins@), driver_path@),
            ),            forall|k: Seq<char>, l: Seq<char>|
                #![trigger nested_view(r.spec.libs)[k].contains_key(l)]
                template.libs@.contains_key(k) ==> (nested_view(r.spec.libs)[k].contains_key(l) <==> views_of(
                    template.libs@[k]@,
                ).contains(l) && str_map_view(origin_libs).contains_key(l)),
            forall|k: Seq<char>, l: Seq<char>|
                #![trigger nested_view(r.spec.libs)[k][l]]
                template.libs@.contains_key(k) && nested_view(r.spec.libs)[k].contains_key(l) ==> nested_view(
                    r.spec.libs,
                )[k][l] == driver_path@ + seq!['/'] + str_map_view(origin_libs)[l],
            forall|k: Seq<char>, b: Seq<char>|
                #![trigger nested_view(r.spec.bins)[k].contains_key(b)]
                template.bins@.contains_key(k) ==> (nested_view(r.spec.bins)[k].contains_key(b) <==> views_of(
                    template.bins@[k]@,
                ).contains(b) && views_of(present_bins@).contains(driver_path@ + seq!['/'] + b)),
            forall|k: Seq<char>, b: Seq<char>|
                #![trigger nested_view(r.spec.bins)[k][b]]
                template.bins@.contains_key(k) && nested_view(r.spec.bins)[k].contains_key(b) ==> nested_view(
                    r.spec.bins,
                )[k][b] == driver_path@ + seq!['/'] + b,
    {
        let ghost found = str_map_view(origin_libs);
        let driver_libs = template.update_libraries(origin_libs, driver_path);
        let driver_bins = template.update_binaries(driver_path, present_bins);
        proof {
            reveal_strlit("nvidia");
            reveal_strlit("tesla");
        }
        DriverInfo {
            metadata: Metadata {
                product_vendor: String::from_str("nvidia"),
                product_type: String::from_str("tesla"),
                driver_version: String::from_str(driver_version),
                driver_path: String::from_str(driver_path),
                annotations: StringMap::new(),
            },
            spec: DriverSpec { libs: driver_libs, bins: driver_bins },
        }
    }
}

} // verus!
