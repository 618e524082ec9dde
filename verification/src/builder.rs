//! The build plan of the esp-nimble host stack: include directories,
//! preprocessor defines and the C source list. There is no CMake involved:
//! the host-only source list of the esp-nimble tree is spelled out here
//! directly. Reading directories, running the C compiler and generating
//! the bindings are left to the build script.
use vstd::prelude::*;

use crate::features::{
    concat_all, extra_defines, join_strings, names_view, pairs_view, sorted_le, sort_strings,
    spec_extra_defines, spec_join, spec_upstream_test_extra_defines, strings_view,
    upstream_test_extra_defines,
};
use crate::settings::{Entries, Settings};
use crate::text::{path_join, spec_path_join, str_eq, str_in};

verus! {

/// Files under `porting/nimble/src` which are not compiled: controller-only
/// timing, the FreeRTOS/ESP UART shim, the ESP-IDF port layer (which the
/// driver provides instead) and the memory pool (for which a 64-bit-correct
/// copy is compiled).
pub open spec fn spec_porting_src_excludes() -> Seq<Seq<char>> {
    seq![
        "hal_timer.c"@,
        "hal_uart.c"@,
        "os_cputime.c"@,
        "os_cputime_pwr2.c"@,
        "nimble_port.c"@,
        "os_mempool.c"@,
    ]
}

/// See [`spec_porting_src_excludes`].
pub fn porting_src_excludes() -> (r: Vec<&'static str>)
    ensures
        names_view(r@) == spec_porting_src_excludes(),
{
    let r = vec![
        "hal_timer.c",
        "hal_uart.c",
        "os_cputime.c",
        "os_cputime_pwr2.c",
        "nimble_port.c",
        "os_mempool.c",
    ];
    assert(names_view(r@) =~= spec_porting_src_excludes());
    r
}

/// Whether a file name has the extension `c` (`Path::extension`: the part
/// after the last dot, when that dot is not the first character).
pub open spec fn has_c_extension(name: Seq<char>) -> bool {
    name.len() >= 3 && name[name.len() - 1] == 'c' && name[name.len() - 2] == '.'
}

/// Whether `name` is a C source to compile: it has the `c` extension and is
/// not excluded.
pub open spec fn is_selected(name: Seq<char>, excludes: Seq<Seq<char>>) -> bool {
    has_c_extension(name) && !excludes.contains(name)
}

/// The names of `names` that [`is_selected`], in listing order.
pub open spec fn spec_selected(names: Seq<Seq<char>>, excludes: Seq<Seq<char>>) -> Seq<Seq<char>>
    decreases names.len(),
{
    if names.len() == 0 {
        Seq::empty()
    } else {
        let rest = spec_selected(names.drop_last(), excludes);
        if is_selected(names.last(), excludes) {
            rest.push(names.last())
        } else {
            rest
        }
    }
}

/// The paths under `dir` of the given file names.
pub open spec fn spec_paths_in(dir: Seq<char>, names: Seq<Seq<char>>) -> Seq<Seq<char>> {
    names.map_values(|n: Seq<char>| spec_path_join(dir, n))
}

/// `paths` are the C sources among the entries `names` of the directory
/// `dir`, sorted by name: the selected file names, in non-decreasing order,
/// joined onto `dir`.
pub open spec fn is_c_listing(
    paths: Seq<Seq<char>>,
    dir: Seq<char>,
    names: Seq<Seq<char>>,
    excludes: Seq<Seq<char>>,
) -> bool {
    exists|sorted_names: Seq<Seq<char>>|
        {
            &&& sorted_le(sorted_names)
            &&& sorted_names.to_multiset() == spec_selected(names, excludes).to_multiset()
            &&& paths == spec_paths_in(dir, sorted_names)
        }
}

/// The C sources among the entries `names` of the directory `dir`, sorted by
/// name (see [`is_c_listing`]).
pub fn select_c_files(dir: &str, names: &[&str], excludes: &[&str]) -> (r: Vec<String>)
    ensures
        is_c_listing(strings_view(r@), dir@, names_view(names@), names_view(excludes@)),
{
    let ghost nv = names_view(names@);
    let ghost ev = names_view(excludes@);
    let mut picked: Vec<String> = Vec::new();
    let mut i: usize = 0;
    assert(nv.take(0) =~= Seq::<Seq<char>>::empty());
    assert(strings_view(picked@) =~= Seq::<Seq<char>>::empty());
    while i < names.len()
        invariant
            i <= names@.len(),
            nv == names_view(names@),
            ev == names_view(excludes@),
            strings_view(picked@) == spec_selected(nv.take(i as int), ev),
        decreases names@.len() - i,
    {
        let name = names[i];
        let n = name.unicode_len();
        let c_ext = n >= 3 && name.get_char(n - 1) == 'c' && name.get_char(n - 2) == '.';
        assert(nv.take(i + 1).drop_last() =~= nv.take(i as int));
        assert(nv.take(i + 1).last() == name@);
        if c_ext && !str_in(excludes, name) {
            let ghost before = strings_view(picked@);
            picked.push(String::from_str(name));
            assert(strings_view(picked@) =~= before.push(name@));
        }
        i = i + 1;
    }
    assert(nv.take(i as int) =~= nv);
    let sorted = sort_strings(&picked);
    let mut r: Vec<String> = Vec::new();
    let mut j: usize = 0;
    while j < sorted.len()
        invariant
            j <= sorted@.len(),
            r@.len() == j,
            forall|k: int| 0 <= k < j ==> #[trigger] r@[k]@ == spec_path_join(dir@, sorted@[k]@),
        decreases sorted@.len() - j,
    {
        r.push(path_join(dir, sorted[j].as_str()));
        j = j + 1;
    }
    assert(strings_view(r@) =~= spec_paths_in(dir@, strings_view(sorted@)));
    r
}

/// The include directories of the host stack, in search order, for the
/// crate root `root`: the glue directory first, so that its stand-in
/// headers take precedence.
pub open spec fn spec_include_dirs(root: Seq<char>) -> Seq<Seq<char>> {
    let n = spec_path_join(root, "esp-nimble"@);
    seq![
        spec_path_join(spec_path_join(spec_path_join(root, "gen"@), "glue"@), "include"@),
        spec_path_join(n, "nimble/include"@),
        spec_path_join(n, "nimble/host/include"@),
        spec_path_join(n, "nimble/host/services/gap/include"@),
        spec_path_join(n, "nimble/host/services/gatt/include"@),
        spec_path_join(n, "nimble/host/store/ram/include"@),
        spec_path_join(n, "nimble/host/util/include"@),
        spec_path_join(n, "nimble/transport/include"@),
        spec_path_join(n, "porting/nimble/include"@),
        spec_path_join(n, "ext/tinycrypt/include"@),
    ]
}

/// The directories the host-stack C sources are drawn from, in compilation
/// order, for the crate root `root`.
pub open spec fn spec_source_dirs(root: Seq<char>) -> Seq<Seq<char>> {
    let n = spec_path_join(root, "esp-nimble"@);
    seq![
        spec_path_join(n, "porting/nimble/src"@),
        spec_path_join(n, "nimble/host/src"@),
        spec_path_join(n, "nimble/host/util/src"@),
        spec_path_join(n, "nimble/host/services/gap/src"@),
        spec_path_join(n, "nimble/host/services/gatt/src"@),
        spec_path_join(n, "nimble/host/store/ram/src"@),
    ]
}

/// The concatenation of some lists of paths.
pub open spec fn concat_seqs(parts: Seq<Seq<Seq<char>>>) -> Seq<Seq<char>>
    decreases parts.len(),
{
    if parts.len() == 0 {
        Seq::empty()
    } else {
        concat_seqs(parts.drop_last()) + parts.last()
    }
}

/// The exclusions of the `k`-th source directory: only the porting
/// directory has any.
pub open spec fn spec_excludes_for(k: int) -> Seq<Seq<char>> {
    if k == 0 {
        spec_porting_src_excludes()
    } else {
        Seq::empty()
    }
}

/// The `k`-th listing of the [`source_dirs`](NimbleBuilder::source_dirs).
pub open spec fn spec_listing<'a>(l: SourceListings<'a>, k: int) -> Seq<&'a str> {
    if k == 0 {
        l.porting_src@
    } else if k == 1 {
        l.host_src@
    } else if k == 2 {
        l.util_src@
    } else if k == 3 {
        l.gap_src@
    } else if k == 4 {
        l.gatt_src@
    } else {
        l.store_ram_src@
    }
}

/// The directory listings the C source list is drawn from (file names only),
/// in the order the sources are compiled.
pub struct SourceListings<'a> {
    pub porting_src: &'a [&'a str],
    pub host_src: &'a [&'a str],
    pub util_src: &'a [&'a str],
    pub gap_src: &'a [&'a str],
    pub gatt_src: &'a [&'a str],
    pub store_ram_src: &'a [&'a str],
}

/// Compiles the esp-nimble host stack; the paths it works from.
pub struct NimbleBuilder {
    crate_root: String,
    target: Option<String>,
    host: Option<String>,
}

impl NimbleBuilder {
    pub const LIB_NIMBLE: &'static str = "nimble";

    pub const LIB_TINYCRYPT: &'static str = "nimble-tinycrypt";

    pub closed spec fn root(&self) -> Seq<char> {
        self.crate_root@
    }

    pub closed spec fn target_view(&self) -> Option<Seq<char>> {
        match self.target {
            Some(t) => Some(t@),
            None => None,
        }
    }

    pub closed spec fn host_view(&self) -> Option<Seq<char>> {
        match self.host {
            Some(h) => Some(h@),
            None => None,
        }
    }

    pub fn new(crate_root: String, target: Option<String>, host: Option<String>) -> (r: Self)
        ensures
            r.root() == crate_root@,
            r.target_view() == (match target {
                Some(t) => Some(t@),
                None => None::<Seq<char>>,
            }),
            r.host_view() == (match host {
                Some(h) => Some(h@),
                None => None::<Seq<char>>,
            }),
    {
        NimbleBuilder { crate_root, target, host }
    }

    /// The crate root.
    pub fn crate_root(&self) -> (r: &str)
        ensures
            r@ == self.root(),
    {
        self.crate_root.as_str()
    }

    /// The target triple to build for, if given.
    pub fn target(&self) -> (r: Option<&String>)
        ensures
            match r {
                Some(t) => self.target_view() == Some(t@),
                None => self.target_view() is None,
            },
    {
        self.target.as_ref()
    }

    /// The host triple, if given.
    pub fn host(&self) -> (r: Option<&String>)
        ensures
            match r {
                Some(h) => self.host_view() == Some(h@),
                None => self.host_view() is None,
            },
    {
        self.host.as_ref()
    }

    /// The esp-nimble source tree.
    pub fn nimble_root(&self) -> (r: String)
        ensures
            r@ == spec_path_join(self.root(), "esp-nimble"@),
    {
        path_join(self.crate_root.as_str(), "esp-nimble")
    }

    /// The directory of the stand-in headers.
    pub fn glue_include_dir(&self) -> (r: String)
        ensures
            r@ == spec_path_join(
                spec_path_join(spec_path_join(self.root(), "gen"@), "glue"@),
                "include"@,
            ),
    {
        let g = path_join(self.crate_root.as_str(), "gen");
        let g = path_join(g.as_str(), "glue");
        path_join(g.as_str(), "include")
    }

    /// All include directories, in search order.
    pub fn include_dirs(&self) -> (r: Vec<String>)
        ensures
            strings_view(r@) == spec_include_dirs(self.root()),
    {
        let root = self.nimble_root();
        let r = vec![
            self.glue_include_dir(),
            path_join(root.as_str(), "nimble/include"),
            path_join(root.as_str(), "nimble/host/include"),
            path_join(root.as_str(), "nimble/host/services/gap/include"),
            path_join(root.as_str(), "nimble/host/services/gatt/include"),
            path_join(root.as_str(), "nimble/host/store/ram/include"),
            path_join(root.as_str(), "nimble/host/util/include"),
            path_join(root.as_str(), "nimble/transport/include"),
            path_join(root.as_str(), "porting/nimble/include"),
            path_join(root.as_str(), "ext/tinycrypt/include"),
        ];
        assert(strings_view(r@) =~= spec_include_dirs(self.root()));
        r
    }

    /// The directories the host-stack C sources are drawn from, in
    /// compilation order.
    pub fn source_dirs(&self) -> (r: Vec<String>)
        ensures
            strings_view(r@) == spec_source_dirs(self.root()),
    {
        let root = self.nimble_root();
        let r = vec![
            path_join(root.as_str(), "porting/nimble/src"),
            path_join(root.as_str(), "nimble/host/src"),
            path_join(root.as_str(), "nimble/host/util/src"),
            path_join(root.as_str(), "nimble/host/services/gap/src"),
            path_join(root.as_str(), "nimble/host/services/gatt/src"),
            path_join(root.as_str(), "nimble/host/store/ram/src"),
        ];
        assert(strings_view(r@) =~= spec_source_dirs(self.root()));
        r
    }

    /// The host-stack C source list (everything except tinycrypt), given the
    /// listings of the [`source_dirs`](Self::source_dirs): the C files of
    /// each directory, sorted by name (the porting directory without its
    /// exclusions), then the generic transport dispatch and the replacement
    /// memory pool.
    pub fn sources(&self, listings: &SourceListings) -> (r: Vec<String>)
        ensures
            exists|parts: Seq<Seq<Seq<char>>>|
                {
                    &&& parts.len() == 6
                    &&& forall|k: int|
                        0 <= k < 6 ==> #[trigger] is_c_listing(
                            parts[k],
                            spec_source_dirs(self.root())[k],
                            names_view(spec_listing(*listings, k)),
                            spec_excludes_for(k),
                        )
                    &&& strings_view(r@) == concat_seqs(parts) + seq![
                        spec_path_join(
                            spec_path_join(self.root(), "esp-nimble"@),
                            "nimble/transport/src/transport.c"@,
                        ),
                        spec_path_join(self.root(), "gen/glue/src/os_mempool.c"@),
                    ]
                },
    {
        let dirs = self.source_dirs();
        proof {
            assert(strings_view(dirs@).len() == dirs@.len());
            assert forall|k: int| 0 <= k < 6 implies dirs@[k]@ == spec_source_dirs(self.root())[k] by {
                assert(strings_view(dirs@)[k] == dirs@[k]@);
            }
        }
        let excludes = porting_src_excludes();
        let none: Vec<&str> = Vec::new();
        assert(names_view(none@) =~= Seq::<Seq<char>>::empty());
        let mut files: Vec<String> = Vec::new();
        let mut part = select_c_files(dirs[0].as_str(), listings.porting_src, excludes.as_slice());
        let ghost v0 = strings_view(part@);
        files.append(&mut part);
        let mut part = select_c_files(dirs[1].as_str(), listings.host_src, none.as_slice());
        let ghost v1 = strings_view(part@);
        files.append(&mut part);
        let mut part = select_c_files(dirs[2].as_str(), listings.util_src, none.as_slice());
        let ghost v2 = strings_view(part@);
        files.append(&mut part);
        let mut part = select_c_files(dirs[3].as_str(), listings.gap_src, none.as_slice());
        let ghost v3 = strings_view(part@);
        files.append(&mut part);
        let mut part = select_c_files(dirs[4].as_str(), listings.gatt_src, none.as_slice());
        let ghost v4 = strings_view(part@);
        files.append(&mut part);
        let mut part = select_c_files(dirs[5].as_str(), listings.store_ram_src, none.as_slice());
        let ghost v5 = strings_view(part@);
        files.append(&mut part);
        let root = self.nimble_root();
        files.push(path_join(root.as_str(), "nimble/transport/src/transport.c"));
        files.push(path_join(self.crate_root.as_str(), "gen/glue/src/os_mempool.c"));
        proof {
            let parts = seq![v0, v1, v2, v3, v4, v5];
            reveal_with_fuel(concat_seqs, 7);
            assert(concat_seqs(parts) =~= v0 + v1 + v2 + v3 + v4 + v5) by {
                assert(parts.drop_last() =~= seq![v0, v1, v2, v3, v4]);
                assert(parts.drop_last().drop_last() =~= seq![v0, v1, v2, v3]);
                assert(parts.drop_last().drop_last().drop_last() =~= seq![v0, v1, v2]);
                assert(parts.drop_last().drop_last().drop_last().drop_last() =~= seq![v0, v1]);
                assert(parts.drop_last().drop_last().drop_last().drop_last().drop_last() =~= seq![v0]);
                assert(seq![v0].drop_last() =~= Seq::<Seq<Seq<char>>>::empty());
            }
            assert(strings_view(files@) =~= v0 + v1 + v2 + v3 + v4 + v5 + seq![
                spec_path_join(
                    spec_path_join(self.root(), "esp-nimble"@),
                    "nimble/transport/src/transport.c"@,
                ),
                spec_path_join(self.root(), "gen/glue/src/os_mempool.c"@),
            ]);
            assert forall|k: int|
                0 <= k < 6 implies #[trigger] is_c_listing(
                    parts[k],
                    spec_source_dirs(self.root())[k],
                    names_view(spec_listing(*listings, k)),
                    spec_excludes_for(k),
                ) by {
                if k == 0 {
                    assert(parts[k] == v0);
                } else if k == 1 {
                    assert(parts[k] == v1);
                } else if k == 2 {
                    assert(parts[k] == v2);
                } else if k == 3 {
                    assert(parts[k] == v3);
                } else if k == 4 {
                    assert(parts[k] == v4);
                } else {
                    assert(parts[k] == v5);
                }
            }
        }
        files
    }

    /// The C sources of tinycrypt among the entries `names` of its source
    /// directory, sorted.
    pub fn tinycrypt_sources(&self, names: &[&str]) -> (r: Vec<String>)
        ensures
            is_c_listing(
                strings_view(r@),
                spec_path_join(spec_path_join(self.root(), "esp-nimble"@), "ext/tinycrypt/src"@),
                names_view(names@),
                Seq::empty(),
            ),
    {
        let root = self.nimble_root();
        let dir = path_join(root.as_str(), "ext/tinycrypt/src");
        let none: Vec<&str> = Vec::new();
        assert(names_view(none@) =~= Seq::<Seq<char>>::empty());
        select_c_files(dir.as_str(), names, none.as_slice())
    }

    /// All preprocessor defines for the effective settings `settings`: every
    /// setting as `MYNEWT_VAL_<NAME>`, in name order, then the extra defines
    /// the fork requires, then (for the upstream test suite) its extra
    /// defines.
    pub fn defines(&self, settings: &Settings, upstream_test: bool) -> (r: Vec<(String, String)>)
        ensures
            pairs_of_strings(r@) == spec_defines(settings@, upstream_test),
    {
        let mut r: Vec<(String, String)> = Vec::new();
        let mut i: usize = 0;
        while i < settings.len()
            invariant
                i <= settings@.len(),
                pairs_of_strings(r@) == settings@.take(i as int).map_values(
                    |p: (Seq<char>, Seq<char>)| ("MYNEWT_VAL_"@ + p.0, p.1),
                ),
            decreases settings@.len() - i,
        {
            let mut name = String::from_str("MYNEWT_VAL_");
            name.append(settings.name_at(i).as_str());
            let value = settings.value_at(i).clone();
            let ghost before = pairs_of_strings(r@);
            r.push((name, value));
            assert(pairs_of_strings(r@) =~= before.push(("MYNEWT_VAL_"@ + settings@[i as int].0, settings@[i as int].1)));
            assert(settings@.take(i + 1) =~= settings@.take(i as int).push(settings@[i as int]));
            i = i + 1;
        }
        assert(settings@.take(i as int) =~= settings@);
        let extra = extra_defines();
        let mut k: usize = 0;
        let ghost base = pairs_of_strings(r@);
        while k < extra.len()
            invariant
                k <= extra@.len(),
                pairs_of_strings(r@) == base + pairs_view(extra@).take(k as int),
            decreases extra@.len() - k,
        {
            let ghost before = pairs_of_strings(r@);
            r.push((String::from_str(extra[k].0), String::from_str(extra[k].1)));
            assert(pairs_of_strings(r@) =~= before.push((extra@[k as int].0@, extra@[k as int].1@)));
            assert(pairs_view(extra@).take(k + 1) =~= pairs_view(extra@).take(k as int).push((extra@[k as int].0@, extra@[k as int].1@)));
            k = k + 1;
        }
        assert(pairs_view(extra@).take(k as int) =~= pairs_view(extra@));
        if upstream_test {
            let up = upstream_test_extra_defines();
            let ghost base2 = pairs_of_strings(r@);
            let mut k: usize = 0;
            while k < up.len()
                invariant
                    k <= up@.len(),
                    pairs_of_strings(r@) == base2 + pairs_view(up@).take(k as int),
                decreases up@.len() - k,
            {
                let ghost before = pairs_of_strings(r@);
                r.push((String::from_str(up[k].0), String::from_str(up[k].1)));
                assert(pairs_of_strings(r@) =~= before.push((up@[k as int].0@, up@[k as int].1@)));
                assert(pairs_view(up@).take(k + 1) =~= pairs_view(up@).take(k as int).push((up@[k as int].0@, up@[k as int].1@)));
                k = k + 1;
            }
            assert(pairs_view(up@).take(k as int) =~= pairs_view(up@));
        }
        r
    }
}

/// Owned string pairs as plain strings.
pub open spec fn pairs_of_strings(s: Seq<(String, String)>) -> Entries {
    s.map_values(|p: (String, String)| (p.0@, p.1@))
}

/// The defines for the settings `e` (see [`NimbleBuilder::defines`]).
pub open spec fn spec_defines(e: Entries, upstream_test: bool) -> Entries {
    let vals = e.map_values(|p: (Seq<char>, Seq<char>)| ("MYNEWT_VAL_"@ + p.0, p.1));
    let base = vals + spec_extra_defines();
    if upstream_test {
        base + spec_upstream_test_extra_defines()
    } else {
        base
    }
}

/// Each include directory as a compiler flag (`-I<dir>`).
pub open spec fn spec_include_args(dirs: Seq<Seq<char>>) -> Seq<Seq<char>> {
    dirs.map_values(|d: Seq<char>| "-I"@ + d)
}

/// A define as `<name>=<value>`.
pub open spec fn spec_define_text(p: (Seq<char>, Seq<char>)) -> Seq<char> {
    p.0 + "="@ + p.1
}

/// Each define as a compiler flag (`-D<name>=<value>`).
pub open spec fn spec_define_args(e: Entries) -> Seq<Seq<char>> {
    e.map_values(|p: (Seq<char>, Seq<char>)| "-D"@ + spec_define_text(p))
}

/// The target flag when cross-compiling (both triples known and different).
pub open spec fn spec_target_args(target: Option<Seq<char>>, host: Option<Seq<char>>) -> Seq<
    Seq<char>,
> {
    match (target, host) {
        (Some(t), Some(h)) => if t != h {
            seq!["--target="@ + t]
        } else {
            Seq::empty()
        },
        _ => Seq::empty(),
    }
}

/// The clang arguments of the bindings generator: the include directories,
/// the defines, and the target when cross-compiling, so that type layouts
/// match the target.
pub open spec fn spec_clang_args(
    root: Seq<char>,
    defines: Entries,
    target: Option<Seq<char>>,
    host: Option<Seq<char>>,
) -> Seq<Seq<char>> {
    spec_include_args(spec_include_dirs(root)) + spec_define_args(defines) + spec_target_args(
        target,
        host,
    )
}

/// One constant of the generated bindings for a setting:
/// `pub const MYNEWT_VAL_<name>: u32 = <value>;` and a newline.
pub open spec fn spec_val_constant(p: (Seq<char>, Seq<char>)) -> Seq<char> {
    "pub const MYNEWT_VAL_"@ + p.0 + ": u32 = "@ + p.1 + ";\n"@
}

/// The constants appended to the generated bindings: a blank line, then one
/// constant per setting, in order.
pub open spec fn spec_val_constants(e: Entries) -> Seq<char> {
    "\n"@ + concat_all(e.map_values(|p: (Seq<char>, Seq<char>)| spec_val_constant(p)))
}

/// Appends `prefix` + `s` to `out` as a new string.
fn push_prefixed(out: &mut Vec<String>, prefix: &str, s: &str)
    ensures
        strings_view(final(out)@) == strings_view(old(out)@).push(prefix@ + s@),
{
    let mut item = String::from_str(prefix);
    item.append(s);
    out.push(item);
    assert(strings_view(out@) =~= strings_view(old(out)@).push(prefix@ + s@));
}

impl NimbleBuilder {
    /// The clang arguments of the bindings generator for the defines
    /// `defines`.
    pub fn clang_args(&self, defines: &Vec<(String, String)>) -> (r: Vec<String>)
        ensures
            strings_view(r@) == spec_clang_args(
                self.root(),
                pairs_of_strings(defines@),
                self.target_view(),
                self.host_view(),
            ),
    {
        let dirs = self.include_dirs();
        let ghost dv = strings_view(dirs@);
        let mut r: Vec<String> = Vec::new();
        let mut i: usize = 0;
        while i < dirs.len()
            invariant
                i <= dirs@.len(),
                dv == strings_view(dirs@),
                strings_view(r@) == spec_include_args(dv.take(i as int)),
            decreases dirs@.len() - i,
        {
            push_prefixed(&mut r, "-I", dirs[i].as_str());
            assert(spec_include_args(dv.take(i + 1)) =~= spec_include_args(dv.take(i as int)).push(
                "-I"@ + dv[i as int],
            ));
            i = i + 1;
        }
        assert(dv.take(i as int) =~= dv);
        let ghost dp = pairs_of_strings(defines@);
        let ghost base = strings_view(r@);
        let mut k: usize = 0;
        while k < defines.len()
            invariant
                k <= defines@.len(),
                dp == pairs_of_strings(defines@),
                strings_view(r@) == base + spec_define_args(dp.take(k as int)),
            decreases defines@.len() - k,
        {
            let mut text = defines[k].0.clone();
            text.append("=");
            text.append(defines[k].1.as_str());
            let ghost before = strings_view(r@);
            push_prefixed(&mut r, "-D", text.as_str());
            assert(spec_define_args(dp.take(k + 1)) =~= spec_define_args(dp.take(k as int)).push(
                "-D"@ + spec_define_text(dp[k as int]),
            ));
            assert(before + spec_define_args(dp.take(k + 1)) =~= (before + spec_define_args(
                dp.take(k as int),
            )).push("-D"@ + spec_define_text(dp[k as int])));
            k = k + 1;
        }
        assert(dp.take(k as int) =~= dp);
        let ghost base2 = strings_view(r@);
        match (&self.target, &self.host) {
            (Some(t), Some(h)) => {
                if !str_eq(t.as_str(), h.as_str()) {
                    push_prefixed(&mut r, "--target=", t.as_str());
                } else {
                    assert(base2 + Seq::<Seq<char>>::empty() =~= base2);
                }
            },
            _ => {
                assert(base2 + Seq::<Seq<char>>::empty() =~= base2);
            },
        }
        r
    }

    /// The include-path metadata exported to dependent build scripts:
    /// `include=` and the include directories joined with `;`.
    pub fn include_metadata(&self) -> (r: String)
        ensures
            r@ == "include="@ + spec_join(spec_include_dirs(self.root()), ";"@),
    {
        let dirs = self.include_dirs();
        let joined = join_strings(&dirs, ";");
        let mut r = String::from_str("include=");
        r.append(joined.as_str());
        r
    }
}

/// The define metadata exported to dependent build scripts: `defines=` and
/// the defines as `<name>=<value>`, joined with `;`.
pub fn defines_metadata(defines: &Vec<(String, String)>) -> (r: String)
    ensures
        r@ == "defines="@ + spec_join(
            pairs_of_strings(defines@).map_values(|p: (Seq<char>, Seq<char>)| spec_define_text(p)),
            ";"@,
        ),
{
    let ghost dp = pairs_of_strings(defines@);
    let mut texts: Vec<String> = Vec::new();
    let mut k: usize = 0;
    while k < defines.len()
        invariant
            k <= defines@.len(),
            dp == pairs_of_strings(defines@),
            strings_view(texts@) == dp.take(k as int).map_values(
                |p: (Seq<char>, Seq<char>)| spec_define_text(p),
            ),
        decreases defines@.len() - k,
    {
        let mut text = defines[k].0.clone();
        text.append("=");
        text.append(defines[k].1.as_str());
        let ghost before = strings_view(texts@);
        texts.push(text);
        assert(strings_view(texts@) =~= before.push(spec_define_text(dp[k as int])));
        assert(dp.take(k + 1).map_values(|p: (Seq<char>, Seq<char>)| spec_define_text(p))
            =~= dp.take(k as int).map_values(|p: (Seq<char>, Seq<char>)| spec_define_text(p)).push(
            spec_define_text(dp[k as int]),
        ));
        k = k + 1;
    }
    assert(dp.take(k as int) =~= dp);
    let joined = join_strings(&texts, ";");
    let mut r = String::from_str("defines=");
    r.append(joined.as_str());
    r
}

/// The constants appended to the generated bindings for the settings
/// `settings` (bindgen skips command-line defines).
pub fn val_constants(settings: &Settings) -> (r: String)
    ensures
        r@ == spec_val_constants(settings@),
{
    let ghost e = settings@;
    let ghost parts = e.map_values(|p: (Seq<char>, Seq<char>)| spec_val_constant(p));
    let mut r = String::from_str("\n");
    let mut i: usize = 0;
    assert(parts.take(0) =~= Seq::<Seq<char>>::empty());
    while i < settings.len()
        invariant
            i <= e.len(),
            e == settings@,
            parts == e.map_values(|p: (Seq<char>, Seq<char>)| spec_val_constant(p)),
            r@ == "\n"@ + concat_all(parts.take(i as int)),
        decreases e.len() - i,
    {
        r.append("pub const MYNEWT_VAL_");
        r.append(settings.name_at(i).as_str());
        r.append(": u32 = ");
        r.append(settings.value_at(i).as_str());
        r.append(";\n");
        assert(parts.take(i + 1).drop_last() =~= parts.take(i as int));
        assert(parts.take(i + 1).last() == spec_val_constant(e[i as int]));
        i = i + 1;
    }
    assert(parts.take(i as int) =~= parts);
    r
}

proof fn lemma_selected_only_selected(names: Seq<Seq<char>>, excludes: Seq<Seq<char>>, n: Seq<char>)
    ensures
        spec_selected(names, excludes).contains(n) ==> is_selected(n, excludes),
    decreases names.len(),
{
    if names.len() > 0 {
        lemma_selected_only_selected(names.drop_last(), excludes, n);
        let rest = spec_selected(names.drop_last(), excludes);
        if is_selected(names.last(), excludes) && rest.push(names.last()).contains(n) {
            let i = choose|i: int| 0 <= i < rest.push(names.last()).len() && rest.push(names.last())[i] == n;
            if i < rest.len() {
                assert(rest[i] == n);
            }
        }
    }
}

proof fn lemma_selected_keeps(names: Seq<Seq<char>>, excludes: Seq<Seq<char>>, n: Seq<char>)
    ensures
        names.contains(n) && is_selected(n, excludes) ==> spec_selected(names, excludes).contains(n),
    decreases names.len(),
{
    if names.len() > 0 && names.contains(n) && is_selected(n, excludes) {
        let rest = spec_selected(names.drop_last(), excludes);
        if names.last() == n {
            assert(rest.push(n)[rest.len() as int] == n);
        } else {
            let i = choose|i: int| 0 <= i < names.len() && names[i] == n;
            assert(i < names.len() - 1);
            assert(names.drop_last()[i] == n);
            lemma_selected_keeps(names.drop_last(), excludes, n);
            if is_selected(names.last(), excludes) {
                let j = choose|j: int| 0 <= j < rest.len() && rest[j] == n;
                assert(rest.push(names.last())[j] == n);
            }
        }
    }
}

/// The platform shims of the porting layer are never compiled, whatever the
/// directory holds: `hal_timer.c`, `hal_uart.c`, `os_cputime.c`,
/// `os_cputime_pwr2.c`, `nimble_port.c` and `os_mempool.c` are left out of
/// the sources selected from `porting/nimble/src`, while every other C file
/// listed there is kept.
pub proof fn law_porting_shims_never_compiled(names: Seq<Seq<char>>, n: Seq<char>)
    ensures
        (n == "hal_timer.c"@ || n == "hal_uart.c"@ || n == "os_cputime.c"@ || n
            == "os_cputime_pwr2.c"@ || n == "nimble_port.c"@ || n == "os_mempool.c"@)
            ==> !spec_selected(names, spec_porting_src_excludes()).contains(n),
        !(n == "hal_timer.c"@ || n == "hal_uart.c"@ || n == "os_cputime.c"@ || n
            == "os_cputime_pwr2.c"@ || n == "nimble_port.c"@ || n == "os_mempool.c"@)
            && has_c_extension(n) && names.contains(n) ==> spec_selected(
            names,
            spec_porting_src_excludes(),
        ).contains(n),
{
    let ex = spec_porting_src_excludes();
    assert(ex[0] == "hal_timer.c"@);
    assert(ex[1] == "hal_uart.c"@);
    assert(ex[2] == "os_cputime.c"@);
    assert(ex[3] == "os_cputime_pwr2.c"@);
    assert(ex[4] == "nimble_port.c"@);
    assert(ex[5] == "os_mempool.c"@);
    lemma_selected_only_selected(names, ex, n);
    lemma_selected_keeps(names, ex, n);
    if ex.contains(n) {
        let i = choose|i: int| 0 <= i < ex.len() && ex[i] == n;
        assert(i == 0 || i == 1 || i == 2 || i == 3 || i == 4 || i == 5);
    }
}

} // verus!
