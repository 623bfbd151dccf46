//! Configuration somebody else wrote, found on disk: the runtime path of
//! config roots, which `plugin/` files run and in what order, and which `lua/`
//! directories join the `require` path.
//!
//! The disk itself is read by the shell; what it found is handed here as a
//! [`RootScan`] per root, and everything about order is decided here.

use vstd::prelude::*;
use crate::order::{
    copy_chars, is_sorted, law_sort_names_ignores_the_given_order, law_sort_names_is_sorted, lemma_sort_multiset,
    sort_names, sorted_names,
};
use crate::text::{chars_of, string_of};

verus! {

/// The system-wide config root, for anything installed by a package manager.
pub const SYSTEM_ROOT: &'static str = "/etc/xdg/0xin";

/// `Path::join`: an absolute `rel` replaces `dir`; onto an empty `dir` a
/// relative one is itself; otherwise one `/` goes between them, never two.
pub open spec fn join(dir: Seq<char>, rel: Seq<char>) -> Seq<char> {
    if rel.len() > 0 && rel[0] == '/' {
        rel
    } else if dir.len() == 0 || dir.last() == '/' {
        dir + rel
    } else {
        dir + seq!['/'] + rel
    }
}

pub fn join_exec(dir: &Vec<char>, rel: &str) -> (r: Vec<char>)
    ensures
        r@ == join(dir@, rel@),
{
    join_chars(dir, &chars_of(rel))
}

/// The user's own config root: `$XDG_CONFIG_HOME/0xin`, else
/// `$HOME/.config/0xin`; an empty variable counts as unset.
pub open spec fn spec_config_dir(xdg_config_home: Option<Seq<char>>, home: Option<Seq<char>>) -> Option<
    Seq<char>,
> {
    match xdg_config_home {
        Some(d) if d.len() > 0 => Some(join(d, "0xin"@)),
        _ => match home {
            Some(h) if h.len() > 0 => Some(join(h, ".config/0xin"@)),
            _ => None,
        },
    }
}

/// The ordered list of roots plugins are looked for in: the system root
/// first, then the user's own, given the environment's `XDG_CONFIG_HOME` and
/// `HOME`.
pub open spec fn spec_runtimepath(xdg_config_home: Option<Seq<char>>, home: Option<Seq<char>>) -> Seq<
    Seq<char>,
> {
    match spec_config_dir(xdg_config_home, home) {
        Some(d) => seq![SYSTEM_ROOT@, d],
        None => seq![SYSTEM_ROOT@],
    }
}

/// The characters of an optional string.
pub open spec fn opt_str(o: Option<&str>) -> Option<Seq<char>> {
    match o {
        Some(s) => Some(s@),
        None => None,
    }
}

/// The views of a list of strings.
pub open spec fn strings_view(v: Seq<String>) -> Seq<Seq<char>> {
    v.map_values(|s: String| s@)
}

fn config_dir(xdg_config_home: Option<&str>, home: Option<&str>) -> (r: Option<String>)
    ensures
        r matches Some(s) ==> spec_config_dir(
            opt_str(xdg_config_home),
            opt_str(home),
        ) == Some(s@),
        r is None ==> spec_config_dir(opt_str(xdg_config_home), opt_str(home))
            is None,
{
    if let Some(d) = xdg_config_home {
        if d.unicode_len() > 0 {
            return Some(string_of(&join_exec(&chars_of(d), "0xin")));
        }
    }
    if let Some(h) = home {
        if h.unicode_len() > 0 {
            return Some(string_of(&join_exec(&chars_of(h), ".config/0xin")));
        }
    }
    None
}

/// The runtime path for the given `XDG_CONFIG_HOME` and `HOME`.
pub fn runtimepath(xdg_config_home: Option<&str>, home: Option<&str>) -> (r: Vec<String>)
    ensures
        strings_view(r@) == spec_runtimepath(
            opt_str(xdg_config_home),
            opt_str(home),
        ),
{
    let mut roots: Vec<String> = Vec::new();
    roots.push(String::from_str(SYSTEM_ROOT));
    if let Some(dir) = config_dir(xdg_config_home, home) {
        roots.push(dir);
    }
    assert(strings_view(roots@) =~= spec_runtimepath(
        opt_str(xdg_config_home),
        opt_str(home),
    ));
    roots
}

/// What the shell found in one directory: the names of the entries that are
/// not directories, and each subdirectory by name with what it holds. A
/// directory that could not be read holds nothing.
pub struct DirScan {
    pub files: Vec<String>,
    pub dirs: Vec<(String, DirScan)>,
}

/// A package, `<root>/pack/<group>/start/<name>`: laid out like a root.
pub struct Package {
    /// `<package>/plugin`.
    pub plugin: DirScan,
    /// Whether `<package>/lua` is a directory.
    pub has_lua: bool,
}

/// What the shell found under one root of the runtime path.
pub struct RootScan {
    /// `<root>/plugin`.
    pub plugin: DirScan,
    /// `<root>/after/plugin`.
    pub after_plugin: DirScan,
    /// Whether `<root>/lua` is a directory.
    pub has_lua: bool,
    /// The directories under `<root>/pack`, each with the packages under its
    /// `start` directory.
    pub pack: Vec<(String, Vec<(String, Package)>)>,
}

/// A file a plugin directory runs: a name with the extension `lua` (a name
/// of its own before the dot).
pub open spec fn is_lua_file(n: Seq<char>) -> bool {
    n.len() > 4 && n.skip(n.len() - 4) == ".lua"@
}

/// The names of a list of named entries.
pub open spec fn names_of<T>(s: Seq<(String, T)>) -> Seq<Seq<char>> {
    s.map_values(|e: (String, T)| e.0@)
}

/// The first entry of `s` from `k` on with that name, or `s.len()`.
pub open spec fn find_name<T>(s: Seq<(String, T)>, name: Seq<char>, k: int) -> int
    decreases s.len() - k,
{
    if k < 0 || k >= s.len() {
        s.len() as int
    } else if s[k].0@ == name {
        k
    } else {
        find_name(s, name, k + 1)
    }
}

/// The `.lua` files under `dir`, recursively: the directory's own files
/// alphabetically, then each subdirectory in alphabetical order.
pub open spec fn scan_files(dir: Seq<char>, scan: DirScan) -> Seq<Seq<char>>
    decreases scan, 1int, 0int,
{
    sort_names(strings_view(scan.files@).filter(|n: Seq<char>| is_lua_file(n))).map_values(
        |n: Seq<char>| join(dir, n),
    ) + subdir_files(dir, scan, sort_names(names_of(scan.dirs@)), 0)
}

/// The files under the subdirectories named `names[k..]`, in that order.
pub open spec fn subdir_files(dir: Seq<char>, scan: DirScan, names: Seq<Seq<char>>, k: int) -> Seq<Seq<char>>
    decreases scan, 0int, names.len() - k,
{
    if k < 0 || k >= names.len() {
        Seq::empty()
    } else {
        let j = find_name(scan.dirs@, names[k], 0);
        let here = if 0 <= j < scan.dirs@.len() {
            scan_files(join(dir, names[k]), scan.dirs@[j].1)
        } else {
            Seq::empty()
        };
        here + subdir_files(dir, scan, names, k + 1)
    }
}

fn find_name_exec<T>(v: &Vec<(String, T)>, name: &Vec<char>) -> (r: usize)
    ensures
        r == find_name(v@, name@, 0),
{
    let mut k: usize = 0;
    while k < v.len()
        invariant
            k <= v.len(),
            find_name(v@, name@, 0) == find_name(v@, name@, k as int),
        decreases v.len() - k,
    {
        let n = chars_of(v[k].0.as_str());
        if crate::names::same_chars(&n, name) {
            return k;
        }
        k += 1;
    }
    k
}

fn names_of_exec<T>(v: &Vec<(String, T)>) -> (r: Vec<Vec<char>>)
    ensures
        r@.map_values(|n: Vec<char>| n@) == names_of(v@),
{
    let mut r: Vec<Vec<char>> = Vec::new();
    let mut i: usize = 0;
    while i < v.len()
        invariant
            i <= v.len(),
            r@.map_values(|n: Vec<char>| n@) == names_of(v@).take(i as int),
        decreases v.len() - i,
    {
        let n = chars_of(v[i].0.as_str());
        let ghost nv = n@;
        let ghost before = r@;
        r.push(n);
        proof {
            assert(names_of(v@)[i as int] == v@[i as int].0@);
            assert(nv == v@[i as int].0@);
            assert(r@.map_values(|n: Vec<char>| n@) =~= before.map_values(|n: Vec<char>| n@).push(nv));
            assert(r@.map_values(|n: Vec<char>| n@) =~= names_of(v@).take(i + 1));
        }
        i += 1;
    }
    proof {
        assert(names_of(v@).take(v.len() as int) =~= names_of(v@));
    }
    r
}

/// Whether a name has the extension `lua`.
fn is_lua_file_exec(n: &Vec<char>) -> (r: bool)
    ensures
        r == is_lua_file(n@),
{
    proof {
        reveal_strlit(".lua");
    }
    let len = n.len();
    if len <= 4 {
        return false;
    }
    let r = n[len - 4] == '.' && n[len - 3] == 'l' && n[len - 2] == 'u' && n[len - 1] == 'a';
    proof {
        let tail = n@.skip(len - 4);
        if r {
            assert(tail =~= ".lua"@);
        } else {
            if tail == ".lua"@ {
                assert(tail[0] == n@[len - 4]);
                assert(tail[1] == n@[len - 3]);
                assert(tail[2] == n@[len - 2]);
                assert(tail[3] == n@[len - 1]);
            }
        }
    }
    r
}

/// `dir` joined with a relative path given as characters.
pub fn join_chars(dir: &Vec<char>, rel: &Vec<char>) -> (r: Vec<char>)
    ensures
        r@ == join(dir@, rel@),
{
    if rel.len() > 0 && rel[0] == '/' {
        return copy_chars(rel);
    }
    let mut r = copy_chars(dir);
    if dir.len() > 0 && dir[dir.len() - 1] != '/' {
        r.push('/');
    }
    let ghost base = r@;
    let mut j: usize = 0;
    while j < rel.len()
        invariant
            j <= rel.len(),
            r@ == base + rel@.take(j as int),
        decreases rel.len() - j,
    {
        r.push(rel[j]);
        assert(r@ =~= base + rel@.take(j + 1));
        j += 1;
    }
    assert(rel@.take(rel.len() as int) =~= rel@);
    proof {
        if dir@.len() == 0 || dir@.last() == '/' {
            assert(r@ =~= dir@ + rel@);
        } else {
            assert(r@ =~= dir@ + seq!['/'] + rel@);
        }
    }
    r
}

/// The `.lua` files of one directory, alphabetically.
fn own_files(dir: &Vec<char>, scan: &DirScan, out: &mut Vec<String>)
    ensures
        strings_view(final(out)@) == strings_view(old(out)@) + sort_names(
            strings_view(scan.files@).filter(|n: Seq<char>| is_lua_file(n)),
        ).map_values(|n: Seq<char>| join(dir@, n)),
{
    let ghost p = |n: Seq<char>| is_lua_file(n);
    let ghost all = strings_view(scan.files@);
    let mut lua: Vec<Vec<char>> = Vec::new();
    let mut i: usize = 0;
    proof {
        reveal(Seq::filter);
        assert(all.take(0).filter(p) =~= Seq::<Seq<char>>::empty());
    }
    while i < scan.files.len()
        invariant
            i <= scan.files.len(),
            all == strings_view(scan.files@),
            p == (|n: Seq<char>| is_lua_file(n)),
            lua@.map_values(|n: Vec<char>| n@) == all.take(i as int).filter(p),
        decreases scan.files.len() - i,
    {
        let n = chars_of(scan.files[i].as_str());
        proof {
            let t = all.take(i + 1);
            assert(t.drop_last() =~= all.take(i as int));
            assert(t.last() == n@);
            reveal(Seq::filter);
        }
        if is_lua_file_exec(&n) {
            let ghost before = lua@.map_values(|x: Vec<char>| x@);
            let ghost nv = n@;
            lua.push(n);
            assert(lua@.map_values(|x: Vec<char>| x@) =~= before.push(nv));
        }
        i += 1;
    }
    proof {
        assert(all.take(scan.files.len() as int) =~= all);
    }
    let sorted = sorted_names(&lua);
    let ghost sv = sorted@.map_values(|n: Vec<char>| n@);
    let ghost base = strings_view(out@);
    let mut k: usize = 0;
    while k < sorted.len()
        invariant
            k <= sorted.len(),
            sv == sorted@.map_values(|n: Vec<char>| n@),
            strings_view(out@) == base + sv.map_values(|n: Seq<char>| join(dir@, n)).take(k as int),
        decreases sorted.len() - k,
    {
        let path = join_chars(dir, &sorted[k]);
        let ghost pv = path@;
        let ps = string_of(&path);
        let ghost before = out@;
        out.push(ps);
        proof {
            assert(sv[k as int] == sorted@[k as int]@);
            assert(pv == join(dir@, sv[k as int]));
            assert(out@ == before.push(ps));
            assert(strings_view(out@) =~= strings_view(before).push(pv));
            assert(sv.map_values(|n: Seq<char>| join(dir@, n))[k as int] == pv);
            assert(strings_view(out@) =~= base + sv.map_values(|n: Seq<char>| join(dir@, n)).take(k + 1));
        }
        k += 1;
    }
    proof {
        assert(sv.map_values(|n: Seq<char>| join(dir@, n)).take(sorted.len() as int) =~= sv.map_values(
            |n: Seq<char>| join(dir@, n),
        ));
    }
}

/// Every `.lua` file under `dir`, recursively, alphabetically per directory
/// with a directory's own files before its subdirectories.
pub fn collect(dir: &Vec<char>, scan: &DirScan, out: &mut Vec<String>)
    ensures
        strings_view(final(out)@) == strings_view(old(out)@) + scan_files(dir@, *scan),
    decreases scan,
{
    let ghost base = strings_view(out@);
    own_files(dir, scan, out);
    let ghost mid = strings_view(out@);
    let names = sorted_names(&names_of_exec(&scan.dirs));
    let ghost nv = names@.map_values(|n: Vec<char>| n@);
    assert(nv == sort_names(names_of(scan.dirs@)));
    let mut k: usize = 0;
    while k < names.len()
        invariant
            k <= names.len(),
            nv == names@.map_values(|n: Vec<char>| n@),
            nv == sort_names(names_of(scan.dirs@)),
            mid + subdir_files(dir@, *scan, nv, 0) == strings_view(out@) + subdir_files(dir@, *scan, nv, k as int),
        decreases names.len() - k,
    {
        let j = find_name_exec(&scan.dirs, &names[k]);
        proof {
            assert(nv[k as int] == names@[k as int]@);
        }
        let ghost before = strings_view(out@);
        if j < scan.dirs.len() {
            let sub = join_chars(dir, &names[k]);
            let child = &scan.dirs[j].1;
            assert(decreases_to!(scan => scan.dirs));
            assert(decreases_to!(scan.dirs => scan.dirs@));
            assert(decreases_to!(scan.dirs@ => scan.dirs@[j as int]));
            collect(&sub, child, out);
        }
        proof {
            assert(before + subdir_files(dir@, *scan, nv, k as int) =~= strings_view(out@) + subdir_files(
                dir@,
                *scan,
                nv,
                k + 1,
            ));
        }
        k += 1;
    }
    proof {
        assert(strings_view(out@) + subdir_files(dir@, *scan, nv, names.len() as int) =~= strings_view(out@));
        assert(base + scan_files(dir@, *scan) =~= mid + subdir_files(dir@, *scan, nv, 0));
    }
}

/// The packages under a root, each with its path: the `pack` directories
/// alphabetically, and within one the packages under its `start`
/// alphabetically.
pub open spec fn spec_packages(root: Seq<char>, pack: Seq<(String, Vec<(String, Package)>)>) -> Seq<(Seq<char>, Package)> {
    group_packages(root, pack, sort_names(names_of(pack)), 0)
}

/// The packages of the groups named `names[k..]`, in that order.
pub open spec fn group_packages(
    root: Seq<char>,
    pack: Seq<(String, Vec<(String, Package)>)>,
    names: Seq<Seq<char>>,
    k: int,
) -> Seq<(Seq<char>, Package)>
    decreases names.len() - k,
{
    if k < 0 || k >= names.len() {
        Seq::empty()
    } else {
        let j = find_name(pack, names[k], 0);
        let here = if 0 <= j < pack.len() {
            let start = join(join(join(root, "pack"@), names[k]), "start"@);
            let ps = pack[j].1@;
            start_packages(start, ps, sort_names(names_of(ps)), 0)
        } else {
            Seq::empty()
        };
        here + group_packages(root, pack, names, k + 1)
    }
}

/// The packages named `names[k..]` under one `start` directory, with their
/// paths.
pub open spec fn start_packages(start: Seq<char>, ps: Seq<(String, Package)>, names: Seq<Seq<char>>, k: int) -> Seq<
    (Seq<char>, Package),
>
    decreases names.len() - k,
{
    if k < 0 || k >= names.len() {
        Seq::empty()
    } else {
        let j = find_name(ps, names[k], 0);
        let here = if 0 <= j < ps.len() {
            seq![(join(start, names[k]), ps[j].1)]
        } else {
            Seq::empty()
        };
        here + start_packages(start, ps, names, k + 1)
    }
}

/// The plugin files of a list of packages, package by package.
pub open spec fn package_plugin_files(ps: Seq<(Seq<char>, Package)>) -> Seq<Seq<char>>
    decreases ps.len(),
{
    if ps.len() == 0 {
        Seq::empty()
    } else {
        package_plugin_files(ps.drop_last()) + scan_files(join(ps.last().0, "plugin"@), ps.last().1.plugin)
    }
}

/// A root's plugin files: its packages' first, then its own `plugin`
/// directory's.
pub open spec fn root_plugin_files(root: Seq<char>, scan: RootScan) -> Seq<Seq<char>> {
    package_plugin_files(spec_packages(root, scan.pack@)) + scan_files(join(root, "plugin"@), scan.plugin)
}

/// Each root's plugin files, root by root.
pub open spec fn roots_plugin_files(rs: Seq<(String, RootScan)>) -> Seq<Seq<char>>
    decreases rs.len(),
{
    if rs.len() == 0 {
        Seq::empty()
    } else {
        roots_plugin_files(rs.drop_last()) + root_plugin_files(rs.last().0@, rs.last().1)
    }
}

/// Each root's `after/plugin` files, root by root.
pub open spec fn roots_after_files(rs: Seq<(String, RootScan)>) -> Seq<Seq<char>>
    decreases rs.len(),
{
    if rs.len() == 0 {
        Seq::empty()
    } else {
        roots_after_files(rs.drop_last()) + scan_files(join(rs.last().0@, "after/plugin"@), rs.last().1.after_plugin)
    }
}

/// Every plugin file to run, in the order to run them: each root's packages
/// and `plugin` directory, root by root, then every root's `after/plugin`.
pub open spec fn spec_plugin_files(rs: Seq<(String, RootScan)>) -> Seq<Seq<char>> {
    roots_plugin_files(rs) + roots_after_files(rs)
}

fn start_packages_exec<'a>(start: &Vec<char>, ps: &'a Vec<(String, Package)>, out: &mut Vec<(Vec<char>, &'a Package)>)
    ensures
        final(out)@.map_values(|e: (Vec<char>, &Package)| (e.0@, *e.1)) == old(out)@.map_values(
            |e: (Vec<char>, &Package)| (e.0@, *e.1),
        ) + start_packages(start@, ps@, sort_names(names_of(ps@)), 0),
{
    let names = sorted_names(&names_of_exec(ps));
    let ghost nv = names@.map_values(|n: Vec<char>| n@);
    let ghost whole = out@.map_values(|e: (Vec<char>, &Package)| (e.0@, *e.1)) + start_packages(start@, ps@, nv, 0);
    let mut k: usize = 0;
    while k < names.len()
        invariant
            k <= names.len(),
            nv == names@.map_values(|n: Vec<char>| n@),
            whole == out@.map_values(|e: (Vec<char>, &Package)| (e.0@, *e.1)) + start_packages(start@, ps@, nv, k as int),
        decreases names.len() - k,
    {
        let j = find_name_exec(ps, &names[k]);
        proof {
            assert(nv[k as int] == names@[k as int]@);
        }
        let ghost before = out@.map_values(|e: (Vec<char>, &Package)| (e.0@, *e.1));
        if j < ps.len() {
            let path = join_chars(start, &names[k]);
            let ghost pv = path@;
            out.push((path, &ps[j].1));
            proof {
                assert(out@.map_values(|e: (Vec<char>, &Package)| (e.0@, *e.1)) =~= before.push((pv, ps@[j as int].1)));
            }
        }
        proof {
            assert(whole =~= out@.map_values(|e: (Vec<char>, &Package)| (e.0@, *e.1)) + start_packages(
                start@,
                ps@,
                nv,
                k + 1,
            ));
        }
        k += 1;
    }
    proof {
        assert(start_packages(start@, ps@, nv, names.len() as int) =~= Seq::<(Seq<char>, Package)>::empty());
    }
}

/// The packages under a root, as [`spec_packages`] orders them: each with
/// its path, groups and packages alphabetically.
pub fn packages<'a>(root: &Vec<char>, pack: &'a Vec<(String, Vec<(String, Package)>)>) -> (r: Vec<(Vec<char>, &'a Package)>)
    ensures
        r@.map_values(|e: (Vec<char>, &Package)| (e.0@, *e.1)) == spec_packages(root@, pack@),
{
    let mut out: Vec<(Vec<char>, &Package)> = Vec::new();
    let names = sorted_names(&names_of_exec(pack));
    let ghost nv = names@.map_values(|n: Vec<char>| n@);
    let ghost whole = spec_packages(root@, pack@);
    proof {
        assert(out@.map_values(|e: (Vec<char>, &Package)| (e.0@, *e.1)) =~= Seq::<(Seq<char>, Package)>::empty());
    }
    let pack_dir = join_exec(root, "pack");
    let mut k: usize = 0;
    while k < names.len()
        invariant
            k <= names.len(),
            nv == names@.map_values(|n: Vec<char>| n@),
            pack_dir@ == join(root@, "pack"@),
            whole == out@.map_values(|e: (Vec<char>, &Package)| (e.0@, *e.1)) + group_packages(root@, pack@, nv, k as int),
        decreases names.len() - k,
    {
        let j = find_name_exec(pack, &names[k]);
        proof {
            assert(nv[k as int] == names@[k as int]@);
        }
        let ghost before = out@.map_values(|e: (Vec<char>, &Package)| (e.0@, *e.1));
        if j < pack.len() {
            let group = join_chars(&pack_dir, &names[k]);
            let start = join_exec(&group, "start");
            start_packages_exec(&start, &pack[j].1, &mut out);
        }
        proof {
            assert(whole =~= out@.map_values(|e: (Vec<char>, &Package)| (e.0@, *e.1)) + group_packages(
                root@,
                pack@,
                nv,
                k + 1,
            ));
        }
        k += 1;
    }
    proof {
        assert(group_packages(root@, pack@, nv, names.len() as int) =~= Seq::<(Seq<char>, Package)>::empty());
    }
    out
}

/// Every `plugin/**/*.lua` to run, in the order to run them: root by root,
/// each root's packages (`pack/*/start/*`) and then its own `plugin`
/// directory, alphabetically within a directory and a directory's files
/// before its subdirectories; every root's `after/plugin` comes last.
pub fn plugin_files(roots: &Vec<(String, RootScan)>) -> (r: Vec<String>)
    ensures
        strings_view(r@) == spec_plugin_files(roots@),
{
    let mut out: Vec<String> = Vec::new();
    let mut i: usize = 0;
    proof {
        assert(roots@.take(0) =~= Seq::<(String, RootScan)>::empty());
        assert(strings_view(out@) =~= Seq::<Seq<char>>::empty());
    }
    while i < roots.len()
        invariant
            i <= roots.len(),
            strings_view(out@) == roots_plugin_files(roots@.take(i as int)),
        decreases roots.len() - i,
    {
        let root = chars_of(roots[i].0.as_str());
        let scan = &roots[i].1;
        let ghost base = strings_view(out@);
        let pkgs = packages(&root, &scan.pack);
        let ghost pv = pkgs@.map_values(|e: (Vec<char>, &Package)| (e.0@, *e.1));
        let mut p: usize = 0;
        proof {
            assert(pv.take(0) =~= Seq::<(Seq<char>, Package)>::empty());
        }
        while p < pkgs.len()
            invariant
                p <= pkgs.len(),
                pv == pkgs@.map_values(|e: (Vec<char>, &Package)| (e.0@, *e.1)),
                strings_view(out@) == base + package_plugin_files(pv.take(p as int)),
            decreases pkgs.len() - p,
        {
            let dir = join_exec(&pkgs[p].0, "plugin");
            collect(&dir, &pkgs[p].1.plugin, &mut out);
            proof {
                assert(pv.take(p + 1).drop_last() =~= pv.take(p as int));
                assert(pv.take(p + 1).last() == pv[p as int]);
                assert(strings_view(out@) =~= base + package_plugin_files(pv.take(p + 1)));
            }
            p += 1;
        }
        let own = join_exec(&root, "plugin");
        collect(&own, &scan.plugin, &mut out);
        proof {
            assert(pv.take(pkgs.len() as int) =~= pv);
            assert(roots@.take(i + 1).drop_last() =~= roots@.take(i as int));
            assert(roots@.take(i + 1).last() == roots@[i as int]);
            assert(strings_view(out@) =~= roots_plugin_files(roots@.take(i + 1)));
        }
        i += 1;
    }
    let ghost first = strings_view(out@);
    proof {
        assert(roots@.take(roots.len() as int) =~= roots@);
        assert(roots@.take(0) =~= Seq::<(String, RootScan)>::empty());
    }
    let mut i: usize = 0;
    while i < roots.len()
        invariant
            i <= roots.len(),
            first == roots_plugin_files(roots@),
            strings_view(out@) == first + roots_after_files(roots@.take(i as int)),
        decreases roots.len() - i,
    {
        let root = chars_of(roots[i].0.as_str());
        let after = join_exec(&root, "after/plugin");
        collect(&after, &roots[i].1.after_plugin, &mut out);
        proof {
            assert(roots@.take(i + 1).drop_last() =~= roots@.take(i as int));
            assert(roots@.take(i + 1).last() == roots@[i as int]);
            assert(strings_view(out@) =~= first + roots_after_files(roots@.take(i + 1)));
        }
        i += 1;
    }
    proof {
        assert(roots@.take(roots.len() as int) =~= roots@);
    }
    out
}

/// The `package.path` entries for a directory whose `lua` subdirectory
/// exists: `<dir>/lua/?.lua` and `<dir>/lua/?/init.lua`.
pub open spec fn lua_entries(dir: Seq<char>, has_lua: bool) -> Seq<Seq<char>> {
    if has_lua {
        let l = join(dir, "lua"@);
        seq![l + "/?.lua"@, l + "/?/init.lua"@]
    } else {
        Seq::empty()
    }
}

/// The `package.path` entries of a list of packages, package by package.
pub open spec fn package_lua_entries(ps: Seq<(Seq<char>, Package)>) -> Seq<Seq<char>>
    decreases ps.len(),
{
    if ps.len() == 0 {
        Seq::empty()
    } else {
        package_lua_entries(ps.drop_last()) + lua_entries(ps.last().0, ps.last().1.has_lua)
    }
}

/// Each root's `package.path` entries, its packages' before its own.
pub open spec fn roots_lua_entries(rs: Seq<(String, RootScan)>) -> Seq<Seq<char>>
    decreases rs.len(),
{
    if rs.len() == 0 {
        Seq::empty()
    } else {
        roots_lua_entries(rs.drop_last()) + package_lua_entries(spec_packages(rs.last().0@, rs.last().1.pack@))
            + lua_entries(rs.last().0@, rs.last().1.has_lua)
    }
}

/// Entries joined with `;` between them.
pub open spec fn joined(parts: Seq<Seq<char>>) -> Seq<char>
    decreases parts.len(),
{
    if parts.len() == 0 {
        Seq::empty()
    } else if parts.len() == 1 {
        parts[0]
    } else {
        joined(parts.drop_last()) + seq![';'] + parts.last()
    }
}

pub fn push_lua_dir(dir: &Vec<char>, has_lua: bool, parts: &mut Vec<Vec<char>>)
    ensures
        final(parts)@.map_values(|p: Vec<char>| p@) == old(parts)@.map_values(|p: Vec<char>| p@) + lua_entries(
            dir@,
            has_lua,
        ),
{
    let ghost before = parts@.map_values(|p: Vec<char>| p@);
    if has_lua {
        let l = join_exec(dir, "lua");
        let mut a = copy_chars(&l);
        let mut b = l;
        let ghost lv = b@;
        append_lit(&mut a, "/?.lua");
        append_lit(&mut b, "/?/init.lua");
        let ghost av = a@;
        let ghost bv = b@;
        parts.push(a);
        parts.push(b);
        proof {
            assert(parts@.map_values(|p: Vec<char>| p@) =~= before + seq![av, bv]);
        }
    } else {
        assert(before + lua_entries(dir@, has_lua) =~= before);
    }
}

/// Append the characters of `lit` to `v`.
pub(crate) fn append_lit(v: &mut Vec<char>, lit: &str)
    ensures
        final(v)@ == old(v)@ + lit@,
{
    let n = lit.unicode_len();
    let mut j: usize = 0;
    while j < n
        invariant
            n == lit@.len(),
            j <= n,
            v@ == old(v)@ + lit@.take(j as int),
        decreases n - j,
    {
        v.push(lit.get_char(j));
        assert(v@ =~= old(v)@ + lit@.take(j + 1));
        j += 1;
    }
    assert(lit@.take(n as int) =~= lit@);
}

/// The directories `require` searches, as a `package.path` string: for each
/// root, its packages' `lua` directories and then its own, for those that
/// exist.
pub fn lua_path(roots: &Vec<(String, RootScan)>) -> (r: String)
    ensures
        r@ == joined(roots_lua_entries(roots@)),
{
    let mut parts: Vec<Vec<char>> = Vec::new();
    let mut i: usize = 0;
    proof {
        assert(roots@.take(0) =~= Seq::<(String, RootScan)>::empty());
        assert(parts@.map_values(|p: Vec<char>| p@) =~= Seq::<Seq<char>>::empty());
    }
    while i < roots.len()
        invariant
            i <= roots.len(),
            parts@.map_values(|p: Vec<char>| p@) == roots_lua_entries(roots@.take(i as int)),
        decreases roots.len() - i,
    {
        let root = chars_of(roots[i].0.as_str());
        let scan = &roots[i].1;
        let ghost base = parts@.map_values(|p: Vec<char>| p@);
        let pkgs = packages(&root, &scan.pack);
        let ghost pv = pkgs@.map_values(|e: (Vec<char>, &Package)| (e.0@, *e.1));
        let mut p: usize = 0;
        proof {
            assert(pv.take(0) =~= Seq::<(Seq<char>, Package)>::empty());
        }
        while p < pkgs.len()
            invariant
                p <= pkgs.len(),
                pv == pkgs@.map_values(|e: (Vec<char>, &Package)| (e.0@, *e.1)),
                parts@.map_values(|q: Vec<char>| q@) == base + package_lua_entries(pv.take(p as int)),
            decreases pkgs.len() - p,
        {
            push_lua_dir(&pkgs[p].0, pkgs[p].1.has_lua, &mut parts);
            proof {
                assert(pv.take(p + 1).drop_last() =~= pv.take(p as int));
                assert(pv.take(p + 1).last() == pv[p as int]);
                assert(parts@.map_values(|q: Vec<char>| q@) =~= base + package_lua_entries(pv.take(p + 1)));
            }
            p += 1;
        }
        push_lua_dir(&root, scan.has_lua, &mut parts);
        proof {
            assert(pv.take(pkgs.len() as int) =~= pv);
            assert(roots@.take(i + 1).drop_last() =~= roots@.take(i as int));
            assert(roots@.take(i + 1).last() == roots@[i as int]);
            assert(parts@.map_values(|q: Vec<char>| q@) =~= roots_lua_entries(roots@.take(i + 1)));
        }
        i += 1;
    }
    proof {
        assert(roots@.take(roots.len() as int) =~= roots@);
    }
    let ghost pv = parts@.map_values(|q: Vec<char>| q@);
    let mut out: Vec<char> = Vec::new();
    let mut k: usize = 0;
    proof {
        assert(pv.take(0) =~= Seq::<Seq<char>>::empty());
    }
    while k < parts.len()
        invariant
            k <= parts.len(),
            pv == parts@.map_values(|q: Vec<char>| q@),
            out@ == joined(pv.take(k as int)),
        decreases parts.len() - k,
    {
        let ghost before = out@;
        if k > 0 {
            out.push(';');
        }
        let mut j: usize = 0;
        let ghost mid = out@;
        while j < parts[k].len()
            invariant
                k < parts.len(),
                j <= parts@[k as int].len(),
                out@ == mid + parts@[k as int]@.take(j as int),
            decreases parts@[k as int].len() - j,
        {
            out.push(parts[k][j]);
            assert(out@ =~= mid + parts@[k as int]@.take(j + 1));
            j += 1;
        }
        proof {
            assert(parts@[k as int]@.take(parts@[k as int].len() as int) =~= parts@[k as int]@);
            assert(pv[k as int] == parts@[k as int]@);
            assert(pv.take(k + 1).drop_last() =~= pv.take(k as int));
            assert(pv.take(k + 1).last() == pv[k as int]);
            if k == 0 {
                assert(pv.take(1)[0] == pv[0]);
                assert(out@ =~= joined(pv.take(1)));
            } else {
                assert(out@ =~= joined(pv.take(k + 1)));
            }
        }
        k += 1;
    }
    proof {
        assert(pv.take(parts.len() as int) =~= pv);
    }
    string_of(&out)
}

/// A directory that holds nothing, or could not be read.
pub open spec fn scan_is_empty(d: DirScan) -> bool {
    d.files@.len() == 0 && d.dirs@.len() == 0
}

/// A root with nothing under it, as a missing root is.
pub open spec fn root_is_empty(r: RootScan) -> bool {
    scan_is_empty(r.plugin) && scan_is_empty(r.after_plugin) && !r.has_lua && r.pack@.len() == 0
}

proof fn lemma_empty_scan(dir: Seq<char>, d: DirScan)
    requires
        scan_is_empty(d),
    ensures
        scan_files(dir, d) == Seq::<Seq<char>>::empty(),
{
    reveal(Seq::filter);
    assert(strings_view(d.files@) =~= Seq::<Seq<char>>::empty());
    assert(strings_view(d.files@).filter(|n: Seq<char>| is_lua_file(n)) =~= Seq::<Seq<char>>::empty());
    assert(names_of(d.dirs@) =~= Seq::<Seq<char>>::empty());
    assert(scan_files(dir, d) =~= Seq::<Seq<char>>::empty());
}

/// Roots with nothing under them (a missing root among them) are no error:
/// they contribute no plugin file and no `require` directory.
pub proof fn law_empty_roots_contribute_nothing(rs: Seq<(String, RootScan)>)
    requires
        forall|i: int| 0 <= i < rs.len() ==> root_is_empty(#[trigger] rs[i].1),
    ensures
        spec_plugin_files(rs) == Seq::<Seq<char>>::empty(),
        joined(roots_lua_entries(rs)) == Seq::<char>::empty(),
    decreases rs.len(),
{
    if rs.len() > 0 {
        let init = rs.drop_last();
        assert forall|i: int| 0 <= i < init.len() implies root_is_empty(#[trigger] init[i].1) by {
            assert(init[i] == rs[i]);
        }
        law_empty_roots_contribute_nothing(init);
        let last = rs.last();
        assert(root_is_empty(rs[rs.len() - 1].1));
        lemma_empty_scan(join(last.0@, "plugin"@), last.1.plugin);
        lemma_empty_scan(join(last.0@, "after/plugin"@), last.1.after_plugin);
        assert(names_of(last.1.pack@) =~= Seq::<Seq<char>>::empty());
        assert(spec_packages(last.0@, last.1.pack@) =~= Seq::<(Seq<char>, Package)>::empty());
        assert(roots_plugin_files(init) =~= Seq::<Seq<char>>::empty()) by {
            assert(spec_plugin_files(init) == Seq::<Seq<char>>::empty());
        }
        assert(roots_after_files(init) =~= Seq::<Seq<char>>::empty()) by {
            assert(spec_plugin_files(init) == Seq::<Seq<char>>::empty());
        }
        assert(spec_plugin_files(rs) =~= Seq::<Seq<char>>::empty());
        assert(roots_lua_entries(rs) =~= roots_lua_entries(init));
    }
}

/// Lists of the same entries map to lists of the same images.
proof fn lemma_map_multiset<A, B>(s: Seq<A>, t: Seq<A>, f: spec_fn(A) -> B)
    requires
        s.to_multiset() == t.to_multiset(),
    ensures
        s.map_values(f).to_multiset() == t.map_values(f).to_multiset(),
    decreases s.len(),
{
    broadcast use vstd::seq_lib::group_to_multiset_ensures;
    broadcast use vstd::multiset::group_multiset_axioms;

    vstd::seq_lib::to_multiset_len(s);
    vstd::seq_lib::to_multiset_len(t);
    if s.len() == 0 {
        assert(s.map_values(f) =~= t.map_values(f));
    } else {
        let x = s.last();
        let s1 = s.drop_last();
        assert(s =~= s1.push(x));
        vstd::seq_lib::to_multiset_build(s1, x);
        vstd::seq_lib::to_multiset_contains(t, x);
        let i = choose|i: int| 0 <= i < t.len() && t[i] == x;
        let t1 = t.remove(i);
        vstd::seq_lib::to_multiset_remove(t, i);
        assert(t1.to_multiset() =~= s1.to_multiset());
        lemma_map_multiset(s1, t1, f);
        assert(s.map_values(f) =~= s1.map_values(f).push(f(x)));
        vstd::seq_lib::to_multiset_build(s1.map_values(f), f(x));
        let tm = t.map_values(f);
        assert(tm.remove(i) =~= t1.map_values(f));
        vstd::seq_lib::to_multiset_remove(tm, i);
        assert(tm[i] == f(x));
        assert(tm.to_multiset().count(f(x)) > 0) by {
            vstd::seq_lib::to_multiset_contains(tm, f(x));
            assert(tm.contains(tm[i]));
        }
        assert(tm.to_multiset() =~= t1.map_values(f).to_multiset().insert(f(x)));
    }
}

/// How often `y` occurs among the kept entries of a list.
proof fn lemma_filter_count<A>(s: Seq<A>, p: spec_fn(A) -> bool, y: A)
    ensures
        s.filter(p).to_multiset().count(y) == if p(y) {
            s.to_multiset().count(y)
        } else {
            0
        },
    decreases s.len(),
{
    broadcast use vstd::seq_lib::group_to_multiset_ensures;
    broadcast use vstd::multiset::group_multiset_axioms;

    if s.len() == 0 {
        assert(s.filter(p) =~= Seq::<A>::empty()) by {
            reveal(Seq::filter);
        }
        assert(s.to_multiset() =~= vstd::multiset::Multiset::empty()) by {
            vstd::seq_lib::to_multiset_len(s);
        }
        assert(s.filter(p).to_multiset() =~= vstd::multiset::Multiset::empty()) by {
            vstd::seq_lib::to_multiset_len(s.filter(p));
        }
    } else {
        let x = s.last();
        let s1 = s.drop_last();
        assert(s =~= s1.push(x));
        lemma_filter_count(s1, p, y);
        s1.lemma_filter_push(x, p);
        vstd::seq_lib::to_multiset_build(s1, x);
        if p(x) {
            vstd::seq_lib::to_multiset_build(s1.filter(p), x);
        }
    }
}

/// Lists of the same entries keep the same entries.
proof fn lemma_filter_multiset<A>(s: Seq<A>, t: Seq<A>, p: spec_fn(A) -> bool)
    requires
        s.to_multiset() == t.to_multiset(),
    ensures
        s.filter(p).to_multiset() == t.filter(p).to_multiset(),
{
    assert forall|y: A| s.filter(p).to_multiset().count(y) == t.filter(p).to_multiset().count(y) by {
        lemma_filter_count(s, p, y);
        lemma_filter_count(t, p, y);
    }
    assert(s.filter(p).to_multiset() =~= t.filter(p).to_multiset());
}

/// `find_name` gives an entry with that name, and finds one if there is
/// one; or it gives the list's length.
proof fn lemma_find_name_result<T>(s: Seq<(String, T)>, n: Seq<char>, m: int)
    requires
        0 <= m,
    ensures
        find_name(s, n, m) == s.len() || (m <= find_name(s, n, m) < s.len() && s[find_name(s, n, m)].0@ == n),
        (exists|j: int| m <= j < s.len() && (#[trigger] s[j]).0@ == n) ==> find_name(s, n, m) < s.len(),
    decreases s.len() - m,
{
    if m < s.len() && s[m].0@ != n {
        lemma_find_name_result(s, n, m + 1);
        if exists|j: int| m <= j < s.len() && (#[trigger] s[j]).0@ == n {
            let j = choose|j: int| m <= j < s.len() && (#[trigger] s[j]).0@ == n;
            assert(m + 1 <= j);
        }
    }
}

/// The subdirectory a list of uniquely named entries holds by a name.
pub open spec fn entry_named<T>(s: Seq<(String, T)>, n: Seq<char>) -> Option<T> {
    let j = find_name(s, n, 0);
    if 0 <= j < s.len() {
        Some(s[j].1)
    } else {
        None
    }
}

/// Two listings of the same uniquely named entries hold the same entry by
/// each name.
proof fn lemma_entries_agree<T>(a: Seq<(String, T)>, b: Seq<(String, T)>, n: Seq<char>)
    requires
        a.to_multiset() == b.to_multiset(),
        names_of(a).no_duplicates(),
    ensures
        entry_named(a, n) == entry_named(b, n),
{
    broadcast use vstd::seq_lib::group_to_multiset_ensures;

    let key = |e: (String, T)| e.0@;
    lemma_map_multiset(a, b, key);
    assert(names_of(a) == a.map_values(key));
    assert(names_of(b) == b.map_values(key));
    names_of(a).lemma_multiset_has_no_duplicates();
    names_of(b).lemma_multiset_has_no_duplicates_conv();
    lemma_find_name_result(a, n, 0);
    lemma_find_name_result(b, n, 0);
    let ja = find_name(a, n, 0);
    let jb = find_name(b, n, 0);
    if ja < a.len() {
        vstd::seq_lib::to_multiset_contains(a, a[ja]);
        vstd::seq_lib::to_multiset_contains(b, a[ja]);
        assert(a.contains(a[ja]));
        let k = choose|k: int| 0 <= k < b.len() && b[k] == a[ja];
        assert(b[k].0@ == n);
        assert(jb < b.len());
        assert(names_of(b)[jb] == names_of(b)[k]);
        assert(jb == k);
    } else if jb < b.len() {
        vstd::seq_lib::to_multiset_contains(b, b[jb]);
        vstd::seq_lib::to_multiset_contains(a, b[jb]);
        assert(b.contains(b[jb]));
        let k = choose|k: int| 0 <= k < a.len() && a[k] == b[jb];
        assert(a[k].0@ == n);
        assert(false);
    }
}

proof fn lemma_subdirs_agree(dir: Seq<char>, a: DirScan, b: DirScan, names: Seq<Seq<char>>, k: int)
    requires
        forall|n: Seq<char>| #[trigger] entry_named(a.dirs@, n) == entry_named(b.dirs@, n),
    ensures
        subdir_files(dir, a, names, k) == subdir_files(dir, b, names, k),
    decreases names.len() - k,
{
    if 0 <= k < names.len() {
        assert(entry_named(a.dirs@, names[k]) == entry_named(b.dirs@, names[k]));
        lemma_subdirs_agree(dir, a, b, names, k + 1);
    }
}

/// The files a plugin directory runs do not depend on the order in which
/// its entries were listed: listing the same files and the same
/// subdirectories in another order gives the same files in the same order.
pub proof fn law_listing_order_does_not_matter(dir: Seq<char>, a: DirScan, b: DirScan)
    requires
        a.files@.to_multiset() == b.files@.to_multiset(),
        a.dirs@.to_multiset() == b.dirs@.to_multiset(),
        names_of(a.dirs@).no_duplicates(),
    ensures
        scan_files(dir, a) == scan_files(dir, b),
{
    let view = |s: String| s@;
    lemma_map_multiset(a.files@, b.files@, view);
    assert(strings_view(a.files@) == a.files@.map_values(view));
    assert(strings_view(b.files@) == b.files@.map_values(view));
    let lua = |n: Seq<char>| is_lua_file(n);
    lemma_filter_multiset(strings_view(a.files@), strings_view(b.files@), lua);
    law_sort_names_ignores_the_given_order(
        strings_view(a.files@).filter(lua),
        strings_view(b.files@).filter(lua),
    );
    let key = |e: (String, DirScan)| e.0@;
    lemma_map_multiset(a.dirs@, b.dirs@, key);
    assert(names_of(a.dirs@) == a.dirs@.map_values(key));
    assert(names_of(b.dirs@) == b.dirs@.map_values(key));
    law_sort_names_ignores_the_given_order(names_of(a.dirs@), names_of(b.dirs@));
    assert forall|n: Seq<char>| #[trigger] entry_named(a.dirs@, n) == entry_named(b.dirs@, n) by {
        lemma_entries_agree(a.dirs@, b.dirs@, n);
    }
    lemma_subdirs_agree(dir, a, b, sort_names(names_of(a.dirs@)), 0);
}

/// A directory's own `.lua` files run first, in ascending order of name,
/// and then its subdirectories' files, subdirectory by subdirectory in
/// ascending order of name.
pub proof fn law_a_directory_runs_in_alphabetical_order(dir: Seq<char>, scan: DirScan)
    ensures
        exists|own: Seq<Seq<char>>, names: Seq<Seq<char>>|
            #![trigger is_sorted(own), is_sorted(names)]
            {
                &&& is_sorted(own)
                &&& own.to_multiset() == strings_view(scan.files@).filter(|n: Seq<char>| is_lua_file(n)).to_multiset()
                &&& is_sorted(names)
                &&& names.to_multiset() == names_of(scan.dirs@).to_multiset()
                &&& scan_files(dir, scan) == own.map_values(|n: Seq<char>| join(dir, n)) + subdir_files(
                    dir,
                    scan,
                    names,
                    0,
                )
            },
{
    let files = strings_view(scan.files@).filter(|n: Seq<char>| is_lua_file(n));
    let own = sort_names(files);
    let names = sort_names(names_of(scan.dirs@));
    law_sort_names_is_sorted(files);
    law_sort_names_is_sorted(names_of(scan.dirs@));
    lemma_sort_multiset(files);
    lemma_sort_multiset(names_of(scan.dirs@));
    assert(is_sorted(own) && is_sorted(names));
}

} // verus!
