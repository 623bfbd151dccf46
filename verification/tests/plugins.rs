use oxin::plugins::runtimepath;

#[test]
fn the_runtimepath_is_a_list_not_a_single_directory() {
    // A path with one element is still a path; growing one later would be
    // a config break, so the shape is here from the start.
    let roots = runtimepath(None, Some("/home/user"));
    assert!(roots.len() >= 2, "{roots:?}");
    assert!(roots[0].starts_with("/etc"), "system root first: {roots:?}");
}

#[test]
fn the_user_root_follows_xdg_config_home_then_home() {
    assert_eq!(
        runtimepath(Some("/x/cfg"), Some("/home/u")),
        vec!["/etc/xdg/0xin".to_string(), "/x/cfg/0xin".to_string()]
    );
    assert_eq!(
        runtimepath(Some("/x/cfg/"), None),
        vec!["/etc/xdg/0xin".to_string(), "/x/cfg/0xin".to_string()]
    );
    assert_eq!(
        runtimepath(Some(""), Some("/home/u")),
        vec!["/etc/xdg/0xin".to_string(), "/home/u/.config/0xin".to_string()]
    );
    assert_eq!(runtimepath(None, Some("")), vec!["/etc/xdg/0xin".to_string()]);
}

use oxin::plugins::{lua_path, plugin_files, DirScan, Package, RootScan};

fn empty_dir() -> DirScan {
    DirScan { files: vec![], dirs: vec![] }
}

fn dir(files: &[&str], dirs: Vec<(&str, DirScan)>) -> DirScan {
    DirScan {
        files: files.iter().map(|f| f.to_string()).collect(),
        dirs: dirs.into_iter().map(|(n, d)| (n.to_string(), d)).collect(),
    }
}

fn empty_root() -> RootScan {
    RootScan { plugin: empty_dir(), after_plugin: empty_dir(), has_lua: false, pack: vec![] }
}

#[test]
fn a_missing_root_is_not_an_error() {
    let missing = vec![("/nonexistent/0xin".to_string(), empty_root())];
    assert!(plugin_files(&missing).is_empty());
    assert!(lua_path(&missing).is_empty());
}

#[test]
fn plugin_files_are_ordered_alphabetically_with_after_last() {
    // plugin/b.lua, plugin/a.lua, plugin/nested/z.lua, after/plugin/late.lua,
    // pack/vendor/start/demo/plugin/p.lua, lua/helper.lua, as found on disk.
    let demo = Package { plugin: dir(&["p.lua"], vec![]), has_lua: false };
    let root = RootScan {
        plugin: dir(&["b.lua", "a.lua"], vec![("nested", dir(&["z.lua"], vec![]))]),
        after_plugin: dir(&["late.lua"], vec![]),
        has_lua: true,
        pack: vec![("vendor".to_string(), vec![("demo".to_string(), demo)])],
    };
    let files = plugin_files(&vec![("/r".to_string(), root)]);
    assert_eq!(
        files,
        vec![
            // Packages join the path before the root's own plugin dir.
            "/r/pack/vendor/start/demo/plugin/p.lua",
            // Alphabetical within a directory, files before subdirectories.
            "/r/plugin/a.lua",
            "/r/plugin/b.lua",
            "/r/plugin/nested/z.lua",
            // `after` is always last.
            "/r/after/plugin/late.lua",
        ],
    );
}

#[test]
fn only_lua_files_run_and_after_comes_after_every_root() {
    let first = RootScan {
        plugin: dir(&["x.lua", "notes.txt", ".lua", "y.LUA"], vec![]),
        after_plugin: dir(&["z.lua"], vec![]),
        has_lua: false,
        pack: vec![],
    };
    let second = RootScan {
        plugin: dir(&["a.lua"], vec![]),
        after_plugin: empty_dir(),
        has_lua: false,
        pack: vec![],
    };
    let files = plugin_files(&vec![("/one".to_string(), first), ("/two/".to_string(), second)]);
    assert_eq!(files, vec!["/one/plugin/x.lua", "/two/plugin/a.lua", "/one/after/plugin/z.lua"]);
}

#[test]
fn lua_directories_join_the_require_path_packages_first() {
    let pkg = Package { plugin: empty_dir(), has_lua: true };
    let root = RootScan {
        plugin: empty_dir(),
        after_plugin: empty_dir(),
        has_lua: true,
        pack: vec![("g".to_string(), vec![("p".to_string(), pkg)])],
    };
    let path = lua_path(&vec![("/r".to_string(), root)]);
    assert_eq!(
        path,
        "/r/pack/g/start/p/lua/?.lua;/r/pack/g/start/p/lua/?/init.lua;/r/lua/?.lua;/r/lua/?/init.lua"
    );
}
