//! Where the script `init.lua` is looked for, and whether plugins run.
//!
//! In order: `$OXIN_CONFIG` as an exact path; then the user's own file
//! (`$XDG_CONFIG_HOME/0xin/init.lua`, else `~/.config/0xin/init.lua`) if it
//! exists; then the system's (`/etc/xdg/0xin/init.lua`) if that exists; and
//! failing both, the user's path, because "no ~/.config/0xin/init.lua" is a
//! more useful thing to report than a file the user cannot write.

use vstd::prelude::*;
use crate::config::{default_config, ConfigV, MOD_LOGO};
use crate::defaults::{builtin_keys_known, spec_default_binds};
use crate::drive::Registry;
use crate::names::Keysyms;
use crate::plugins::{join, join_exec, opt_str, SYSTEM_ROOT};
use crate::staging::{
    fresh_staging, law_an_empty_load_finishes_with_the_builtin_keymap, Finished, Staged,
};
use crate::text::{chars_of, string_of};

verus! {

/// The user's own `init.lua`, if the environment says where their home is.
pub open spec fn spec_user_config_path(xdg_config_home: Option<Seq<char>>, home: Option<Seq<char>>) -> Option<Seq<char>> {
    match xdg_config_home {
        Some(d) if d.len() > 0 => Some(join(d, "0xin/init.lua"@)),
        _ => match home {
            Some(h) if h.len() > 0 => Some(join(h, ".config/0xin/init.lua"@)),
            _ => None,
        },
    }
}

pub fn user_config_path(xdg_config_home: Option<&str>, home: Option<&str>) -> (r: Option<String>)
    ensures
        match r {
            Some(p) => spec_user_config_path(opt_str(xdg_config_home), opt_str(home)) == Some(p@),
            None => spec_user_config_path(opt_str(xdg_config_home), opt_str(home)) is None,
        },
{
    if let Some(d) = xdg_config_home {
        if d.unicode_len() > 0 {
            return Some(string_of(&join_exec(&chars_of(d), "0xin/init.lua")));
        }
    }
    if let Some(h) = home {
        if h.unicode_len() > 0 {
            return Some(string_of(&join_exec(&chars_of(h), ".config/0xin/init.lua")));
        }
    }
    None
}

/// The system-wide `init.lua`, in the root the plugin search already scans.
pub fn system_config_path() -> (r: String)
    ensures
        r@ == join(SYSTEM_ROOT@, "init.lua"@),
{
    string_of(&join_exec(&chars_of(SYSTEM_ROOT), "init.lua"))
}

/// The user's file when it exists, the system's when only that exists, and
/// the user's path when neither does.
pub open spec fn spec_pick(user: Option<Seq<char>>, user_is_file: bool, system: Seq<char>, system_is_file: bool) -> Option<Seq<char>> {
    if user is Some && user_is_file {
        user
    } else if system_is_file {
        Some(system)
    } else {
        user
    }
}

pub fn pick(user: Option<String>, user_is_file: bool, system: String, system_is_file: bool) -> (r: Option<String>)
    ensures
        opt_string(r) == spec_pick(opt_string(user), user_is_file, system@, system_is_file),
{
    if user.is_some() && user_is_file {
        return user;
    }
    if system_is_file {
        return Some(system);
    }
    user
}

pub open spec fn opt_string(o: Option<String>) -> Option<Seq<char>> {
    match o {
        Some(s) => Some(s@),
        None => None,
    }
}

/// `$OXIN_CONFIG`, an exact path that overrides the search; empty counts as
/// unset.
pub fn config_override(oxin_config: Option<&str>) -> (r: Option<String>)
    ensures
        match oxin_config {
            Some(p) => if p@.len() > 0 {
                r matches Some(x) && x@ == p@
            } else {
                r is None
            },
            None => r is None,
        },
{
    match oxin_config {
        Some(p) => if p.unicode_len() > 0 {
            Some(p.to_owned())
        } else {
            None
        },
        None => None,
    }
}

/// Plugins are skipped for a run started with `--noplugin`, or with a
/// non-empty `OXIN_NOPLUGIN`.
pub fn no_plugins(noplugin_flag: bool, oxin_noplugin: Option<&str>) -> (r: bool)
    ensures
        r == (noplugin_flag || (oxin_noplugin matches Some(v) && v@.len() > 0)),
{
    noplugin_flag || match oxin_noplugin {
        Some(v) => v.unicode_len() > 0,
        None => false,
    }
}

/// A user who has their own file always gets it, whatever the system has.
pub proof fn law_user_file_wins(user: Seq<char>, system: Seq<char>, system_is_file: bool)
    ensures
        spec_pick(Some(user), true, system, system_is_file) == Some(user),
{
}

/// Where the line-based `0xin.conf` is read from: `$OXIN_CONFIG` when set
/// and not empty, else `$XDG_CONFIG_HOME/0xin/0xin.conf` when that is set
/// and not empty, else `$HOME/.config/0xin/0xin.conf` (an empty `HOME`
/// included); nowhere without a `HOME`.
pub open spec fn spec_text_config_path(oxin_config: Option<Seq<char>>, xdg_config_home: Option<Seq<char>>, home: Option<Seq<char>>) -> Option<Seq<char>> {
    match oxin_config {
        Some(p) if p.len() > 0 => Some(p),
        _ => match xdg_config_home {
            Some(d) if d.len() > 0 => Some(join(d, "0xin/0xin.conf"@)),
            _ => match home {
                Some(h) => Some(join(h, ".config/0xin/0xin.conf"@)),
                None => None,
            },
        },
    }
}

pub fn text_config_path(oxin_config: Option<&str>, xdg_config_home: Option<&str>, home: Option<&str>) -> (r: Option<String>)
    ensures
        opt_string(r) == spec_text_config_path(opt_str(oxin_config), opt_str(xdg_config_home), opt_str(home)),
{
    if let Some(p) = oxin_config {
        if p.unicode_len() > 0 {
            return Some(p.to_owned());
        }
    }
    if let Some(d) = xdg_config_home {
        if d.unicode_len() > 0 {
            return Some(string_of(&join_exec(&chars_of(d), "0xin/0xin.conf")));
        }
    }
    match home {
        Some(h) => Some(string_of(&join_exec(&chars_of(h), ".config/0xin/0xin.conf"))),
        None => None,
    }
}

/// The built-in configuration: the default settings and the whole default
/// keymap for the default modifier.
pub open spec fn builtin_config(keys: Map<Seq<char>, u32>) -> ConfigV {
    ConfigV { binds: spec_default_binds(keys, MOD_LOGO), ..default_config() }
}

/// What a run starts with once the scripts have been loaded. A load that
/// finished hands over what it staged. One that failed (it raised, or ran
/// out of fuel or time) is never half applied: the run starts on the
/// built-in configuration, with no bound functions or handlers, as if there
/// had been no script, and the reason is kept for `0xinctl config-error`.
pub fn settle(outcome: Result<Finished, String>, reg: &mut Registry, keys: &Keysyms) -> (r: Finished)
    requires
        builtin_keys_known(keys@),
    ensures
        match outcome {
            Ok(f) => r == f && final(reg).config_error == old(reg).config_error,
            Err(m) => r.config@ == builtin_config(keys@) && r.functions == 0 && r.handlers@ == seq![
                0u32,
                0u32,
                0u32,
            ] && final(reg).config_error == Some(m),
        },
        final(reg).depth == old(reg).depth,
        final(reg).quarantined@ == old(reg).quarantined@,
{
    match outcome {
        Ok(f) => f,
        Err(m) => {
            reg.config_error = Some(m);
            let fresh = Staged::new();
            proof {
                assert(fresh@ == fresh_staging());
                law_an_empty_load_finishes_with_the_builtin_keymap(keys@);
            }
            let r = fresh.finish(keys);
            proof {
                assert(r.config@ == builtin_config(keys@));
            }
            r
        },
    }
}

} // verus!
