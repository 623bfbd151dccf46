//! Where a wallpaper path points (a leading `~/` stands for the home
//! directory when the environment names one), and the whole-pixel part of
//! covering an output with it: the output must have a size, and the scaled
//! image is cropped about its centre. Decoding and scaling are the shell's.

use vstd::prelude::*;
use crate::plugins::{join, opt_str, join_chars};
use crate::text::{chars_of, slice, string_of};

verus! {

/// `path` with a leading `~/` replaced by `home` joined to the rest; any
/// other path, or any path when no home is known, as it is.
pub open spec fn spec_expand_home(path: Seq<char>, home: Option<Seq<char>>) -> Seq<char> {
    if path.len() >= 2 && path[0] == '~' && path[1] == '/' && home is Some {
        join(home->0, path.skip(2))
    } else {
        path
    }
}

pub fn expand_home(path: &str, home: Option<&str>) -> (r: String)
    ensures
        r@ == spec_expand_home(path@, opt_str(home)),
{
    let p = chars_of(path);
    if p.len() >= 2 && p[0] == '~' && p[1] == '/' {
        if let Some(h) = home {
            let rest = slice(&p, 2, p.len());
            assert(rest@ =~= path@.skip(2));
            return string_of(&join_chars(&chars_of(h), &rest));
        }
    }
    string_of(&p)
}

/// The size a wallpaper fills on an output of `w` x `h`, or why none can be
/// made for it.
pub open spec fn spec_wallpaper_target(w: i32, h: i32) -> Result<(u32, u32), Seq<char>> {
    if w <= 0 || h <= 0 {
        Err("output has no size yet"@)
    } else {
        Ok((w as u32, h as u32))
    }
}

/// The size in pixels a wallpaper must fill on an output of `w` x `h`, or
/// the refusal for an output that has no size yet.
pub fn wallpaper_target(w: i32, h: i32) -> (r: Result<(u32, u32), String>)
    ensures
        match spec_wallpaper_target(w, h) {
            Ok(size) => r == Ok::<(u32, u32), String>(size),
            Err(e) => r matches Err(m) && m@ == e,
        },
{
    if w <= 0 || h <= 0 {
        let m = "output has no size yet".to_string();
        proof {
            reveal_strlit("output has no size yet");
        }
        Err(m)
    } else {
        Ok((w as u32, h as u32))
    }
}

/// Where the centred crop of the scaled image starts along one axis: half
/// of what overflows the output, nothing when nothing does.
pub open spec fn crop_start(scaled: u32, out: u32) -> u32 {
    if scaled >= out {
        ((scaled - out) / 2) as u32
    } else {
        0
    }
}

/// The top-left corner of the part of a cover-scaled image of
/// `scaled_w` x `scaled_h` that is shown on an output of `out_w` x `out_h`.
pub fn crop_offset(scaled_w: u32, scaled_h: u32, out_w: u32, out_h: u32) -> (r: (u32, u32))
    ensures
        r == (crop_start(scaled_w, out_w), crop_start(scaled_h, out_h)),
{
    let x = if scaled_w >= out_w {
        (scaled_w - out_w) / 2
    } else {
        0
    };
    let y = if scaled_h >= out_h {
        (scaled_h - out_h) / 2
    } else {
        0
    };
    (x, y)
}

} // verus!
