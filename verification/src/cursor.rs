//! The pointer's shapes and the theme settings they are loaded with.
//!
//! The theme's files are found and read by the shell and the chosen image is
//! drawn there; which icon a shape is, which theme and size to load, how a
//! shape file's bytes are decoded and which of its images is drawn, are
//! decided here.

use vstd::prelude::*;
use crate::text::{chars_of, parse_uint, parse_uint_within};

verus! {

/// The cursor size used when `XCURSOR_SIZE` does not give one.
pub const CURSOR_SIZE: u32 = 24;

/// The pointer shapes the compositor draws.
#[derive(Clone, Copy, PartialEq, Eq, Structural, Debug, Hash)]
pub enum Shape {
    Default,
    /// While a window is being moved.
    Grabbing,
}

impl Shape {
    /// The xcursor icon name for the shape.
    pub fn icon(self) -> (r: &'static str)
        ensures
            r@ == (match self {
                Shape::Default => "default"@,
                Shape::Grabbing => "grabbing"@,
            }),
    {
        match self {
            Shape::Default => "default",
            Shape::Grabbing => "grabbing",
        }
    }
}

/// The cursor size for `XCURSOR_SIZE`: its value when it is a whole number
/// that fits `u32`, else the default.
pub open spec fn spec_cursor_size(env: Option<Seq<char>>) -> u32 {
    match env {
        Some(s) => match parse_uint(s) {
            Some(n) => if n <= u32::MAX {
                n as u32
            } else {
                CURSOR_SIZE
            },
            None => CURSOR_SIZE,
        },
        None => CURSOR_SIZE,
    }
}

pub fn cursor_size(xcursor_size: Option<&str>) -> (r: u32)
    ensures
        r == spec_cursor_size(crate::plugins::opt_str(xcursor_size)),
{
    match xcursor_size {
        Some(s) => match parse_uint_within(&chars_of(s), u32::MAX as u64) {
            Some(n) => n as u32,
            None => CURSOR_SIZE,
        },
        None => CURSOR_SIZE,
    }
}

/// The theme for `XCURSOR_THEME`: its value, or `default` when unset.
pub fn theme_name(xcursor_theme: Option<&str>) -> (r: String)
    ensures
        r@ == (match xcursor_theme {
            Some(t) => t@,
            None => "default"@,
        }),
{
    match xcursor_theme {
        Some(t) => t.to_owned(),
        None => "default".to_owned(),
    }
}

/// How far an image's nominal size is from the wanted one.
pub open spec fn size_gap(size: u32, want: u32) -> int {
    if size >= want {
        size - want
    } else {
        want - size
    }
}

/// Position `i` holds the first of the sizes closest to `want`.
pub open spec fn is_nearest(sizes: Seq<u32>, want: u32, i: int) -> bool {
    &&& 0 <= i < sizes.len()
    &&& forall|k: int| 0 <= k < sizes.len() ==> size_gap(sizes[i], want) <= size_gap(#[trigger] sizes[k], want)
    &&& forall|k: int| 0 <= k < i ==> size_gap(sizes[i], want) < size_gap(#[trigger] sizes[k], want)
}

/// Which of a shape's images to draw: the first whose nominal size is
/// closest to the wanted size, the way an xcursor manager picks; none from
/// an empty list.
pub fn nearest_size(sizes: &Vec<u32>, want: u32) -> (r: Option<usize>)
    ensures
        match r {
            Some(i) => is_nearest(sizes@, want, i as int),
            None => sizes.len() == 0,
        },
{
    if sizes.len() == 0 {
        return None;
    }
    let mut best: usize = 0;
    let mut best_gap: u32 = if sizes[0] >= want { sizes[0] - want } else { want - sizes[0] };
    let mut i: usize = 1;
    while i < sizes.len()
        invariant
            1 <= i <= sizes.len(),
            best < i,
            best_gap == size_gap(sizes@[best as int], want),
            forall|k: int| 0 <= k < i ==> best_gap <= size_gap(#[trigger] sizes@[k], want),
            forall|k: int| 0 <= k < best ==> best_gap < size_gap(#[trigger] sizes@[k], want),
        decreases sizes.len() - i,
    {
        let gap: u32 = if sizes[i] >= want { sizes[i] - want } else { want - sizes[i] };
        if gap < best_gap {
            best = i;
            best_gap = gap;
        }
        i += 1;
    }
    Some(best)
}

/// One image of a cursor file: its nominal size, its pixel dimensions, its
/// hotspot, its frame delay in milliseconds and its pixels, four bytes each.
pub struct CursorImage {
    pub size: u32,
    pub width: u32,
    pub height: u32,
    pub xhot: u32,
    pub yhot: u32,
    pub delay: u32,
    pub pixels_rgba: Vec<u8>,
}

/// An image as plain values, in the order of the fields.
pub type ImageV = (u32, u32, u32, u32, u32, u32, Seq<u8>);

impl View for CursorImage {
    type V = ImageV;

    open spec fn view(&self) -> ImageV {
        (self.size, self.width, self.height, self.xhot, self.yhot, self.delay, self.pixels_rgba@)
    }
}

/// The images that the xcursor crate decodes from a cursor file's bytes, in
/// the file's order; `None` when it refuses the file.
pub uninterp spec fn xcursor_images(bytes: Seq<u8>) -> Option<Seq<(u32, u32, u32, u32, u32, u32, Seq<u8>)>>;

/// A decoded file's images as plain values.
pub open spec fn images_view(r: Option<Vec<CursorImage>>) -> Option<Seq<ImageV>> {
    match r {
        Some(v) => Some(v@.map_values(|i: CursorImage| i@)),
        None => None,
    }
}

/// The nominal sizes of a list of images.
pub open spec fn image_sizes(images: Seq<ImageV>) -> Seq<u32> {
    images.map_values(|i: ImageV| i.0)
}

/// `r` is the image to draw of `images` at size `want`: the first of those
/// whose nominal size is closest to it, and nothing from an empty list.
pub open spec fn picks(images: Seq<ImageV>, want: u32, r: Option<ImageV>) -> bool {
    match r {
        Some(img) => exists|i: int| is_nearest(image_sizes(images), want, i) && img == #[trigger] images[i],
        None => images.len() == 0,
    }
}

/// Decodes a cursor file with `xcursor::parser::parse_xcursor`.
///
/// Trusted: the result is the crate's decoding of exactly these bytes, image
/// for image and field for field, named by `xcursor_images`; what that
/// decoding is (the file format) is not stated here.
#[verifier::external_body]
fn parse_cursor_file(bytes: &Vec<u8>) -> (r: Option<Vec<CursorImage>>)
    ensures
        images_view(r) == xcursor_images(bytes@),
{
    let images = xcursor::parser::parse_xcursor(bytes.as_slice())?;
    Some(images.into_iter().map(|i| CursorImage {
        size: i.size,
        width: i.width,
        height: i.height,
        xhot: i.xhot,
        yhot: i.yhot,
        delay: i.delay,
        pixels_rgba: i.pixels_rgba,
    }).collect())
}

/// The image of a decoded cursor file to draw at size `want`. Animated
/// cursors keep the first frame at the chosen size.
pub fn pick_cursor_image(images: Vec<CursorImage>, want: u32) -> (r: Option<CursorImage>)
    ensures
        picks(images@.map_values(|i: CursorImage| i@), want, match r {
            Some(img) => Some(img@),
            None => None,
        }),
{
    let ghost all = images@.map_values(|i: CursorImage| i@);
    let mut sizes: Vec<u32> = Vec::new();
    let mut k: usize = 0;
    while k < images.len()
        invariant
            k <= images.len(),
            sizes@ == image_sizes(all).take(k as int),
            all == images@.map_values(|i: CursorImage| i@),
        decreases images.len() - k,
    {
        sizes.push(images[k].size);
        proof {
            assert(sizes@ =~= image_sizes(all).take(k + 1));
        }
        k += 1;
    }
    proof {
        assert(sizes@ =~= image_sizes(all));
    }
    match nearest_size(&sizes, want) {
        Some(i) => {
            let mut images = images;
            let img = images.remove(i);
            proof {
                assert(img@ == all[i as int]);
            }
            Some(img)
        },
        None => None,
    }
}

/// The image to draw for a shape whose cursor file holds `bytes`, at size
/// `want`: none when the file does not decode or holds no image.
pub fn cursor_image_from_file(bytes: &Vec<u8>, want: u32) -> (r: Option<CursorImage>)
    ensures
        match xcursor_images(bytes@) {
            Some(images) => picks(images, want, match r {
                Some(img) => Some(img@),
                None => None,
            }),
            None => r is None,
        },
{
    match parse_cursor_file(bytes) {
        Some(images) => pick_cursor_image(images, want),
        None => None,
    }
}

} // verus!
