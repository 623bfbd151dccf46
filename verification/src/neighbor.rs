//! Directional focus: which window is "next to" the focused one in a
//! direction, judged by the windows' rects.
//!
//! Candidates are the windows whose centre lies on the right side. Like
//! i3/sway, the one sharing the most border with the focused window on the
//! axis across the direction wins (most overlap, then the smaller distance
//! along the direction, then the later window); only when no candidate
//! shares any border at all does the nearest centre win (the earlier window
//! on a tie).

use vstd::prelude::*;
use crate::config::Direction;
use crate::desk::Rect;

verus! {

/// Rect coordinates small enough that centres, overlaps and distances fit
/// in `i32` with room to spare.
pub open spec fn small_rect(r: Rect) -> bool {
    -0x1000_0000 <= r.x <= 0x1000_0000 && -0x1000_0000 <= r.y <= 0x1000_0000 && -0x1000_0000
        <= r.w <= 0x1000_0000 && -0x1000_0000 <= r.h <= 0x1000_0000
}

/// `v / 2` as integer division rounds it: towards zero.
pub open spec fn half(v: int) -> int {
    if v >= 0 {
        v / 2
    } else {
        -((-v) / 2)
    }
}

pub open spec fn cx(r: Rect) -> int {
    r.x + half(r.w as int)
}

pub open spec fn cy(r: Rect) -> int {
    r.y + half(r.h as int)
}

pub open spec fn min_i(a: int, b: int) -> int {
    if a <= b {
        a
    } else {
        b
    }
}

pub open spec fn max_i(a: int, b: int) -> int {
    if a >= b {
        a
    } else {
        b
    }
}

pub open spec fn abs_i(a: int) -> int {
    if a >= 0 {
        a
    } else {
        -a
    }
}

/// `c`'s centre lies on the `dir` side of `f`'s centre.
pub open spec fn on_side(f: Rect, c: Rect, dir: Direction) -> bool {
    match dir {
        Direction::Left => cx(c) - cx(f) < 0,
        Direction::Right => cx(c) - cx(f) > 0,
        Direction::Up => cy(c) - cy(f) < 0,
        Direction::Down => cy(c) - cy(f) > 0,
    }
}

/// How much border `c` shares with `f` across the direction (0 if none).
pub open spec fn overlap(f: Rect, c: Rect, dir: Direction) -> int {
    let o = match dir {
        Direction::Left | Direction::Right => min_i(f.y + f.h, c.y + c.h) - max_i(
            f.y as int,
            c.y as int,
        ),
        Direction::Up | Direction::Down => min_i(f.x + f.w, c.x + c.w) - max_i(
            f.x as int,
            c.x as int,
        ),
    };
    max_i(o, 0)
}

/// How far `c`'s centre is from `f`'s along the direction.
pub open spec fn gap(f: Rect, c: Rect, dir: Direction) -> int {
    match dir {
        Direction::Left | Direction::Right => abs_i(cx(c) - cx(f)),
        Direction::Up | Direction::Down => abs_i(cy(c) - cy(f)),
    }
}

/// Window `i` is a candidate for a move from window `from` in `dir`.
pub open spec fn is_candidate(rs: Seq<Rect>, from: int, dir: Direction, i: int) -> bool {
    0 <= i < rs.len() && i != from && on_side(rs[from], rs[i], dir)
}

/// `(overlap, -gap)` of `a` is at most that of `b`, compared in order.
pub open spec fn key_le(rs: Seq<Rect>, from: int, dir: Direction, a: int, b: int) -> bool {
    let (oa, ob) = (overlap(rs[from], rs[a], dir), overlap(rs[from], rs[b], dir));
    oa < ob || (oa == ob && gap(rs[from], rs[a], dir) >= gap(rs[from], rs[b], dir))
}

/// `i` is the last candidate with the greatest `(overlap, -gap)`.
pub open spec fn best_by_overlap(rs: Seq<Rect>, from: int, dir: Direction, i: int) -> bool {
    &&& is_candidate(rs, from, dir, i)
    &&& forall|j: int| is_candidate(rs, from, dir, j) ==> #[trigger] key_le(rs, from, dir, j, i)
    &&& forall|j: int|
        i < j && is_candidate(rs, from, dir, j) ==> !#[trigger] key_le(rs, from, dir, i, j)
}

/// `i` is the first candidate with the smallest gap.
pub open spec fn best_by_gap(rs: Seq<Rect>, from: int, dir: Direction, i: int) -> bool {
    &&& is_candidate(rs, from, dir, i)
    &&& forall|j: int|
        is_candidate(rs, from, dir, j) ==> gap(rs[from], rs[i], dir) <= #[trigger] gap(
            rs[from],
            rs[j],
            dir,
        )
    &&& forall|j: int|
        0 <= j < i && is_candidate(rs, from, dir, j) ==> gap(rs[from], rs[i], dir) < #[trigger] gap(
            rs[from],
            rs[j],
            dir,
        )
}

/// Some candidate shares border with the focused window.
pub open spec fn any_overlap(rs: Seq<Rect>, from: int, dir: Direction) -> bool {
    exists|i: int| #[trigger] is_candidate(rs, from, dir, i) && overlap(rs[from], rs[i], dir) > 0
}

/// The window next to window `from` in `dir`, if any.
pub open spec fn spec_neighbor(rs: Seq<Rect>, from: int, dir: Direction) -> Option<int> {
    if !(0 <= from < rs.len()) || !(exists|i: int| #[trigger] is_candidate(rs, from, dir, i)) {
        None
    } else if any_overlap(rs, from, dir) {
        Some(choose|i: int| best_by_overlap(rs, from, dir, i))
    } else {
        Some(choose|i: int| best_by_gap(rs, from, dir, i))
    }
}

/// `v` is a value of `i32`.
pub open spec fn fits(v: int) -> bool {
    i32::MIN <= v <= i32::MAX
}

/// Comparing window `c` against the focused `f` stays within `i32`: both
/// centres and their offset along each axis; for a window on the `dir`
/// side also the far edges across the direction, the shared border, and the
/// distance along it.
pub open spec fn measurable(f: Rect, c: Rect, dir: Direction) -> bool {
    &&& fits(cx(c)) && fits(cy(c))
    &&& fits(cx(c) - cx(f)) && fits(cy(c) - cy(f))
    &&& on_side(f, c, dir) ==> match dir {
        Direction::Left | Direction::Right => {
            &&& fits(f.y + f.h) && fits(c.y + c.h)
            &&& fits(min_i(f.y + f.h, c.y + c.h) - max_i(f.y as int, c.y as int))
            &&& fits(abs_i(cx(c) - cx(f)))
        },
        Direction::Up | Direction::Down => {
            &&& fits(f.x + f.w) && fits(c.x + c.w)
            &&& fits(min_i(f.x + f.w, c.x + c.w) - max_i(f.x as int, c.x as int))
            &&& fits(abs_i(cy(c) - cy(f)))
        },
    }
}

/// Looking for window `from`'s neighbour in `dir` stays within `i32`.
pub open spec fn neighbor_fits(rs: Seq<Rect>, from: int, dir: Direction) -> bool {
    0 <= from < rs.len() ==> {
        &&& fits(cx(rs[from])) && fits(cy(rs[from]))
        &&& forall|i: int| 0 <= i < rs.len() && i != from ==> measurable(rs[from], #[trigger] rs[i], dir)
    }
}

/// Rects within the small bounds never overflow the search.
pub proof fn lemma_small_rects_fit(rs: Seq<Rect>, from: int, dir: Direction)
    requires
        forall|i: int| 0 <= i < rs.len() ==> small_rect(#[trigger] rs[i]),
    ensures
        neighbor_fits(rs, from, dir),
{
    if 0 <= from < rs.len() {
        assert(small_rect(rs[from]));
        assert forall|i: int| 0 <= i < rs.len() && i != from implies measurable(rs[from], #[trigger] rs[i], dir) by {
            assert(small_rect(rs[i]));
        }
    }
}

fn center_x(r: &Rect) -> (v: i32)
    requires
        fits(cx(*r)),
    ensures
        v == cx(*r),
{
    r.x + r.w / 2
}

fn center_y(r: &Rect) -> (v: i32)
    requires
        fits(cy(*r)),
    ensures
        v == cy(*r),
{
    r.y + r.h / 2
}

/// The candidate test of window `c` against `f`, and for a candidate its
/// overlap and gap.
fn measure(f: &Rect, c: &Rect, dir: Direction) -> (r: (bool, i32, i32))
    requires
        fits(cx(*f)),
        fits(cy(*f)),
        measurable(*f, *c, dir),
    ensures
        r.0 == on_side(*f, *c, dir),
        r.0 ==> r.1 == overlap(*f, *c, dir),
        r.0 ==> r.2 == gap(*f, *c, dir),
{
    let (fcx, fcy) = (center_x(f), center_y(f));
    let (ccx, ccy) = (center_x(c), center_y(c));
    let (dx, dy) = (ccx - fcx, ccy - fcy);
    let side = match dir {
        Direction::Left => dx < 0,
        Direction::Right => dx > 0,
        Direction::Up => dy < 0,
        Direction::Down => dy > 0,
    };
    if !side {
        return (false, 0, 0);
    }
    let o = match dir {
        Direction::Left | Direction::Right => {
            let hi = if f.y + f.h <= c.y + c.h {
                f.y + f.h
            } else {
                c.y + c.h
            };
            let lo = if f.y >= c.y {
                f.y
            } else {
                c.y
            };
            hi - lo
        },
        Direction::Up | Direction::Down => {
            let hi = if f.x + f.w <= c.x + c.w {
                f.x + f.w
            } else {
                c.x + c.w
            };
            let lo = if f.x >= c.x {
                f.x
            } else {
                c.x
            };
            hi - lo
        },
    };
    let o = if o >= 0 {
        o
    } else {
        0
    };
    let g = match dir {
        Direction::Left | Direction::Right => if dx >= 0 {
            dx
        } else {
            -dx
        },
        Direction::Up | Direction::Down => if dy >= 0 {
            dy
        } else {
            -dy
        },
    };
    (side, o, g)
}

/// The directional-focus heuristic over plain rects: the window next to
/// window `from_idx` in `dir`, or `None` when nothing qualifies (there is no
/// wrap-around) or `from_idx` is out of range.
pub fn neighbor_of_rects(rects: &Vec<Rect>, from_idx: usize, dir: Direction) -> (r: Option<usize>)
    requires
        neighbor_fits(rects@, from_idx as int, dir),
    ensures
        r is None <==> spec_neighbor(rects@, from_idx as int, dir) is None,
        r matches Some(i) ==> spec_neighbor(rects@, from_idx as int, dir) == Some(i as int)
            && is_candidate(rects@, from_idx as int, dir, i as int),
{
    let ghost rs = rects@;
    let ghost from = from_idx as int;
    if from_idx >= rects.len() {
        return None;
    }
    let f = rects[from_idx];
    // The best candidate so far by (overlap, -gap), last one on ties, and
    // by gap alone, first one on ties.
    let mut best_o: Option<usize> = None;
    let mut best_g: Option<usize> = None;
    let mut bo_o: i32 = 0;
    let mut bo_g: i32 = 0;
    let mut bg_g: i32 = 0;
    let mut i: usize = 0;
    while i < rects.len()
        invariant
            i <= rects.len(),
            rs == rects@,
            from == from_idx as int,
            0 <= from < rs.len(),
            f == rs[from],
            neighbor_fits(rs, from, dir),
            match best_o {
                Some(b) => {
                    &&& b < i
                    &&& is_candidate(rs, from, dir, b as int)
                    &&& bo_o == overlap(f, rs[b as int], dir)
                    &&& bo_g == gap(f, rs[b as int], dir)
                    &&& forall|j: int|
                        0 <= j < i && is_candidate(rs, from, dir, j) ==> #[trigger] key_le(
                            rs,
                            from,
                            dir,
                            j,
                            b as int,
                        )
                    &&& forall|j: int|
                        b < j < i && is_candidate(rs, from, dir, j) ==> !#[trigger] key_le(
                            rs,
                            from,
                            dir,
                            b as int,
                            j,
                        )
                },
                None => forall|j: int| 0 <= j < i ==> !#[trigger] is_candidate(rs, from, dir, j),
            },
            match best_g {
                Some(b) => {
                    &&& b < i
                    &&& is_candidate(rs, from, dir, b as int)
                    &&& bg_g == gap(f, rs[b as int], dir)
                    &&& forall|j: int|
                        0 <= j < i && is_candidate(rs, from, dir, j) ==> bg_g <= #[trigger] gap(
                            f,
                            rs[j],
                            dir,
                        )
                    &&& forall|j: int|
                        0 <= j < b && is_candidate(rs, from, dir, j) ==> bg_g < #[trigger] gap(
                            f,
                            rs[j],
                            dir,
                        )
                },
                None => forall|j: int| 0 <= j < i ==> !#[trigger] is_candidate(rs, from, dir, j),
            },
            best_o is None <==> best_g is None,
            (exists|j: int| 0 <= j < i && #[trigger] is_candidate(rs, from, dir, j) && overlap(f, rs[j], dir) > 0)
                <==> (best_o matches Some(b) && bo_o > 0),
        decreases rects.len() - i,
    {
        if i != from_idx {
            let (side, o, g) = measure(&f, &rects[i], dir);
            if side {
                proof {
                    assert(is_candidate(rs, from, dir, i as int));
                }
                // (overlap, -gap) at least the best so far: the later one wins.
                let take_o = match best_o {
                    None => true,
                    Some(_) => o > bo_o || (o == bo_o && g <= bo_g),
                };
                let ghost prev = best_o;
                if take_o {
                    best_o = Some(i);
                    bo_o = o;
                    bo_g = g;
                }
                proof {
                    if let Some(b) = prev {
                        if take_o {
                            assert(key_le(rs, from, dir, b as int, i as int));
                            assert forall|j: int|
                                0 <= j < i + 1 && is_candidate(rs, from, dir, j) implies #[trigger] key_le(
                                rs,
                                from,
                                dir,
                                j,
                                i as int,
                            ) by {
                                if j < i {
                                    assert(key_le(rs, from, dir, j, b as int));
                                }
                            }
                        } else {
                            assert(key_le(rs, from, dir, i as int, b as int));
                            assert(!key_le(rs, from, dir, b as int, i as int));
                            assert forall|j: int|
                                b < j < i + 1 && is_candidate(rs, from, dir, j) implies !#[trigger] key_le(
                                rs,
                                from,
                                dir,
                                b as int,
                                j,
                            ) by {
                                if j == i {
                                    assert(!key_le(rs, from, dir, b as int, i as int));
                                }
                            }
                        }
                    }
                }
                let take_g = match best_g {
                    None => true,
                    Some(_) => g < bg_g,
                };
                if take_g {
                    best_g = Some(i);
                    bg_g = g;
                }
            }
        }
        i += 1;
    }
    match best_o {
        None => {
            proof {
                assert(!(exists|j: int| #[trigger] is_candidate(rs, from, dir, j)));
            }
            None
        },
        Some(b) => {
            if bo_o > 0 {
                proof {
                    assert(best_by_overlap(rs, from, dir, b as int));
                    let c = choose|c: int| best_by_overlap(rs, from, dir, c);
                    assert(best_by_overlap(rs, from, dir, c));
                    assert(key_le(rs, from, dir, c, b as int));
                    assert(key_le(rs, from, dir, b as int, c));
                    if c < b {
                        assert(!key_le(rs, from, dir, c, b as int));
                    }
                    if (b as int) < c {
                        assert(!key_le(rs, from, dir, b as int, c));
                    }
                    assert(any_overlap(rs, from, dir));
                }
                Some(b)
            } else {
                let bg = best_g.unwrap();
                proof {
                    assert(!any_overlap(rs, from, dir));
                    assert(best_by_gap(rs, from, dir, bg as int));
                    let c = choose|c: int| best_by_gap(rs, from, dir, c);
                    assert(best_by_gap(rs, from, dir, c));
                    assert(gap(f, rs[c], dir) <= gap(f, rs[bg as int], dir));
                    assert(gap(f, rs[bg as int], dir) <= gap(f, rs[c], dir));
                    if c < bg {
                        assert(gap(f, rs[bg as int], dir) < gap(f, rs[c], dir));
                    }
                    if (bg as int) < c {
                        assert(gap(f, rs[c], dir) < gap(f, rs[bg as int], dir));
                    }
                    assert(is_candidate(rs, from, dir, bg as int));
                }
                Some(bg)
            }
        },
    }
}

} // verus!
