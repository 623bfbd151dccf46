//! Bringing up connected outputs: which mode to drive each one at, which
//! display controller to drive it with, and where it goes in the layout.
//! Talking to the hardware is the shell's; these choices are made here.

use vstd::prelude::*;
use crate::desk::{sane_rect, OutputEntry};

verus! {

/// The mode to drive a connector at: the first mode it marks preferred,
/// else its first mode; none when it reports no modes. `preferred[i]` says
/// whether mode `i` is marked preferred.
pub fn pick_mode(preferred: &Vec<bool>) -> (r: Option<usize>)
    ensures
        match r {
            Some(i) => i < preferred.len() && (if exists|j: int| 0 <= j < preferred.len() && preferred@[j] {
                preferred@[i as int] && forall|k: int| 0 <= k < i ==> !preferred@[k]
            } else {
                i == 0
            }),
            None => preferred.len() == 0,
        },
{
    let mut i: usize = 0;
    while i < preferred.len()
        invariant
            i <= preferred.len(),
            forall|k: int| 0 <= k < i ==> !preferred@[k],
        decreases preferred.len() - i,
    {
        if preferred[i] {
            return Some(i);
        }
        i += 1;
    }
    if preferred.len() > 0 {
        Some(0)
    } else {
        None
    }
}

/// The first display controller among `candidates` that no output uses yet.
pub fn first_free(candidates: &Vec<u32>, used: &Vec<u32>) -> (r: Option<u32>)
    ensures
        match r {
            Some(c) => exists|i: int|
                0 <= i < candidates.len() && candidates@[i] == c && !used@.contains(c) && forall|k: int|
                    0 <= k < i ==> used@.contains(#[trigger] candidates@[k]),
            None => forall|i: int| 0 <= i < candidates.len() ==> used@.contains(#[trigger] candidates@[i]),
        },
{
    let mut i: usize = 0;
    while i < candidates.len()
        invariant
            i <= candidates.len(),
            forall|k: int| 0 <= k < i ==> used@.contains(#[trigger] candidates@[k]),
        decreases candidates.len() - i,
    {
        let c = candidates[i];
        let mut j: usize = 0;
        let mut taken = false;
        while j < used.len() && !taken
            invariant
                j <= used.len(),
                taken ==> used@.contains(c),
                !taken ==> forall|k: int| 0 <= k < j ==> used@[k] != c,
            decreases used.len() - j + (if taken { 0int } else { 1int }),
        {
            if used[j] == c {
                taken = true;
                assert(used@[j as int] == c);
            } else {
                j += 1;
            }
        }
        if !taken {
            assert(!used@.contains(c));
            return Some(c);
        }
        i += 1;
    }
    None
}

/// The right edge of the rightmost output, or 0 with none: where the next
/// automatically placed output starts.
pub open spec fn right_edge(outs: Seq<OutputEntry>) -> int
    decreases outs.len(),
{
    if outs.len() == 0 {
        0
    } else {
        let r = outs.last().geometry.x + outs.last().geometry.w;
        let m = right_edge(outs.drop_last());
        if outs.len() == 1 || r > m {
            r
        } else {
            m
        }
    }
}

pub fn next_output_x(outs: &Vec<OutputEntry>) -> (r: i32)
    requires
        forall|i: int| 0 <= i < outs.len() ==> sane_rect(#[trigger] outs@[i].geometry),
    ensures
        r == right_edge(outs@),
{
    let mut best: i32 = 0;
    let mut i: usize = 0;
    assert(outs@.take(0) =~= Seq::<OutputEntry>::empty());
    while i < outs.len()
        invariant
            i <= outs.len(),
            forall|k: int| 0 <= k < outs.len() ==> sane_rect(#[trigger] outs@[k].geometry),
            best == right_edge(outs@.take(i as int)),
            -0x100_0000 <= best <= 0x200_0000,
        decreases outs.len() - i,
    {
        let g = outs[i].geometry;
        assert(sane_rect(outs@[i as int].geometry));
        let r = g.x + g.w;
        proof {
            assert(outs@.take(i + 1).drop_last() =~= outs@.take(i as int));
            assert(outs@.take(i + 1).last() == outs@[i as int]);
        }
        if i == 0 || r > best {
            best = r;
        }
        i += 1;
    }
    assert(outs@.take(outs.len() as int) =~= outs@);
    best
}

/// Where each of a batch of new outputs goes: side by side from `start`,
/// each right of the one before.
pub open spec fn lay_out_from(start: int, widths: Seq<i32>) -> Seq<int>
    decreases widths.len(),
{
    if widths.len() == 0 {
        Seq::empty()
    } else {
        let init = lay_out_from(start, widths.drop_last());
        init.push(start + sum_widths(widths.drop_last()))
    }
}

pub open spec fn sum_widths(widths: Seq<i32>) -> int
    decreases widths.len(),
{
    if widths.len() == 0 {
        0
    } else {
        sum_widths(widths.drop_last()) + widths.last()
    }
}

/// Each output of the batch in turn is placed at the running `x`, which
/// then moves on by its width: every running position, the one after the
/// last output included, must be a value of `i32`.
pub fn lay_out(start: i32, widths: &Vec<i32>) -> (r: Vec<i32>)
    requires
        forall|k: int|
            0 <= k <= widths.len() ==> i32::MIN <= start + #[trigger] sum_widths(widths@.take(k)) <= i32::MAX,
    ensures
        r@.len() == widths.len(),
        forall|i: int| 0 <= i < r@.len() ==> #[trigger] r@[i] == lay_out_from(start as int, widths@)[i],
{
    let mut r: Vec<i32> = Vec::new();
    let mut x: i32 = start;
    let mut i: usize = 0;
    proof {
        assert(widths@.take(0) =~= Seq::<i32>::empty());
    }
    while i < widths.len()
        invariant
            i <= widths.len(),
            forall|k: int|
                0 <= k <= widths.len() ==> i32::MIN <= start + #[trigger] sum_widths(widths@.take(k)) <= i32::MAX,
            x == start + sum_widths(widths@.take(i as int)),
            r@.len() == i,
            forall|k: int| 0 <= k < i ==> #[trigger] r@[k] == lay_out_from(start as int, widths@.take(i as int))[k],
            lay_out_from(start as int, widths@.take(i as int)).len() == i,
        decreases widths.len() - i,
    {
        let ghost t = widths@.take(i + 1);
        proof {
            assert(t.drop_last() =~= widths@.take(i as int));
            assert(t.last() == widths@[i as int]);
            assert(i32::MIN <= start + sum_widths(widths@.take(i + 1)) <= i32::MAX);
        }
        r.push(x);
        x = x + widths[i];
        i += 1;
    }
    proof {
        assert(widths@.take(widths.len() as int) =~= widths@);
    }
    r
}

} // verus!
