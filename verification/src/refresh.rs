//! Recomputing the whole picture after any change to windows, workspaces or
//! outputs: which windows to take off screen, and where each shown window
//! goes.
//!
//! A window is visible when its workspace is shown on some output and, if
//! that workspace has a solo window, it is the solo window or fullscreen. On
//! each output, fullscreen windows cover the whole output box; a solo window
//! gets the usable area and nothing else is placed; otherwise floating
//! windows keep their own rect and the tiled ones go to their leaf of the
//! workspace's split tree, in stacking order.

use vstd::prelude::*;
use crate::config::{ActionV, Direction};
use crate::desk::{
    lemma_active_output_in_range, shown, spec_active_workspace, spec_dispatch, tiled_count, wf, Desk,
    DeskV, EffectV, OutputEntry, Rect, Win, WorkspaceV,
};

verus! {

/// Where a shown window goes.
#[derive(Clone, Copy, PartialEq, Eq, Structural, Debug)]
pub enum Placement {
    /// Exactly this rect.
    At(Rect),
    /// The rect of this leaf of the workspace's split tree.
    Tiled(usize),
}

/// One window placement.
#[derive(Clone, Copy, PartialEq, Eq, Structural, Debug)]
pub struct Placed {
    pub id: u64,
    pub placement: Placement,
}

/// What a refresh does: unmap the hidden windows, then place the others.
pub struct RefreshPlan {
    pub hidden: Vec<u64>,
    pub placed: Vec<Placed>,
}

/// Whether window `win` of workspace `w` (whose solo window is `solo`) is
/// on screen.
pub open spec fn visible(outs: Seq<OutputEntry>, w: int, solo: Option<u64>, win: Win) -> bool {
    shown(outs, w) && match solo {
        Some(s) => win.id == s || win.fullscreen,
        None => true,
    }
}

/// The ids of the windows among `wins` that are not on screen, in order.
pub open spec fn hidden_ids(outs: Seq<OutputEntry>, w: int, solo: Option<u64>, wins: Seq<Win>) -> Seq<u64>
    decreases wins.len(),
{
    if wins.len() == 0 {
        Seq::empty()
    } else {
        hidden_ids(outs, w, solo, wins.drop_last()) + if visible(outs, w, solo, wins.last()) {
            Seq::<u64>::empty()
        } else {
            seq![wins.last().id]
        }
    }
}

/// The hidden windows of the first `wss.len()` workspaces, workspace by
/// workspace.
pub open spec fn all_hidden(outs: Seq<OutputEntry>, wss: Seq<WorkspaceV>) -> Seq<u64>
    decreases wss.len(),
{
    if wss.len() == 0 {
        Seq::empty()
    } else {
        all_hidden(outs, wss.drop_last()) + hidden_ids(outs, wss.len() - 1, wss.last().solo, wss.last().windows)
    }
}

/// The fullscreen windows among `wins`, each covering `geometry`.
pub open spec fn fullscreen_places(wins: Seq<Win>, geometry: Rect) -> Seq<Placed>
    decreases wins.len(),
{
    if wins.len() == 0 {
        Seq::empty()
    } else {
        fullscreen_places(wins.drop_last(), geometry) + if wins.last().fullscreen {
            seq![Placed { id: wins.last().id, placement: Placement::At(geometry) }]
        } else {
            Seq::<Placed>::empty()
        }
    }
}

/// The floating windows among `wins` that are not fullscreen, each at its
/// own rect.
pub open spec fn floating_places(wins: Seq<Win>) -> Seq<Placed>
    decreases wins.len(),
{
    if wins.len() == 0 {
        Seq::empty()
    } else {
        floating_places(wins.drop_last()) + if wins.last().floating && !wins.last().fullscreen {
            seq![Placed { id: wins.last().id, placement: Placement::At(wins.last().rect) }]
        } else {
            Seq::<Placed>::empty()
        }
    }
}

/// The tiled windows among `wins`, each at its leaf: the `k`-th tiled window
/// at leaf `k`.
pub open spec fn tiled_places(wins: Seq<Win>) -> Seq<Placed>
    decreases wins.len(),
{
    if wins.len() == 0 {
        Seq::empty()
    } else {
        let init = tiled_places(wins.drop_last());
        init + if wins.last().tiled() {
            seq![Placed { id: wins.last().id, placement: Placement::Tiled(init.len() as usize) }]
        } else {
            Seq::<Placed>::empty()
        }
    }
}

/// The placements on one output showing workspace `ws`.
pub open spec fn output_places(ws: WorkspaceV, o: OutputEntry) -> Seq<Placed> {
    if ws.windows.len() == 0 {
        Seq::empty()
    } else {
        let full = fullscreen_places(ws.windows, o.geometry);
        match ws.solo {
            Some(s) => full.push(Placed { id: s, placement: Placement::At(o.usable) }),
            None => full + floating_places(ws.windows) + tiled_places(ws.windows),
        }
    }
}

/// The placements on the outputs, output by output.
pub open spec fn all_places(wss: Seq<WorkspaceV>, outs: Seq<OutputEntry>) -> Seq<Placed>
    decreases outs.len(),
{
    if outs.len() == 0 {
        Seq::empty()
    } else {
        all_places(wss, outs.drop_last()) + output_places(wss[outs.last().workspace as int], outs.last())
    }
}

fn is_shown(outs: &Vec<OutputEntry>, w: usize) -> (r: bool)
    ensures
        r == shown(outs@, w as int),
{
    let mut o: usize = 0;
    while o < outs.len()
        invariant
            o <= outs.len(),
            forall|k: int| 0 <= k < o ==> outs@[k].workspace != w,
        decreases outs.len() - o,
    {
        if outs[o].workspace == w {
            assert(outs@[o as int].workspace == w as int);
            return true;
        }
        o += 1;
    }
    false
}

fn push_fullscreen(wins: &Vec<Win>, geometry: Rect, out: &mut Vec<Placed>)
    ensures
        final(out)@ == old(out)@ + fullscreen_places(wins@, geometry),
{
    let mut i: usize = 0;
    assert(wins@.take(0) =~= Seq::<Win>::empty());
    assert(old(out)@ + fullscreen_places(wins@.take(0), geometry) =~= old(out)@);
    while i < wins.len()
        invariant
            i <= wins.len(),
            out@ == old(out)@ + fullscreen_places(wins@.take(i as int), geometry),
        decreases wins.len() - i,
    {
        proof {
            assert(wins@.take(i + 1).drop_last() =~= wins@.take(i as int));
        }
        let win = wins[i];
        if win.fullscreen {
            out.push(Placed { id: win.id, placement: Placement::At(geometry) });
        }
        assert(out@ =~= old(out)@ + fullscreen_places(wins@.take(i + 1), geometry));
        i += 1;
    }
    assert(wins@.take(wins.len() as int) =~= wins@);
}

fn push_floating(wins: &Vec<Win>, out: &mut Vec<Placed>)
    ensures
        final(out)@ == old(out)@ + floating_places(wins@),
{
    let mut i: usize = 0;
    assert(wins@.take(0) =~= Seq::<Win>::empty());
    assert(old(out)@ + floating_places(wins@.take(0)) =~= old(out)@);
    while i < wins.len()
        invariant
            i <= wins.len(),
            out@ == old(out)@ + floating_places(wins@.take(i as int)),
        decreases wins.len() - i,
    {
        proof {
            assert(wins@.take(i + 1).drop_last() =~= wins@.take(i as int));
        }
        let win = wins[i];
        if win.floating && !win.fullscreen {
            out.push(Placed { id: win.id, placement: Placement::At(win.rect) });
        }
        assert(out@ =~= old(out)@ + floating_places(wins@.take(i + 1)));
        i += 1;
    }
    assert(wins@.take(wins.len() as int) =~= wins@);
}

proof fn lemma_tiled_len(wins: Seq<Win>)
    ensures
        tiled_places(wins).len() <= wins.len(),
    decreases wins.len(),
{
    if wins.len() > 0 {
        lemma_tiled_len(wins.drop_last());
    }
}

fn push_tiled(wins: &Vec<Win>, out: &mut Vec<Placed>)
    ensures
        final(out)@ == old(out)@ + tiled_places(wins@),
{
    let mut i: usize = 0;
    let mut k: usize = 0;
    assert(wins@.take(0) =~= Seq::<Win>::empty());
    assert(old(out)@ + tiled_places(wins@.take(0)) =~= old(out)@);
    while i < wins.len()
        invariant
            i <= wins.len(),
            k == tiled_places(wins@.take(i as int)).len(),
            k <= i,
            out@ == old(out)@ + tiled_places(wins@.take(i as int)),
        decreases wins.len() - i,
    {
        proof {
            assert(wins@.take(i + 1).drop_last() =~= wins@.take(i as int));
        }
        let win = wins[i];
        if !win.floating && !win.fullscreen {
            out.push(Placed { id: win.id, placement: Placement::Tiled(k) });
            k += 1;
        }
        assert(out@ =~= old(out)@ + tiled_places(wins@.take(i + 1)));
        i += 1;
    }
    assert(wins@.take(wins.len() as int) =~= wins@);
}

impl Desk {
    /// What a refresh does now: the windows to take off screen, workspace by
    /// workspace, and the placements, output by output.
    pub fn refresh_plan(&self) -> (r: RefreshPlan)
        requires
            forall|o: int| 0 <= o < self@.outputs.len() ==> (#[trigger] self@.outputs[o]).workspace < self@.workspaces.len(),
        ensures
            r.hidden@ == all_hidden(self@.outputs, self@.workspaces),
            r.placed@ == all_places(self@.workspaces, self@.outputs),
    {
        let ghost d = self@;
        let mut hidden: Vec<u64> = Vec::new();
        let mut w: usize = 0;
        proof {
            assert(d.workspaces.take(0) =~= Seq::<WorkspaceV>::empty());
        }
        while w < self.workspaces.len()
            invariant
                d == self@,
                w <= self.workspaces.len(),
                hidden@ == all_hidden(d.outputs, d.workspaces.take(w as int)),
            decreases self.workspaces.len() - w,
        {
            let ws = &self.workspaces[w];
            let on = is_shown(&self.outputs, w);
            let ghost base = hidden@;
            let mut i: usize = 0;
            proof {
                assert(ws.windows@.take(0) =~= Seq::<Win>::empty());
                assert(base + hidden_ids(d.outputs, w as int, ws.solo, ws.windows@.take(0)) =~= base);
            }
            while i < ws.windows.len()
                invariant
                    i <= ws.windows.len(),
                    on == shown(d.outputs, w as int),
                    hidden@ == base + hidden_ids(d.outputs, w as int, ws.solo, ws.windows@.take(i as int)),
                decreases ws.windows.len() - i,
            {
                proof {
                    assert(ws.windows@.take(i + 1).drop_last() =~= ws.windows@.take(i as int));
                }
                let win = ws.windows[i];
                let vis = on && match ws.solo {
                    Some(s) => win.id == s || win.fullscreen,
                    None => true,
                };
                if !vis {
                    hidden.push(win.id);
                }
                assert(hidden@ =~= base + hidden_ids(d.outputs, w as int, ws.solo, ws.windows@.take(i + 1)));
                i += 1;
            }
            proof {
                assert(ws.windows@.take(ws.windows.len() as int) =~= ws.windows@);
                let t = d.workspaces.take(w + 1);
                assert(t.drop_last() =~= d.workspaces.take(w as int));
                assert(t.last() == ws@);
            }
            w += 1;
        }
        proof {
            assert(d.workspaces.take(self.workspaces.len() as int) =~= d.workspaces);
        }
        let mut placed: Vec<Placed> = Vec::new();
        let mut o: usize = 0;
        proof {
            assert(d.outputs.take(0) =~= Seq::<OutputEntry>::empty());
        }
        while o < self.outputs.len()
            invariant
                d == self@,
                o <= self.outputs.len(),
                forall|k: int| 0 <= k < d.outputs.len() ==> (#[trigger] d.outputs[k]).workspace < d.workspaces.len(),
                placed@ == all_places(d.workspaces, d.outputs.take(o as int)),
            decreases self.outputs.len() - o,
        {
            let entry = self.outputs[o];
            assert(entry == d.outputs[o as int]);
            let ws = &self.workspaces[entry.workspace];
            let ghost base = placed@;
            if ws.windows.len() > 0 {
                push_fullscreen(&ws.windows, entry.geometry, &mut placed);
                match ws.solo {
                    Some(s) => {
                        placed.push(Placed { id: s, placement: Placement::At(entry.usable) });
                    },
                    None => {
                        push_floating(&ws.windows, &mut placed);
                        push_tiled(&ws.windows, &mut placed);
                    },
                }
            }
            proof {
                let t = d.outputs.take(o + 1);
                assert(t.drop_last() =~= d.outputs.take(o as int));
                assert(t.last() == entry);
                assert(d.workspaces[entry.workspace as int] == ws@);
                assert(placed@ =~= base + output_places(ws@, entry));
            }
            o += 1;
        }
        proof {
            assert(d.outputs.take(self.outputs.len() as int) =~= d.outputs);
        }
        RefreshPlan { hidden, placed }
    }
}

proof fn lemma_hidden_ids_contains(outs: Seq<OutputEntry>, w: int, solo: Option<u64>, wins: Seq<Win>, i: int)
    requires
        0 <= i < wins.len(),
        !visible(outs, w, solo, wins[i]),
    ensures
        hidden_ids(outs, w, solo, wins).contains(wins[i].id),
    decreases wins.len(),
{
    let h = hidden_ids(outs, w, solo, wins);
    if i == wins.len() - 1 {
        assert(h[h.len() - 1] == wins[i].id);
    } else {
        lemma_hidden_ids_contains(outs, w, solo, wins.drop_last(), i);
        let h0 = hidden_ids(outs, w, solo, wins.drop_last());
        let k = choose|k: int| 0 <= k < h0.len() && h0[k] == wins[i].id;
        assert(h[k] == h0[k]);
    }
}

proof fn lemma_all_hidden_contains(outs: Seq<OutputEntry>, wss: Seq<WorkspaceV>, w: int, i: int)
    requires
        0 <= w < wss.len(),
        0 <= i < wss[w].windows.len(),
        !visible(outs, w, wss[w].solo, wss[w].windows[i]),
    ensures
        all_hidden(outs, wss).contains(wss[w].windows[i].id),
    decreases wss.len(),
{
    let a = all_hidden(outs, wss);
    if w == wss.len() - 1 {
        lemma_hidden_ids_contains(outs, w, wss[w].solo, wss[w].windows, i);
        let h = hidden_ids(outs, w, wss[w].solo, wss[w].windows);
        let k = choose|k: int| 0 <= k < h.len() && h[k] == wss[w].windows[i].id;
        let a0 = all_hidden(outs, wss.drop_last());
        assert(a[a0.len() + k] == h[k]);
    } else {
        let init = wss.drop_last();
        assert(init[w] == wss[w]);
        lemma_all_hidden_contains(outs, init, w, i);
        let a0 = all_hidden(outs, init);
        let k = choose|k: int| 0 <= k < a0.len() && a0[k] == wss[w].windows[i].id;
        assert(a[k] == a0[k]);
    }
}

/// A window whose workspace no output shows is taken off screen, and so is
/// a window that is neither the solo window nor fullscreen on a workspace
/// that has one.
pub proof fn law_invisible_windows_are_hidden(outs: Seq<OutputEntry>, wss: Seq<WorkspaceV>, w: int, i: int)
    requires
        0 <= w < wss.len(),
        0 <= i < wss[w].windows.len(),
        !shown(outs, w) || (wss[w].solo matches Some(s) && wss[w].windows[i].id != s
            && !wss[w].windows[i].fullscreen),
    ensures
        all_hidden(outs, wss).contains(wss[w].windows[i].id),
{
    lemma_all_hidden_contains(outs, wss, w, i);
}

proof fn lemma_hidden_ids_only_invisible(outs: Seq<OutputEntry>, w: int, solo: Option<u64>, wins: Seq<Win>, k: int)
    requires
        0 <= k < hidden_ids(outs, w, solo, wins).len(),
    ensures
        exists|i: int| 0 <= i < wins.len() && #[trigger] wins[i].id == hidden_ids(outs, w, solo, wins)[k]
            && !visible(outs, w, solo, wins[i]),
    decreases wins.len(),
{
    let init = wins.drop_last();
    let h0 = hidden_ids(outs, w, solo, init);
    if k < h0.len() {
        lemma_hidden_ids_only_invisible(outs, w, solo, init, k);
        let i = choose|i: int| 0 <= i < init.len() && #[trigger] init[i].id == h0[k] && !visible(outs, w, solo, init[i]);
        assert(wins[i] == init[i]);
    } else {
        assert(wins[wins.len() - 1] == wins.last());
    }
}

/// A visible window is never taken off screen: everything hidden from a
/// workspace is one of its windows that is not visible.
pub proof fn law_hidden_windows_are_invisible(outs: Seq<OutputEntry>, w: int, solo: Option<u64>, wins: Seq<Win>, k: int)
    requires
        0 <= k < hidden_ids(outs, w, solo, wins).len(),
    ensures
        exists|i: int| 0 <= i < wins.len() && #[trigger] wins[i].id == hidden_ids(outs, w, solo, wins)[k]
            && !visible(outs, w, solo, wins[i]),
{
    lemma_hidden_ids_only_invisible(outs, w, solo, wins, k);
}

/// The leaves of the first `m` windows come first among all the leaves.
proof fn lemma_tiled_prefix(wins: Seq<Win>, m: int)
    requires
        0 <= m <= wins.len(),
    ensures
        tiled_places(wins.take(m)).len() <= tiled_places(wins).len(),
        forall|i: int| 0 <= i < tiled_places(wins.take(m)).len() ==> #[trigger] tiled_places(wins)[i]
            == tiled_places(wins.take(m))[i],
    decreases wins.len() - m,
{
    if m == wins.len() {
        assert(wins.take(m) =~= wins);
    } else {
        lemma_tiled_prefix(wins, m + 1);
        assert(wins.take(m + 1).drop_last() =~= wins.take(m));
    }
}

/// Before window `k`, as many leaves as tiled windows.
proof fn lemma_tiled_count_leaves(wins: Seq<Win>, k: int)
    requires
        0 <= k <= wins.len(),
    ensures
        tiled_places(wins.take(k)).len() == tiled_count(wins, k),
    decreases k,
{
    if k > 0 {
        lemma_tiled_count_leaves(wins, k - 1);
        assert(wins.take(k).drop_last() =~= wins.take(k - 1));
        assert(wins.take(k).last() == wins[k - 1]);
    } else {
        assert(wins.take(0) =~= Seq::<Win>::empty());
    }
}

/// Resizing the focused tiled window moves the split at that window's own
/// leaf: the leaf a refresh places it at, which is one of the workspace's
/// leaves.
pub proof fn law_resize_moves_the_focused_windows_leaf(
    d: DeskV,
    dir: Direction,
    float_size: (i32, i32),
    show_cmd: Option<Seq<char>>,
    hide_cmd: Option<Seq<char>>,
)
    requires
        wf(d),
        d.outputs.len() > 0,
        d.workspaces[spec_active_workspace(d)].windows.len() > 0,
        ({
            let ws = d.workspaces[spec_active_workspace(d)];
            ws.windows[ws.focused as int].tiled()
        }),
    ensures
        ({
            let c = spec_active_workspace(d);
            let ws = d.workspaces[c];
            let win = ws.windows[ws.focused as int];
            let e = spec_dispatch(d, ActionV::ResizeWindow(dir), float_size, show_cmd, hide_cmd).1;
            &&& e.len() == 2
            &&& e[1] == EffectV::Refresh
            &&& e[0] matches EffectV::ResizeSplit(w, k, x) && w == c && x == dir && k < tiled_places(
                ws.windows,
            ).len() && tiled_places(ws.windows)[k as int] == (Placed {
                id: win.id,
                placement: Placement::Tiled(k),
            })
        }),
{
    reveal(spec_dispatch);
    lemma_active_output_in_range(d);
    let c = spec_active_workspace(d);
    let ws = d.workspaces[c];
    let f = ws.focused as int;
    let wins = ws.windows;
    assert(0 <= f < wins.len());
    lemma_tiled_count_leaves(wins, f);
    lemma_tiled_count_leaves(wins, f + 1);
    lemma_tiled_prefix(wins, f + 1);
    assert(wins.take(f + 1).drop_last() =~= wins.take(f));
    assert(wins.take(f + 1).last() == wins[f]);
    let k = tiled_count(wins, f);
    assert(tiled_places(wins.take(f + 1))[k] == (Placed { id: wins[f].id, placement: Placement::Tiled(k as usize) }));
    lemma_tiled_len(wins);
    assert(k < tiled_places(wins).len());
    assert(wins.len() <= usize::MAX);
    assert(0 <= k);
    let e = spec_dispatch(d, ActionV::ResizeWindow(dir), float_size, show_cmd, hide_cmd).1;
    assert(e == seq![EffectV::ResizeSplit(c as usize, k as usize, dir), EffectV::Refresh]);
    assert((k as usize) as int == k);
}

/// Each fullscreen placement is for a fullscreen window among `wins`, over
/// the whole of `geometry`.
proof fn lemma_fullscreen_places_from(wins: Seq<Win>, geometry: Rect)
    ensures
        forall|i: int|
            #![trigger fullscreen_places(wins, geometry)[i]]
            0 <= i < fullscreen_places(wins, geometry).len() ==> exists|k: int|
                0 <= k < wins.len() && (#[trigger] wins[k]).fullscreen && fullscreen_places(wins, geometry)[i]
                    == (Placed { id: wins[k].id, placement: Placement::At(geometry) }),
    decreases wins.len(),
{
    if wins.len() > 0 {
        let init = wins.drop_last();
        lemma_fullscreen_places_from(init, geometry);
        let p = fullscreen_places(wins, geometry);
        assert forall|i: int| #![trigger p[i]] 0 <= i < p.len() implies exists|k: int|
            0 <= k < wins.len() && (#[trigger] wins[k]).fullscreen && p[i] == (Placed {
                id: wins[k].id,
                placement: Placement::At(geometry),
            }) by {
            if i < fullscreen_places(init, geometry).len() {
                let k = choose|k: int|
                    0 <= k < init.len() && (#[trigger] init[k]).fullscreen && fullscreen_places(init, geometry)[i]
                        == (Placed { id: init[k].id, placement: Placement::At(geometry) });
                assert(wins[k] == init[k]);
            } else {
                assert(wins[wins.len() - 1] == wins.last());
            }
        }
    }
}

/// Each floating placement is for a window among `wins` that is not
/// fullscreen.
proof fn lemma_floating_places_from(wins: Seq<Win>)
    ensures
        forall|i: int|
            #![trigger floating_places(wins)[i]]
            0 <= i < floating_places(wins).len() ==> exists|k: int|
                0 <= k < wins.len() && !(#[trigger] wins[k]).fullscreen && floating_places(wins)[i].id == wins[k].id,
    decreases wins.len(),
{
    if wins.len() > 0 {
        let init = wins.drop_last();
        lemma_floating_places_from(init);
        let p = floating_places(wins);
        assert forall|i: int| #![trigger p[i]] 0 <= i < p.len() implies exists|k: int|
            0 <= k < wins.len() && !(#[trigger] wins[k]).fullscreen && p[i].id == wins[k].id by {
            if i < floating_places(init).len() {
                let k = choose|k: int|
                    0 <= k < init.len() && !(#[trigger] init[k]).fullscreen && floating_places(init)[i].id == init[k].id;
                assert(wins[k] == init[k]);
            } else {
                assert(wins[wins.len() - 1] == wins.last());
            }
        }
    }
}

/// Each tiled placement is for a tiled window among `wins`.
proof fn lemma_tiled_places_from(wins: Seq<Win>)
    ensures
        forall|i: int|
            #![trigger tiled_places(wins)[i]]
            0 <= i < tiled_places(wins).len() ==> exists|k: int|
                0 <= k < wins.len() && (#[trigger] wins[k]).tiled() && tiled_places(wins)[i].id == wins[k].id,
    decreases wins.len(),
{
    if wins.len() > 0 {
        let init = wins.drop_last();
        lemma_tiled_places_from(init);
        let p = tiled_places(wins);
        assert forall|i: int| #![trigger p[i]] 0 <= i < p.len() implies exists|k: int|
            0 <= k < wins.len() && (#[trigger] wins[k]).tiled() && p[i].id == wins[k].id by {
            if i < tiled_places(init).len() {
                let k = choose|k: int|
                    0 <= k < init.len() && (#[trigger] init[k]).tiled() && tiled_places(init)[i].id == init[k].id;
                assert(wins[k] == init[k]);
            } else {
                assert(wins[wins.len() - 1] == wins.last());
            }
        }
    }
}

/// No two windows of the desk share an id.
pub open spec fn ids_unique(wss: Seq<WorkspaceV>) -> bool {
    forall|w1: int, k1: int, w2: int, k2: int|
        0 <= w1 < wss.len() && 0 <= w2 < wss.len() && 0 <= k1 < wss[w1].windows.len() && 0 <= k2
            < wss[w2].windows.len() && (#[trigger] wss[w1].windows[k1]).id == (#[trigger] wss[w2].windows[k2]).id
            ==> w1 == w2 && k1 == k2
}

/// No workspace's solo window is a fullscreen window.
pub open spec fn solo_not_fullscreen(wss: Seq<WorkspaceV>) -> bool {
    forall|w1: int, w2: int, k: int|
        0 <= w1 < wss.len() && 0 <= w2 < wss.len() && 0 <= k < wss[w2].windows.len()
            && #[trigger] wss[w1].solo == Some((#[trigger] wss[w2].windows[k]).id) ==> !wss[w2].windows[k].fullscreen
}

/// A fullscreen window covers the output that shows its workspace: every
/// placement a refresh makes for it is the whole box of an output showing
/// its workspace, and it is never placed anywhere else.
pub proof fn law_fullscreen_windows_cover_their_output(
    wss: Seq<WorkspaceV>,
    outs: Seq<OutputEntry>,
    i: int,
    w: int,
    k: int,
)
    requires
        forall|o: int| 0 <= o < outs.len() ==> (#[trigger] outs[o]).workspace < wss.len(),
        ids_unique(wss),
        solo_not_fullscreen(wss),
        0 <= i < all_places(wss, outs).len(),
        0 <= w < wss.len(),
        0 <= k < wss[w].windows.len(),
        wss[w].windows[k].fullscreen,
        all_places(wss, outs)[i].id == wss[w].windows[k].id,
    ensures
        exists|o: int|
            0 <= o < outs.len() && (#[trigger] outs[o]).workspace == w && all_places(wss, outs)[i].placement
                == Placement::At(outs[o].geometry),
    decreases outs.len(),
{
    let init = outs.drop_last();
    let before = all_places(wss, init);
    assert forall|o: int| 0 <= o < init.len() implies (#[trigger] init[o]).workspace < wss.len() by {
        assert(init[o] == outs[o]);
    }
    if i < before.len() {
        law_fullscreen_windows_cover_their_output(wss, init, i, w, k);
        let o = choose|o: int|
            0 <= o < init.len() && (#[trigger] init[o]).workspace == w && before[i].placement == Placement::At(
                init[o].geometry,
            );
        assert(outs[o] == init[o]);
    } else {
        let last = outs.len() - 1;
        let ol = outs[last];
        assert(ol == outs.last());
        let wl = ol.workspace as int;
        let ws = wss[wl];
        let j = i - before.len();
        let here = output_places(ws, ol);
        assert(all_places(wss, outs)[i] == here[j]);
        let full = fullscreen_places(ws.windows, ol.geometry);
        lemma_fullscreen_places_from(ws.windows, ol.geometry);
        if j < full.len() {
            let k2 = choose|k2: int|
                0 <= k2 < ws.windows.len() && (#[trigger] ws.windows[k2]).fullscreen && full[j] == (Placed {
                    id: ws.windows[k2].id,
                    placement: Placement::At(ol.geometry),
                });
            assert(wss[wl].windows[k2].id == wss[w].windows[k].id);
            assert(wl == w);
        } else {
            match ws.solo {
                Some(s) => {
                    assert(here[j].id == s);
                    assert(wss[wl].solo == Some(wss[w].windows[k].id));
                    assert(false);
                },
                None => {
                    let fl = floating_places(ws.windows);
                    lemma_floating_places_from(ws.windows);
                    lemma_tiled_places_from(ws.windows);
                    if j < full.len() + fl.len() {
                        assert(here[j] == fl[j - full.len()]);
                        let k2 = choose|k2: int|
                            0 <= k2 < ws.windows.len() && !(#[trigger] ws.windows[k2]).fullscreen && fl[j
                                - full.len()].id == ws.windows[k2].id;
                        assert(wss[wl].windows[k2].id == wss[w].windows[k].id);
                        assert(false);
                    } else {
                        let tp = tiled_places(ws.windows);
                        assert(here[j] == tp[j - full.len() - fl.len()]);
                        let k2 = choose|k2: int|
                            0 <= k2 < ws.windows.len() && (#[trigger] ws.windows[k2]).tiled() && tp[j - full.len()
                                - fl.len()].id == ws.windows[k2].id;
                        assert(wss[wl].windows[k2].id == wss[w].windows[k].id);
                        assert(false);
                    }
                },
            }
        }
    }
}

} // verus!
