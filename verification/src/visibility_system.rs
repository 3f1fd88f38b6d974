//! Dirty-flag driven visibility recomputation. The geometric
//! field-of-view query itself is an external collaborator; this system
//! takes its raw output, discards out-of-bounds coordinates, replaces the
//! agent's visible set, clears the dirty flag, and for the player agent
//! rewrites the map's visible array and extends its revealed array.

use vstd::prelude::*;

use crate::components::Viewshed;
use crate::map::TileMap;

verus! {

/// Coordinate p lies inside a w x h grid.
pub open spec fn in_dims(w: int, h: int, p: (i32, i32)) -> bool {
    0 <= p.0 < w && 0 <= p.1 < h
}

/// The subsequence of s that keeps exactly the coordinates inside the
/// w x h grid, in their original order.
pub open spec fn keep_in_bounds(s: Seq<(i32, i32)>, w: int, h: int) -> Seq<(i32, i32)>
    decreases s.len(),
{
    if s.len() == 0 {
        Seq::empty()
    } else {
        let rest = keep_in_bounds(s.drop_last(), w, h);
        if in_dims(w, h, s.last()) {
            rest.push(s.last())
        } else {
            rest
        }
    }
}

/// Every coordinate the filter keeps is inside the grid.
pub proof fn lemma_keep_in_bounds_elements(s: Seq<(i32, i32)>, w: int, h: int)
    ensures
        forall|i: int|
            0 <= i < keep_in_bounds(s, w, h).len() ==> in_dims(
                w,
                h,
                #[trigger] keep_in_bounds(s, w, h)[i],
            ),
    decreases s.len(),
{
    if s.len() > 0 {
        lemma_keep_in_bounds_elements(s.drop_last(), w, h);
        let k0 = keep_in_bounds(s.drop_last(), w, h);
        let ks = keep_in_bounds(s, w, h);
        assert forall|i: int| 0 <= i < ks.len() implies in_dims(w, h, #[trigger] ks[i]) by {
            if in_dims(w, h, s.last()) {
                assert(ks == k0.push(s.last()));
                if i < ks.len() - 1 {
                    assert(ks[i] == k0[i]);
                }
            } else {
                assert(ks == k0);
            }
        }
    }
}

/// The filter keeps a coordinate if and only if it occurs in the input and
/// is inside the grid.
pub proof fn lemma_keep_in_bounds_members(s: Seq<(i32, i32)>, w: int, h: int)
    ensures
        forall|p: (i32, i32)|
            #[trigger] keep_in_bounds(s, w, h).contains(p) <==> (s.contains(p) && in_dims(
                w,
                h,
                p,
            )),
    decreases s.len(),
{
    let ks = keep_in_bounds(s, w, h);
    if s.len() == 0 {
        assert forall|p: (i32, i32)| #[trigger] ks.contains(p) <==> (s.contains(p) && in_dims(
            w,
            h,
            p,
        )) by {
            assert(!ks.contains(p));
            assert(!s.contains(p));
        }
    } else {
        let s0 = s.drop_last();
        let k0 = keep_in_bounds(s0, w, h);
        lemma_keep_in_bounds_members(s0, w, h);
        assert forall|p: (i32, i32)| #[trigger] ks.contains(p) <==> (s.contains(p) && in_dims(
            w,
            h,
            p,
        )) by {
            if s0.contains(p) {
                let i = choose|i: int| 0 <= i < s0.len() && s0[i] == p;
                assert(s[i] == p);
                assert(s.contains(p));
            }
            if in_dims(w, h, s.last()) {
                assert(ks == k0.push(s.last()));
                if ks.contains(p) {
                    let i = choose|i: int| 0 <= i < ks.len() && ks[i] == p;
                    if i < ks.len() - 1 {
                        assert(k0[i] == p);
                        assert(k0.contains(p));
                        assert(s0.contains(p) && in_dims(w, h, p));
                    } else {
                        assert(p == s.last());
                        assert(s[s.len() - 1] == p);
                        assert(s.contains(p));
                    }
                }
                if s.contains(p) && in_dims(w, h, p) {
                    let i = choose|i: int| 0 <= i < s.len() && s[i] == p;
                    if i < s.len() - 1 {
                        assert(s0[i] == p);
                        assert(s0.contains(p));
                        assert(k0.contains(p));
                        let j = choose|j: int| 0 <= j < k0.len() && k0[j] == p;
                        assert(ks[j] == p);
                        assert(ks.contains(p));
                    } else {
                        assert(ks[ks.len() - 1] == p);
                        assert(ks.contains(p));
                    }
                }
            } else {
                assert(ks == k0);
                if ks.contains(p) {
                    assert(s0.contains(p) && in_dims(w, h, p));
                }
                if s.contains(p) && in_dims(w, h, p) {
                    let i = choose|i: int| 0 <= i < s.len() && s[i] == p;
                    if i < s.len() - 1 {
                        assert(s0[i] == p);
                        assert(s0.contains(p));
                    } else {
                        assert(p == s.last());
                        assert(false);
                    }
                }
            }
        }
    }
}

/// The per-tick visibility pass. Iteration over agents is external; the
/// per-agent work is `needs_recompute` and `recompute`.
pub struct VisibilitySystem {}

impl VisibilitySystem {
    /// The dirty-flag protocol: recomputation is due exactly when the
    /// agent's viewshed is marked stale.
    pub fn needs_recompute(viewshed: &Viewshed) -> (r: bool)
        ensures
            r == viewshed.dirty,
    {
        viewshed.dirty
    }

    /// One agent's recomputation. `fov` is the raw output of the external
    /// field-of-view query for this agent; whatever it holds, only its
    /// in-bounds coordinates are kept. The agent's visible set is replaced
    /// (not merged), the dirty flag is cleared, and if the agent is the
    /// player the map's visible array is rebuilt from scratch while its
    /// revealed array only ever gains cells.
    pub fn recompute(
        map: &mut TileMap,
        viewshed: &mut Viewshed,
        fov: Vec<(i32, i32)>,
        is_player: bool,
    )
        requires
            old(map).wf(),
            old(viewshed).dirty,
        ensures
            final(map).wf(),
            !final(viewshed).dirty,
            final(viewshed).range == old(viewshed).range,
            final(viewshed).visible_titles@ == keep_in_bounds(
                fov@,
                old(map).width as int,
                old(map).height as int,
            ),
            forall|i: int|
                0 <= i < final(viewshed).visible_titles@.len() ==> in_dims(
                    old(map).width as int,
                    old(map).height as int,
                    #[trigger] final(viewshed).visible_titles@[i],
                ),
            final(map).titles == old(map).titles,
            final(map).rooms == old(map).rooms,
            final(map).width == old(map).width,
            final(map).height == old(map).height,
            !is_player ==> final(map).revealed_titles == old(map).revealed_titles && final(map).visible_titles == old(map).visible_titles,
            is_player ==> forall|x: int, y: int|
                old(map).in_bounds(x, y) ==> ((#[trigger] final(map).visible_titles@[old(map).spec_idx(x, y)]) <==> keep_in_bounds(
                    fov@,
                    old(map).width as int,
                    old(map).height as int,
                ).contains((x as i32, y as i32))),
            is_player ==> forall|x: int, y: int|
                old(map).in_bounds(x, y) ==> ((#[trigger] final(map).revealed_titles@[old(map).spec_idx(x, y)]) <==> (old(map).revealed_titles@[old(map).spec_idx(x, y)]
                    || keep_in_bounds(
                    fov@,
                    old(map).width as int,
                    old(map).height as int,
                ).contains((x as i32, y as i32)))),
            forall|t: int|
                0 <= t < old(map).revealed_titles@.len() && old(map).revealed_titles@[t]
                    ==> #[trigger] final(map).revealed_titles@[t],
    {
        let ghost w = map.width as int;
        let ghost h = map.height as int;
        viewshed.dirty = false;

        let mut kept: Vec<(i32, i32)> = Vec::new();
        let mut i: usize = 0;
        while i < fov.len()
            invariant
                i <= fov@.len(),
                kept@ == keep_in_bounds(fov@.subrange(0, i as int), w, h),
                w == map.width as int,
                h == map.height as int,
            decreases fov@.len() - i,
        {
            let p = fov[i];
            proof {
                assert(fov@.subrange(0, i as int + 1).drop_last() == fov@.subrange(0, i as int));
                assert(fov@.subrange(0, i as int + 1).last() == fov@[i as int]);
            }
            if p.0 >= 0 && p.0 < map.width && p.1 >= 0 && p.1 < map.height {
                kept.push(p);
            }
            i = i + 1;
        }
        proof {
            assert(fov@.subrange(0, fov@.len() as int) == fov@);
            lemma_keep_in_bounds_elements(fov@, w, h);
        }
        viewshed.visible_titles = kept;

        if is_player {
            let n: usize = map.visible_titles.len();
            let mut t: usize = 0;
            while t < n
                invariant
                    map.wf(),
                    t <= n,
                    n == map.visible_titles@.len(),
                    map.titles == old(map).titles,
                    map.rooms == old(map).rooms,
                    map.width == old(map).width,
                    map.height == old(map).height,
                    map.revealed_titles == old(map).revealed_titles,
                    forall|q: int| 0 <= q < t ==> !(#[trigger] map.visible_titles@[q]),
                decreases n - t,
            {
                map.visible_titles.set(t, false);
                t = t + 1;
            }

            let ghost ks = keep_in_bounds(fov@, w, h);
            let mut k: usize = 0;
            while k < viewshed.visible_titles.len()
                invariant
                    map.wf(),
                    k <= viewshed.visible_titles@.len(),
                    viewshed.visible_titles@ == ks,
                    w == map.width as int,
                    h == map.height as int,
                    forall|i: int| 0 <= i < ks.len() ==> in_dims(w, h, #[trigger] ks[i]),
                    map.titles == old(map).titles,
                    map.rooms == old(map).rooms,
                    map.width == old(map).width,
                    map.height == old(map).height,
                    map.revealed_titles@.len() == old(map).revealed_titles@.len(),
                    map.visible_titles@.len() == old(map).visible_titles@.len(),
                    forall|t: int|
                        0 <= t < map.visible_titles@.len() ==> ((
                        #[trigger] map.visible_titles@[t]) <==> exists|q: int|
                            0 <= q < k && t == old(map).spec_idx(
                                (#[trigger] ks[q]).0 as int,
                                ks[q].1 as int,
                            )),
                    forall|t: int|
                        0 <= t < map.revealed_titles@.len() ==> ((
                        #[trigger] map.revealed_titles@[t]) <==> (old(map).revealed_titles@[t]
                            || exists|q: int|
                            0 <= q < k && t == old(map).spec_idx(
                                (#[trigger] ks[q]).0 as int,
                                ks[q].1 as int,
                            ))),
                decreases viewshed.visible_titles@.len() - k,
            {
                let vis = viewshed.visible_titles[k];
                let idx = map.xy_idx(vis.0, vis.1);
                map.revealed_titles.set(idx, true);
                map.visible_titles.set(idx, true);
                k = k + 1;
            }

            proof {
                old(map).lemma_index_bijective();
                assert forall|x: int, y: int| old(map).in_bounds(x, y) implies ((
                #[trigger] map.visible_titles@[old(map).spec_idx(x, y)]) <==> ks.contains(
                    (x as i32, y as i32),
                )) by {
                    let t = old(map).spec_idx(x, y);
                    if map.visible_titles@[t] {
                        let q = choose|q: int|
                            0 <= q < ks.len() && t == old(map).spec_idx(
                                (#[trigger] ks[q]).0 as int,
                                ks[q].1 as int,
                            );
                        assert(in_dims(w, h, ks[q]));
                        assert(ks[q] == (x as i32, y as i32));
                        assert(ks.contains((x as i32, y as i32)));
                    }
                    if ks.contains((x as i32, y as i32)) {
                        let q = choose|q: int| 0 <= q < ks.len() && ks[q] == (x as i32, y as i32);
                        assert(t == old(map).spec_idx((ks[q]).0 as int, ks[q].1 as int));
                    }
                }
                assert forall|x: int, y: int| old(map).in_bounds(x, y) implies ((
                #[trigger] map.revealed_titles@[old(map).spec_idx(x, y)]) <==> (old(map).revealed_titles@[old(map).spec_idx(x, y)] || ks.contains((x as i32, y as i32))))
                    by {
                    let t = old(map).spec_idx(x, y);
                    if map.revealed_titles@[t] && !old(map).revealed_titles@[t] {
                        let q = choose|q: int|
                            0 <= q < ks.len() && t == old(map).spec_idx(
                                (#[trigger] ks[q]).0 as int,
                                ks[q].1 as int,
                            );
                        assert(in_dims(w, h, ks[q]));
                        assert(ks[q] == (x as i32, y as i32));
                        assert(ks.contains((x as i32, y as i32)));
                    }
                    if ks.contains((x as i32, y as i32)) {
                        let q = choose|q: int| 0 <= q < ks.len() && ks[q] == (x as i32, y as i32);
                        assert(t == old(map).spec_idx((ks[q]).0 as int, ks[q].1 as int));
                    }
                }
            }
        }
    }
}

/// Two recomputations from the same field-of-view input over the same map
/// dimensions produce the same visible set; since `recompute` pins the
/// resulting set to `keep_in_bounds` of its inputs, recomputation from an
/// unchanged position, range and map is idempotent.
pub proof fn lemma_recompute_idempotent(fov: Seq<(i32, i32)>, w: int, h: int, a: Viewshed, b: Viewshed)
    requires
        a.visible_titles@ == keep_in_bounds(fov, w, h),
        b.visible_titles@ == keep_in_bounds(fov, w, h),
    ensures
        a.visible_titles@ == b.visible_titles@,
{
}

/// Revealed cells never un-reveal across any number of ticks: pointwise
/// implication of revealed arrays composes from tick to tick.
pub proof fn lemma_revealed_monotonic(r1: Seq<bool>, r2: Seq<bool>, r3: Seq<bool>)
    requires
        r1.len() == r2.len(),
        r2.len() == r3.len(),
        forall|t: int| 0 <= t < r1.len() && r1[t] ==> #[trigger] r2[t],
        forall|t: int| 0 <= t < r2.len() && r2[t] ==> #[trigger] r3[t],
    ensures
        forall|t: int| 0 <= t < r1.len() && r1[t] ==> #[trigger] r3[t],
{
}

} // verus!
