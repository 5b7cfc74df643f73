use vstd::prelude::*;

verus! {

/// A crossing of a ray with a sphere of the scene.
///
/// `distance` is an order key of the parametric distance along the ray: of two
/// positive distances the nearer has the smaller key, and equal distances have
/// equal keys (the bit pattern of a positive IEEE-754 single has that property).
#[derive(Clone, Copy, Debug, PartialEq, Eq, Structural)]
pub struct Hit {
    pub distance: u32,
    pub sphere: usize,
}

/// No sphere is crossed: every sphere's list of distances is empty.
pub open spec fn no_hits(per_sphere: Seq<Seq<u32>>) -> bool {
    forall|s: int| 0 <= s < per_sphere.len() ==> (#[trigger] per_sphere[s]).len() == 0
}

/// `per_sphere[s]` holds the distances at which the ray crosses sphere `s`;
/// `h` is the nearest of all of them, and of the nearest ones, the one whose
/// sphere comes first in the scene.
pub open spec fn is_nearest(per_sphere: Seq<Seq<u32>>, h: Hit) -> bool {
    &&& h.sphere < per_sphere.len()
    &&& per_sphere[h.sphere as int].contains(h.distance)
    &&& forall|s: int, k: int|
        0 <= s < per_sphere.len() && 0 <= k < per_sphere[s].len() ==> h.distance
            <= #[trigger] per_sphere[s][k]
    &&& forall|s: int, k: int|
        0 <= s < h.sphere && 0 <= k < per_sphere[s].len() ==> h.distance
            < #[trigger] per_sphere[s][k]
}

/// The nearest hit is unique: the distance is the least one, and the sphere
/// the first that the ray crosses at that distance.
pub proof fn lemma_nearest_unique(per_sphere: Seq<Seq<u32>>, h1: Hit, h2: Hit)
    requires
        is_nearest(per_sphere, h1),
        is_nearest(per_sphere, h2),
    ensures
        h1 == h2,
{
    let k1 = choose|k: int| 0 <= k < per_sphere[h1.sphere as int].len()
        && per_sphere[h1.sphere as int][k] == h1.distance;
    let k2 = choose|k: int| 0 <= k < per_sphere[h2.sphere as int].len()
        && per_sphere[h2.sphere as int][k] == h2.distance;
    assert(h1.distance <= per_sphere[h2.sphere as int][k2]);
    assert(h2.distance <= per_sphere[h1.sphere as int][k1]);
    if h1.sphere < h2.sphere {
        assert(h2.distance < per_sphere[h1.sphere as int][k1]);
    }
    if h2.sphere < h1.sphere {
        assert(h1.distance < per_sphere[h2.sphere as int][k2]);
    }
}

/// Position `(s2, k2)` comes before position `(s, k)`: the ray's distances are
/// read sphere by sphere, each sphere's in its own order.
spec fn in_prefix(ps: Seq<Seq<u32>>, s: int, k: int, s2: int, k2: int) -> bool {
    &&& 0 <= s2 < ps.len()
    &&& 0 <= k2 < ps[s2].len()
    &&& (s2 < s || (s2 == s && k2 < k))
}

spec fn prefix_empty(ps: Seq<Seq<u32>>, s: int, k: int) -> bool {
    &&& k == 0
    &&& forall|s2: int| 0 <= s2 < s ==> (#[trigger] ps[s2]).len() == 0
}

spec fn nearest_in_prefix(ps: Seq<Seq<u32>>, s: int, k: int, h: Hit) -> bool {
    &&& exists|k2: int|
        in_prefix(ps, s, k, h.sphere as int, k2) && #[trigger] ps[h.sphere as int][k2]
            == h.distance
    &&& forall|s2: int, k2: int|
        in_prefix(ps, s, k, s2, k2) ==> h.distance <= #[trigger] ps[s2][k2]
    &&& forall|s2: int, k2: int|
        in_prefix(ps, s, k, s2, k2) && s2 < h.sphere ==> h.distance < #[trigger] ps[s2][k2]
}

/// Of the distances at which a ray crosses each sphere of the scene, the
/// nearest, ties going to the sphere tested first; `None` where the ray
/// crosses nothing.
pub fn nearest_hit(per_sphere: &Vec<Vec<u32>>) -> (r: Option<Hit>)
    ensures
        r is None <==> no_hits(per_sphere.deep_view()),
        r matches Some(h) ==> is_nearest(per_sphere.deep_view(), h),
{
    let ghost ps = per_sphere.deep_view();
    let mut best: Option<Hit> = None;
    let mut s: usize = 0;
    while s < per_sphere.len()
        invariant
            ps == per_sphere.deep_view(),
            0 <= s <= ps.len(),
            best is None <==> prefix_empty(ps, s as int, 0),
            best matches Some(h) ==> nearest_in_prefix(ps, s as int, 0, h),
        decreases ps.len() - s,
    {
        let ts = &per_sphere[s];
        let mut k: usize = 0;
        while k < ts.len()
            invariant
                ps == per_sphere.deep_view(),
                0 <= s < ps.len(),
                ts@ == ps[s as int],
                0 <= k <= ts@.len(),
                best is None <==> prefix_empty(ps, s as int, k as int),
                best matches Some(h) ==> nearest_in_prefix(ps, s as int, k as int, h),
            decreases ts@.len() - k,
        {
            let t = ts[k];
            assert(ps[s as int][k as int] == t);
            let ghost old_best = best;
            match best {
                None => {
                    best = Some(Hit { distance: t, sphere: s });
                },
                Some(h) => {
                    if t < h.distance {
                        best = Some(Hit { distance: t, sphere: s });
                    }
                },
            }
            proof {
                let (si, ki) = (s as int, k as int);
                assert(in_prefix(ps, si, ki + 1, si, ki) && ps[si][ki] == t);
                let h = best.unwrap();
                assert forall|s2: int, k2: int| in_prefix(ps, si, ki + 1, s2, k2) implies h.distance
                    <= #[trigger] ps[s2][k2] && (s2 < h.sphere ==> h.distance < ps[s2][k2]) by {
                    if !(s2 == si && k2 == ki) {
                        assert(in_prefix(ps, si, ki, s2, k2));
                    }
                    if let Some(o) = old_best {
                        let w = choose|w: int|
                            in_prefix(ps, si, ki, o.sphere as int, w) && #[trigger] ps[o.sphere as int][w]
                                == o.distance;
                        assert(o.sphere <= si);
                    }
                }
                if let Some(o) = old_best {
                    if h == o {
                        let w = choose|w: int|
                            in_prefix(ps, si, ki, o.sphere as int, w) && #[trigger] ps[o.sphere as int][w]
                                == o.distance;
                        assert(in_prefix(ps, si, ki + 1, o.sphere as int, w));
                    }
                }
                assert(nearest_in_prefix(ps, si, ki + 1, h));
            }
            k = k + 1;
        }
        proof {
            let si = s as int;
            let kn = k as int;
            assert forall|s2: int, k2: int|
                in_prefix(ps, si + 1, 0, s2, k2) == in_prefix(ps, si, kn, s2, k2) by {}
            if let Some(h) = best {
                let w = choose|w: int|
                    in_prefix(ps, si, kn, h.sphere as int, w) && #[trigger] ps[h.sphere as int][w]
                        == h.distance;
                assert(in_prefix(ps, si + 1, 0, h.sphere as int, w));
            }
        }
        s = s + 1;
    }
    proof {
        let n = ps.len() as int;
        assert forall|s2: int, k2: int|
            0 <= s2 < n && 0 <= k2 < ps[s2].len() implies in_prefix(ps, n, 0, s2, k2) by {}
        if let Some(h) = best {
            let k2 = choose|k2: int|
                in_prefix(ps, n, 0, h.sphere as int, k2) && #[trigger] ps[h.sphere as int][k2]
                    == h.distance;
            assert(ps[h.sphere as int].contains(h.distance));
        }
    }
    best
}

} // verus!
