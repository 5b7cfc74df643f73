use vstd::prelude::*;

use crate::hit::{is_nearest, lemma_nearest_unique, nearest_hit, no_hits, Hit};

verus! {

/// What a camera ray's pixel shows.
#[derive(Clone, Copy, Debug, PartialEq, Eq, Structural)]
pub enum PixelKind {
    /// The ray crosses no sphere.
    Background,
    /// The nearest sphere marks light `light`: the pixel shows that light itself.
    LightMarker { light: usize },
    /// The nearest sphere is ordinary geometry, lit at `hit`.
    Surface { hit: Hit },
}

/// `marker_of[s]` is the light that sphere `s` marks, if any.
pub open spec fn is_marker(marker_of: Seq<Option<usize>>, s: int) -> bool {
    marker_of[s] is Some
}

/// `k` is what a pixel shows whose camera ray crosses each sphere `s` at the
/// distances `per_sphere[s]`, where `marker_of[s]` is the light that sphere `s`
/// marks, if any.
pub open spec fn is_pixel_kind(
    per_sphere: Seq<Seq<u32>>,
    marker_of: Seq<Option<usize>>,
    k: PixelKind,
) -> bool {
    match k {
        PixelKind::Background => no_hits(per_sphere),
        PixelKind::LightMarker { light } => exists|h: Hit|
            #[trigger] is_nearest(per_sphere, h) && marker_of[h.sphere as int] == Some(light),
        PixelKind::Surface { hit } => is_nearest(per_sphere, hit) && !is_marker(
            marker_of,
            hit.sphere as int,
        ),
    }
}

/// Decides what a pixel shows from the distances at which its camera ray
/// crosses each sphere: the background where it crosses none, the light that
/// the nearest sphere marks, or else the nearest sphere's surface.
pub fn classify_pixel(per_sphere: &Vec<Vec<u32>>, marker_of: &Vec<Option<usize>>) -> (k: PixelKind)
    requires
        marker_of@.len() == per_sphere@.len(),
    ensures
        is_pixel_kind(per_sphere.deep_view(), marker_of@, k),
{
    match nearest_hit(per_sphere) {
        None => PixelKind::Background,
        Some(h) => match marker_of[h.sphere] {
            Some(light) => PixelKind::LightMarker { light },
            None => PixelKind::Surface { hit: h },
        },
    }
}

/// A pixel's kind is fixed by what its ray crosses: two kinds that both fit
/// the same crossings are the same.
pub proof fn lemma_pixel_kind_unique(
    per_sphere: Seq<Seq<u32>>,
    marker_of: Seq<Option<usize>>,
    k1: PixelKind,
    k2: PixelKind,
)
    requires
        marker_of.len() == per_sphere.len(),
        is_pixel_kind(per_sphere, marker_of, k1),
        is_pixel_kind(per_sphere, marker_of, k2),
    ensures
        k1 == k2,
{
    lemma_background_iff_no_hits(per_sphere, marker_of, k1);
    lemma_background_iff_no_hits(per_sphere, marker_of, k2);
    match (k1, k2) {
        (PixelKind::LightMarker { light: l1 }, PixelKind::LightMarker { light: l2 }) => {
            let h1 = choose|h: Hit| #[trigger] is_nearest(per_sphere, h) && marker_of[h.sphere as int] == Some(l1);
            let h2 = choose|h: Hit| #[trigger] is_nearest(per_sphere, h) && marker_of[h.sphere as int] == Some(l2);
            lemma_nearest_unique(per_sphere, h1, h2);
        },
        (PixelKind::LightMarker { light }, PixelKind::Surface { hit }) => {
            let h = choose|h: Hit| #[trigger] is_nearest(per_sphere, h) && marker_of[h.sphere as int] == Some(light);
            lemma_nearest_unique(per_sphere, h, hit);
        },
        (PixelKind::Surface { hit }, PixelKind::LightMarker { light }) => {
            let h = choose|h: Hit| #[trigger] is_nearest(per_sphere, h) && marker_of[h.sphere as int] == Some(light);
            lemma_nearest_unique(per_sphere, h, hit);
        },
        (PixelKind::Surface { hit: h1 }, PixelKind::Surface { hit: h2 }) => {
            lemma_nearest_unique(per_sphere, h1, h2);
        },
        _ => {},
    }
}

/// A pixel shows the background exactly when its ray crosses no sphere: a
/// sphere wholly outside the ray's path leaves the background, one that the
/// ray passes through does not.
pub proof fn lemma_background_iff_no_hits(
    per_sphere: Seq<Seq<u32>>,
    marker_of: Seq<Option<usize>>,
    k: PixelKind,
)
    requires
        is_pixel_kind(per_sphere, marker_of, k),
    ensures
        k == PixelKind::Background <==> no_hits(per_sphere),
{
    assert forall|h: Hit| #[trigger] is_nearest(per_sphere, h) implies !no_hits(per_sphere) by {
        let j = choose|j: int| 0 <= j < per_sphere[h.sphere as int].len()
            && per_sphere[h.sphere as int][j] == h.distance;
        assert(per_sphere[h.sphere as int].len() > 0);
    }
}

/// Some sphere that marks no light lies on the shadow ray: `shadow_hits[s]`
/// holds the distances at which the ray crosses sphere `s`.
pub open spec fn occluded(shadow_hits: Seq<Seq<u32>>, marker_of: Seq<Option<usize>>) -> bool {
    exists|s: int|
        0 <= s < shadow_hits.len() && !is_marker(marker_of, s) && (#[trigger] shadow_hits[s]).len()
            > 0
}

/// Whether a light is hidden from a shading point: the shadow ray toward it
/// crosses a sphere that marks no light. Marker spheres cast no shadow.
pub fn light_occluded(shadow_hits: &Vec<Vec<u32>>, marker_of: &Vec<Option<usize>>) -> (r: bool)
    requires
        marker_of@.len() == shadow_hits@.len(),
    ensures
        r == occluded(shadow_hits.deep_view(), marker_of@),
{
    let ghost sh = shadow_hits.deep_view();
    let mut s: usize = 0;
    while s < shadow_hits.len()
        invariant
            sh == shadow_hits.deep_view(),
            marker_of@.len() == sh.len(),
            0 <= s <= sh.len(),
            forall|s2: int|
                0 <= s2 < s ==> is_marker(marker_of@, s2) || (#[trigger] sh[s2]).len() == 0,
        decreases sh.len() - s,
    {
        if marker_of[s].is_none() && shadow_hits[s].len() > 0 {
            assert(sh[s as int].len() > 0);
            return true;
        }
        s = s + 1;
    }
    false
}

/// A sphere that marks no light and lies on the shadow ray hides the light;
/// take it off the ray, with no other such sphere on it, and the light is
/// seen again.
pub proof fn lemma_occluder_hides_light(
    shadow_hits: Seq<Seq<u32>>,
    marker_of: Seq<Option<usize>>,
    s: int,
    crossing: Seq<u32>,
)
    requires
        marker_of.len() == shadow_hits.len(),
        0 <= s < shadow_hits.len(),
        !is_marker(marker_of, s),
        crossing.len() > 0,
    ensures
        occluded(shadow_hits.update(s, crossing), marker_of),
        (forall|s2: int|
            0 <= s2 < shadow_hits.len() && s2 != s && !is_marker(marker_of, s2)
                ==> (#[trigger] shadow_hits[s2]).len() == 0) ==> !occluded(
            shadow_hits.update(s, Seq::empty()),
            marker_of,
        ),
{
    assert(shadow_hits.update(s, crossing)[s] == crossing);
    assert(shadow_hits.update(s, Seq::<u32>::empty())[s].len() == 0);
}

} // verus!
