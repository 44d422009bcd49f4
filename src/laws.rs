//! Properties of the compositor that relate several calls or hold of every
//! input, stated over the spec functions that the operations' contracts use.

use vstd::prelude::*;
use crate::compositor::{
    composited, detection_mask, lemma_painted_shape, painted, painted_upto, scaled_mask,
};
use crate::geometry::{boxes_disjoint, clamped, BoundingBox, Region};
use crate::raster::{clear, filled, lemma_cell, overlaid, pasted, Raster};
use crate::settings::Settings;

verus! {

/// No region among the first `n` holds pixel (`x`, `y`).
pub open spec fn outside_all(regions: Seq<Region>, n: nat, x: int, y: int) -> bool {
    forall|j: int| 0 <= j < n ==> !(#[trigger] regions[j]).contains(x, y)
}

/// No pixel of any patch is transparent.
pub open spec fn opaque(patches: Seq<Raster>) -> bool {
    forall|j: int, k: int|
        0 <= j < patches.len() && 0 <= k < patches[j].pixels.len() ==> !(
        #[trigger] patches[j].pixels[k]).is_transparent()
}

/// Two regions share no pixel.
pub open spec fn regions_disjoint(a: Region, b: Region) -> bool {
    forall|x: int, y: int| !(#[trigger] a.contains(x, y) && b.contains(x, y))
}

/// Boxes that share no pixel clamp to regions that share no pixel, so the
/// ordering laws below apply to the regions of non-overlapping boxes.
pub proof fn lemma_disjoint_boxes_disjoint_regions(
    a: BoundingBox,
    b: BoundingBox,
    width: nat,
    height: nat,
)
    requires
        boxes_disjoint(a, b),
    ensures
        regions_disjoint(clamped(a, width, height), clamped(b, width, height)),
{
}

/// Painting leaves every pixel that no region covers as it was in the base.
pub proof fn lemma_outside_regions_kept(
    base: Raster,
    regions: Seq<Region>,
    patches: Seq<Raster>,
    n: nat,
    i: int,
)
    requires
        base.wf(),
        base.width > 0,
        n <= regions.len(),
        0 <= i < base.pixels.len(),
        outside_all(regions, n, i % (base.width as int), i / (base.width as int)),
    ensures
        painted_upto(base, regions, patches, n).pixels[i] == base.pixels[i],
    decreases n,
{
    if n > 0 {
        lemma_outside_regions_kept(base, regions, patches, (n - 1) as nat, i);
        crate::compositor::lemma_painted_shape(base, regions, patches, (n - 1) as nat);
        assert(!regions[n - 1].contains(i % (base.width as int), i / (base.width as int)));
    }
}

/// On the fast path, a pixel that no region covers is the source pixel; on
/// the scaled path, a pixel where the scaled mask is transparent is the
/// source pixel, and the mask before scaling is transparent wherever no region
/// covers it.
pub proof fn lemma_untouched_pixels_kept(
    s: Settings,
    source: Raster,
    regions: Seq<Region>,
    patches: Seq<Raster>,
    i: int,
)
    requires
        s.valid(),
        source.wf(),
        source.width == s.capture.width,
        source.height == s.capture.height,
        0 <= i < source.pixels.len(),
    ensures
        s.fast_path() && outside_all(
            regions,
            regions.len(),
            i % (source.width as int),
            i / (source.width as int),
        ) ==> composited(s, source, regions, patches).pixels[i] == source.pixels[i],
        !s.fast_path() && scaled_mask(s, regions, patches).pixels[i].is_transparent() ==> composited(
            s,
            source,
            regions,
            patches,
        ).pixels[i] == source.pixels[i],
{
    if s.fast_path() && outside_all(
        regions,
        regions.len(),
        i % (source.width as int),
        i / (source.width as int),
    ) {
        lemma_outside_regions_kept(source, regions, patches, regions.len(), i);
    }
}

/// The mask that the scaled path builds at detection resolution is
/// transparent at every pixel that no region covers.
pub proof fn lemma_mask_clear_at(s: Settings, regions: Seq<Region>, patches: Seq<Raster>, x: int, y: int)
    requires
        s.valid(),
        0 <= x < s.detection.width,
        0 <= y < s.detection.height,
        outside_all(regions, regions.len(), x, y),
    ensures
        detection_mask(s, regions, patches).at(x, y).is_transparent(),
{
    let w = s.detection.width as int;
    let base = filled(s.detection.width as nat, s.detection.height as nat, clear());
    let i = y * w + x;
    lemma_cell(x, y, w, s.detection.height as int);
    assert(i % w == x && i / w == y);
    assert(outside_all(regions, regions.len(), i % w, i / w));
    lemma_outside_regions_kept(base, regions, patches, regions.len(), i);
    lemma_painted_shape(base, regions, patches, regions.len());
    assert(detection_mask(s, regions, patches).pixels[i] == base.pixels[i]);
    assert(detection_mask(s, regions, patches).at(x, y) == detection_mask(s, regions, patches).pixels[i]);
}

/// Overlaying the source with opaque patches painted into a transparent
/// raster of its size gives the same raster as painting the patches straight
/// onto the source: the scaled path without scaling is the fast path.
pub proof fn lemma_mask_overlay_is_painting(
    source: Raster,
    regions: Seq<Region>,
    patches: Seq<Raster>,
    n: nat,
)
    requires
        source.wf(),
        n <= regions.len(),
        n <= patches.len(),
        opaque(patches),
        forall|j: int|
            0 <= j < n ==> (#[trigger] patches[j]).wf() && patches[j].width == regions[j].width
                && patches[j].height == regions[j].height,
    ensures
        overlaid(
            source,
            painted_upto(filled(source.width, source.height, clear()), regions, patches, n),
        ) == painted_upto(source, regions, patches, n),
    decreases n,
{
    if n > 0 {
        let m = (n - 1) as nat;
        let base = filled(source.width, source.height, clear());
        lemma_mask_overlay_is_painting(source, regions, patches, m);
        crate::compositor::lemma_painted_shape(base, regions, patches, m);
        crate::compositor::lemma_painted_shape(source, regions, patches, m);
        let mask = painted_upto(base, regions, patches, m);
        let acc = painted_upto(source, regions, patches, m);
        let p = patches[m as int];
        let r = regions[m as int];
        let lhs = overlaid(source, pasted(mask, p, r));
        let rhs = pasted(acc, p, r);
        assert forall|i: int| 0 <= i < lhs.pixels.len() implies lhs.pixels[i] == rhs.pixels[i] by {
            let x = i % (source.width as int);
            let y = i / (source.width as int);
            if r.contains(x, y) {
                lemma_cell(x - r.x, y - r.y, r.width as int, r.height as int);
                assert(!p.pixels[(y - r.y) * p.width + (x - r.x)].is_transparent());
            } else {
                assert(overlaid(source, mask).pixels[i] == acc.pixels[i]);
            }
        }
        assert(lhs.pixels =~= rhs.pixels);
        assert(lhs == rhs);
    } else {
        let base = filled(source.width, source.height, clear());
        assert(overlaid(source, base).pixels =~= source.pixels);
    }
}

/// No two of the regions share a pixel.
pub open spec fn pairwise_disjoint(regions: Seq<Region>) -> bool {
    forall|a: int, b: int|
        0 <= a < regions.len() && 0 <= b < regions.len() && a != b ==> regions_disjoint(
            #[trigger] regions[a],
            #[trigger] regions[b],
        )
}

/// `perm` and `inv` are mutually inverse reorderings of `0..n`.
pub open spec fn is_permutation(perm: Seq<int>, inv: Seq<int>, n: nat) -> bool {
    &&& perm.len() == n
    &&& inv.len() == n
    &&& forall|k: int| 0 <= k < n ==> 0 <= #[trigger] perm[k] < n && inv[perm[k]] == k
    &&& forall|j: int| 0 <= j < n ==> 0 <= #[trigger] inv[j] < n && perm[inv[j]] == j
}

/// The items of `s` in the order `perm` gives: item `k` is `s[perm[k]]`.
pub open spec fn permuted<T>(s: Seq<T>, perm: Seq<int>) -> Seq<T> {
    Seq::new(perm.len(), |k: int| s[perm[k]])
}

/// Over pairwise disjoint regions, a pixel that region `j` covers holds the
/// matching pixel of patch `j`.
proof fn lemma_covered_pixel(
    base: Raster,
    regions: Seq<Region>,
    patches: Seq<Raster>,
    n: nat,
    i: int,
    j: int,
)
    requires
        base.wf(),
        n <= regions.len(),
        0 <= i < base.pixels.len(),
        0 <= j < n,
        pairwise_disjoint(regions),
        regions[j].contains(i % (base.width as int), i / (base.width as int)),
    ensures
        painted_upto(base, regions, patches, n).pixels[i] == patches[j].at(
            i % (base.width as int) - regions[j].x,
            i / (base.width as int) - regions[j].y,
        ),
    decreases n,
{
    let m = (n - 1) as nat;
    lemma_painted_shape(base, regions, patches, m);
    if j < m {
        lemma_covered_pixel(base, regions, patches, m, i, j);
        assert(regions_disjoint(regions[j], regions[m as int]));
        assert(!regions[m as int].contains(i % (base.width as int), i / (base.width as int)));
    }
}

/// Painting patches over pairwise disjoint regions gives the same raster in
/// any order of the regions, each with its own patch.
pub proof fn lemma_painting_order_irrelevant(
    base: Raster,
    regions: Seq<Region>,
    patches: Seq<Raster>,
    perm: Seq<int>,
    inv: Seq<int>,
)
    requires
        base.wf(),
        patches.len() == regions.len(),
        pairwise_disjoint(regions),
        is_permutation(perm, inv, regions.len()),
    ensures
        painted(base, regions, patches) == painted(
            base,
            permuted(regions, perm),
            permuted(patches, perm),
        ),
{
    let n = regions.len();
    let r2 = permuted(regions, perm);
    let p2 = permuted(patches, perm);
    assert forall|a: int, b: int|
        0 <= a < r2.len() && 0 <= b < r2.len() && a != b implies regions_disjoint(
        #[trigger] r2[a],
        #[trigger] r2[b],
    ) by {
        assert(perm[a] != perm[b]);
    }
    lemma_painted_shape(base, regions, patches, n);
    lemma_painted_shape(base, r2, p2, n);
    let l = painted(base, regions, patches);
    let r = painted(base, r2, p2);
    let w = base.width as int;
    assert forall|i: int| 0 <= i < l.pixels.len() implies l.pixels[i] == r.pixels[i] by {
        let x = i % w;
        let y = i / w;
        assert(w > 0) by (nonlinear_arith)
            requires
                0 <= i < base.width * base.height,
                w == base.width,
        ;
        if exists|j: int| 0 <= j < n && (#[trigger] regions[j]).contains(x, y) {
            let j = choose|j: int| 0 <= j < n && (#[trigger] regions[j]).contains(x, y);
            lemma_covered_pixel(base, regions, patches, n, i, j);
            let k = inv[j];
            assert(r2[k] == regions[j] && p2[k] == patches[j]);
            lemma_covered_pixel(base, r2, p2, n, i, k);
        } else if exists|k: int| 0 <= k < n && (#[trigger] r2[k]).contains(x, y) {
            let k = choose|k: int| 0 <= k < n && (#[trigger] r2[k]).contains(x, y);
            assert(regions[perm[k]].contains(x, y));
        } else {
            lemma_outside_regions_kept(base, regions, patches, n, i);
            lemma_outside_regions_kept(base, r2, p2, n, i);
        }
    }
    assert(l.pixels =~= r.pixels);
}

/// Compositing a frame with patches over pairwise disjoint regions gives the
/// same frame in any order of the regions, each with its own patch, on the
/// fast path and on the scaled path.
pub proof fn lemma_order_irrelevant(
    s: Settings,
    source: Raster,
    regions: Seq<Region>,
    patches: Seq<Raster>,
    perm: Seq<int>,
    inv: Seq<int>,
)
    requires
        source.wf(),
        patches.len() == regions.len(),
        pairwise_disjoint(regions),
        is_permutation(perm, inv, regions.len()),
    ensures
        composited(s, source, regions, patches) == composited(
            s,
            source,
            permuted(regions, perm),
            permuted(patches, perm),
        ),
{
    lemma_painting_order_irrelevant(source, regions, patches, perm, inv);
    lemma_painting_order_irrelevant(
        filled(s.detection.width as nat, s.detection.height as nat, clear()),
        regions,
        patches,
        perm,
        inv,
    );
}

} // verus!
