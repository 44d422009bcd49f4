use vstd::prelude::*;
use crate::geometry::{clamp_box, clamped, BoundingBox, Region};
use crate::imaging::{all_clear, nearest_maps, resize_frame, resized, FrameError};
use crate::raster::{clear, cropped, filled, lemma_cell, overlaid, pasted, Frame, Raster, Rgba};
use crate::laws::{lemma_mask_clear_at, lemma_mask_overlay_is_painting, opaque, outside_all};
use crate::settings::Settings;

verus! {

/// The rasters of a sequence of frames.
pub open spec fn views(frames: Seq<Frame>) -> Seq<Raster> {
    frames.map_values(|f: Frame| f@)
}

/// `base` after the first `n` patches have been written over their regions,
/// in order; a later patch wins where regions overlap.
pub open spec fn painted_upto(
    base: Raster,
    regions: Seq<Region>,
    patches: Seq<Raster>,
    n: nat,
) -> Raster
    decreases n,
{
    if n == 0 {
        base
    } else {
        pasted(
            painted_upto(base, regions, patches, (n - 1) as nat),
            patches[n - 1],
            regions[n - 1],
        )
    }
}

/// `base` after every patch has been written over its region, in order.
pub open spec fn painted(base: Raster, regions: Seq<Region>, patches: Seq<Raster>) -> Raster {
    painted_upto(base, regions, patches, regions.len())
}

/// Each region lies in a `width` × `height` raster and has a well-formed
/// patch of its own size.
pub open spec fn patches_fit(regions: Seq<Region>, patches: Seq<Frame>, width: nat, height: nat) -> bool {
    &&& regions.len() == patches.len()
    &&& forall|i: int|
        #![trigger regions[i]]
        #![trigger patches[i]]
        0 <= i < regions.len() ==> {
            &&& regions[i].within(width, height)
            &&& patches[i].wf()
            &&& patches[i].width == regions[i].width
            &&& patches[i].height == regions[i].height
        }
}

/// The blurred-pixel mask of the scaled path at detection resolution: the
/// patches written into a transparent raster.
pub open spec fn detection_mask(s: Settings, regions: Seq<Region>, patches: Seq<Raster>) -> Raster {
    painted(filled(s.detection.width as nat, s.detection.height as nat, clear()), regions, patches)
}

/// The blurred-pixel mask of the scaled path, scaled up to capture
/// resolution.
pub open spec fn scaled_mask(s: Settings, regions: Seq<Region>, patches: Seq<Raster>) -> Raster {
    resized(detection_mask(s, regions, patches), s.capture.width as nat, s.capture.height as nat)
}

/// The output frame: on the fast path the patches written straight over the
/// source; on the scaled path the source overlaid with the scaled mask.
pub open spec fn composited(
    s: Settings,
    source: Raster,
    regions: Seq<Region>,
    patches: Seq<Raster>,
) -> Raster {
    if s.fast_path() {
        painted(source, regions, patches)
    } else {
        overlaid(source, scaled_mask(s, regions, patches))
    }
}

/// The regions for a set of boxes and the pixels under each region.
pub open spec fn crops_of(
    source: Raster,
    boxes: Seq<BoundingBox>,
    regions: Seq<Region>,
    crops: Seq<Frame>,
) -> bool {
    &&& regions.len() == boxes.len()
    &&& crops.len() == boxes.len()
    &&& forall|i: int|
        #![trigger regions[i]]
        #![trigger crops[i]]
        0 <= i < boxes.len() ==> {
            &&& regions[i] == clamped(boxes[i], source.width, source.height)
            &&& crops[i].wf()
            &&& crops[i]@ == cropped(source, regions[i])
        }
}

/// Painting keeps the base's size.
pub proof fn lemma_painted_shape(base: Raster, regions: Seq<Region>, patches: Seq<Raster>, n: nat)
    requires
        base.wf(),
    ensures
        painted_upto(base, regions, patches, n).wf(),
        painted_upto(base, regions, patches, n).width == base.width,
        painted_upto(base, regions, patches, n).height == base.height,
    decreases n,
{
    if n > 0 {
        lemma_painted_shape(base, regions, patches, (n - 1) as nat);
    }
}

/// Overlaying the source with the scaled mask, sampled through `cols` and
/// `rows`, keeps each source pixel whose sample point no region covers.
proof fn lemma_overlay_sampled(
    s: Settings,
    source: Raster,
    up: Raster,
    regions: Seq<Region>,
    patches: Seq<Raster>,
    cols: Seq<int>,
    rows: Seq<int>,
)
    requires
        s.valid(),
        source.wf(),
        up.wf(),
        source.width == s.capture.width,
        source.height == s.capture.height,
        up.width == s.capture.width,
        up.height == s.capture.height,
        nearest_maps(
            cols,
            rows,
            s.detection.width as nat,
            s.detection.height as nat,
            s.capture.width as nat,
            s.capture.height as nat,
        ),
        forall|x: int, y: int|
            0 <= x < s.capture.width && 0 <= y < s.capture.height ==> #[trigger] up.at(x, y)
                == detection_mask(s, regions, patches).at(cols[x], rows[y]),
    ensures
        forall|x: int, y: int|
            0 <= x < s.capture.width && 0 <= y < s.capture.height ==> {
                &&& #[trigger] overlaid(source, up).at(x, y) == if detection_mask(
                    s,
                    regions,
                    patches,
                ).at(cols[x], rows[y]).is_transparent() {
                    source.at(x, y)
                } else {
                    detection_mask(s, regions, patches).at(cols[x], rows[y])
                }
                &&& outside_all(regions, regions.len(), cols[x], rows[y]) ==> overlaid(
                    source,
                    up,
                ).at(x, y) == source.at(x, y)
            },
{
    let cw = s.capture.width as int;
    let ch = s.capture.height as int;
    assert forall|x: int, y: int| 0 <= x < cw && 0 <= y < ch implies {
        &&& #[trigger] overlaid(source, up).at(x, y) == if detection_mask(
            s,
            regions,
            patches,
        ).at(cols[x], rows[y]).is_transparent() {
            source.at(x, y)
        } else {
            detection_mask(s, regions, patches).at(cols[x], rows[y])
        }
        &&& outside_all(regions, regions.len(), cols[x], rows[y]) ==> overlaid(source, up).at(x, y)
            == source.at(x, y)
    } by {
        lemma_cell(x, y, cw, ch);
        assert(up.at(x, y) == detection_mask(s, regions, patches).at(cols[x], rows[y]));
        if outside_all(regions, regions.len(), cols[x], rows[y]) {
            lemma_mask_clear_at(s, regions, patches, cols[x], rows[y]);
        }
    }
}

/// Clamps each box to `source` and copies the pixels under it: these are the
/// crops to be blurred, one for each box, in the detector's order.
pub fn face_crops(source: &Frame, boxes: &Vec<BoundingBox>) -> (r: (Vec<Region>, Vec<Frame>))
    requires
        source.wf(),
    ensures
        crops_of(source@, boxes@, r.0@, r.1@),
        patches_fit(r.0@, r.1@, source.width as nat, source.height as nat),
{
    let mut regions: Vec<Region> = Vec::new();
    let mut crops: Vec<Frame> = Vec::new();
    let mut i: usize = 0;
    while i < boxes.len()
        invariant
            source.wf(),
            i <= boxes@.len(),
            crops_of(source@, boxes@.take(i as int), regions@, crops@),
            patches_fit(regions@, crops@, source.width as nat, source.height as nat),
        decreases boxes@.len() - i,
    {
        let region = clamp_box(boxes[i], source.width, source.height);
        let crop = source.crop(region);
        regions.push(region);
        crops.push(crop);
        i = i + 1;
        assert(boxes@.take(i as int).drop_last() =~= boxes@.take(i - 1));
    }
    assert(boxes@.take(boxes@.len() as int) =~= boxes@);
    (regions, crops)
}

/// Writes each patch over its region of `base`, in order, so that a later
/// patch wins where regions overlap.
pub fn loop_faces(base: Frame, regions: &Vec<Region>, patches: &Vec<Frame>) -> (r: Frame)
    requires
        base.wf(),
        patches_fit(regions@, patches@, base.width as nat, base.height as nat),
    ensures
        r.wf(),
        r.width == base.width,
        r.height == base.height,
        r@ == painted(base@, regions@, views(patches@)),
{
    let ghost b = base@;
    let mut out = base;
    let mut i: usize = 0;
    while i < regions.len()
        invariant
            out.wf(),
            out.width == b.width,
            out.height == b.height,
            patches_fit(regions@, patches@, b.width, b.height),
            i <= regions@.len(),
            out@ == painted_upto(b, regions@, views(patches@), i as nat),
        decreases regions@.len() - i,
    {
        out.paste(&patches[i], regions[i]);
        i = i + 1;
    }
    out
}

/// The fast path: patches are written straight over the source frame.
pub fn process_light(source: Frame, regions: &Vec<Region>, patches: &Vec<Frame>) -> (r: Frame)
    requires
        source.wf(),
        patches_fit(regions@, patches@, source.width as nat, source.height as nat),
    ensures
        r.wf(),
        r.width == source.width,
        r.height == source.height,
        r@ == painted(source@, regions@, views(patches@)),
        regions@.len() == 0 ==> r@ == source@,
{
    loop_faces(source, regions, patches)
}

/// The scaled path: patches found at detection resolution are written into
/// a transparent raster, which is scaled up to capture resolution; each of its
/// pixels that is not transparent replaces the source pixel.
pub fn process(s: &Settings, source: Frame, regions: &Vec<Region>, patches: &Vec<Frame>) -> (r:
    Frame)
    requires
        s.valid(),
        source.wf(),
        source.width == s.capture.width,
        source.height == s.capture.height,
        patches_fit(regions@, patches@, s.detection.width as nat, s.detection.height as nat),
    ensures
        r.wf(),
        r.width == s.capture.width,
        r.height == s.capture.height,
        r@ == overlaid(source@, scaled_mask(*s, regions@, views(patches@))),
        regions@.len() == 0 ==> r@ == source@,
        s.fast_path() && opaque(views(patches@)) ==> r@ == painted(
            source@,
            regions@,
            views(patches@),
        ),
        exists|cols: Seq<int>, rows: Seq<int>|
            #[trigger] nearest_maps(
                cols,
                rows,
                s.detection.width as nat,
                s.detection.height as nat,
                s.capture.width as nat,
                s.capture.height as nat,
            ) && forall|x: int, y: int|
                0 <= x < s.capture.width && 0 <= y < s.capture.height ==> {
                    &&& #[trigger] r@.at(x, y) == if detection_mask(
                        *s,
                        regions@,
                        views(patches@),
                    ).at(cols[x], rows[y]).is_transparent() {
                        source@.at(x, y)
                    } else {
                        detection_mask(*s, regions@, views(patches@)).at(cols[x], rows[y])
                    }
                    &&& outside_all(regions@, regions@.len(), cols[x], rows[y]) ==> r@.at(x, y)
                        == source@.at(x, y)
                },
{
    proof {
        let dw = s.detection.width as int;
        let dh = s.detection.height as int;
        let cw = s.capture.width as int;
        let ch = s.capture.height as int;
        assert(dw * dh <= cw * ch) by (nonlinear_arith)
            requires
                0 <= dw <= cw,
                0 <= dh <= ch,
        ;
    }
    let sentinel = Frame::filled(s.detection.width, s.detection.height, Rgba::transparent());
    let diff = loop_faces(sentinel, regions, patches);
    let up = resize_frame(&diff, s.capture.width, s.capture.height);
    let ghost src = source@;
    let mut out = source;
    out.overlay(&up);
    proof {
        if regions@.len() == 0 {
            assert(all_clear(diff.pixels@));
            assert(out@.pixels =~= src.pixels);
        }
        if s.fast_path() && opaque(views(patches@)) {
            lemma_mask_overlay_is_painting(src, regions@, views(patches@), regions@.len());
        }
        let (cols, rows) = choose|cols: Seq<int>, rows: Seq<int>|
            #[trigger] nearest_maps(
                cols,
                rows,
                s.detection.width as nat,
                s.detection.height as nat,
                s.capture.width as nat,
                s.capture.height as nat,
            ) && forall|x: int, y: int|
                0 <= x < s.capture.width && 0 <= y < s.capture.height ==> #[trigger] up@.at(x, y)
                    == diff@.at(cols[x], rows[y]);
        lemma_overlay_sampled(*s, src, up@, regions@, views(patches@), cols, rows);
        assert(nearest_maps(
            cols,
            rows,
            s.detection.width as nat,
            s.detection.height as nat,
            s.capture.width as nat,
            s.capture.height as nat,
        ));
    }
    out
}

/// Detection input for a source frame at capture resolution: the frame itself
/// on the fast path, otherwise the frame scaled to detection resolution.
pub fn detection_frame(s: &Settings, source: &Frame) -> (r: Frame)
    requires
        s.valid(),
        source.wf(),
        source.width == s.capture.width,
        source.height == s.capture.height,
    ensures
        r.wf(),
        r.width == s.detection.width,
        r.height == s.detection.height,
        s.fast_path() ==> r@ == source@,
        !s.fast_path() ==> r@ == resized(source@, s.detection.width as nat, s.detection.height as nat),
{
    proof {
        let dw = s.detection.width as int;
        let dh = s.detection.height as int;
        let cw = s.capture.width as int;
        let ch = s.capture.height as int;
        assert(dw * dh <= cw * ch) by (nonlinear_arith)
            requires
                0 <= dw <= cw,
                0 <= dh <= ch,
        ;
    }
    if s.uses_fast_path() {
        source.duplicate()
    } else {
        resize_frame(source, s.detection.width, s.detection.height)
    }
}

/// Whether every region lies in a `width` × `height` raster and has a
/// well-formed patch of its size.
pub fn check_patches(regions: &Vec<Region>, patches: &Vec<Frame>, width: u32, height: u32) -> (r:
    bool)
    ensures
        r == patches_fit(regions@, patches@, width as nat, height as nat),
{
    if regions.len() != patches.len() {
        return false;
    }
    let mut i: usize = 0;
    while i < regions.len()
        invariant
            regions@.len() == patches@.len(),
            i <= regions@.len(),
            patches_fit(regions@.take(i as int), patches@.take(i as int), width as nat, height as nat),
        decreases regions@.len() - i,
    {
        let g = regions[i];
        let p = &patches[i];
        if !(g.x as u64 + g.width as u64 <= width as u64 && g.y as u64 + g.height as u64
            <= height as u64 && p.is_well_formed() && p.width == g.width && p.height == g.height) {
            assert(!(regions@[i as int].within(width as nat, height as nat) && patches@[i as int].wf()
                && patches@[i as int].width == regions@[i as int].width && patches@[i as int].height
                == regions@[i as int].height));
            return false;
        }
        i = i + 1;
        assert(regions@.take(i as int)[i - 1] == regions@[i - 1]);
        assert(patches@.take(i as int)[i - 1] == patches@[i - 1]);
    }
    assert(regions@.take(regions@.len() as int) =~= regions@);
    assert(patches@.take(patches@.len() as int) =~= patches@);
    true
}

/// Composites blurred patches into a source frame at capture resolution.
/// Regions and patches are in detection coordinates (on the fast path these
/// are capture coordinates). The frame is refused when its size is not the
/// capture resolution or a region or patch does not fit.
pub fn composite_frame(
    s: &Settings,
    source: Frame,
    regions: &Vec<Region>,
    patches: &Vec<Frame>,
) -> (r: Result<Frame, FrameError>)
    requires
        s.valid(),
    ensures
        r is Ok <==> (source.wf() && source.width == s.capture.width && source.height
            == s.capture.height && patches_fit(
            regions@,
            patches@,
            s.detection.width as nat,
            s.detection.height as nat,
        )),
        r matches Err(e) ==> e == FrameError::SizeMismatch,
        r matches Ok(f) ==> regions@.len() == 0 ==> f@ == source@,
        r matches Ok(f) ==> f.wf() && f.width == s.capture.width && f.height == s.capture.height
            && f@ == composited(*s, source@, regions@, views(patches@)),
{
    if !source.is_well_formed() || source.width != s.capture.width || source.height
        != s.capture.height {
        return Err(FrameError::SizeMismatch);
    }
    if !check_patches(regions, patches, s.detection.width, s.detection.height) {
        return Err(FrameError::SizeMismatch);
    }
    if s.uses_fast_path() {
        Ok(process_light(source, regions, patches))
    } else {
        Ok(process(s, source, regions, patches))
    }
}

} // verus!
