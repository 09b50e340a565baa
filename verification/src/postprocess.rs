//! The whole path from a raw tensor to the final detections.

use vstd::prelude::*;
use crate::fixed::UNIT;
use crate::mapper::{map_box, mapped, NetworkInput};
pub use crate::mapper::MatInfo;
use crate::suppress::{
    all_in_range, eligible, is_suppression, lemma_kept_scores_descend, lemma_suppression_unique,
    suppress, ScoredBox,
};
use crate::tensor::{decode, Candidate, DecodeError, RawTensor};

verus! {

/// One final detection: the corners of its box in frame pixels, its class,
/// and its composite score in steps of `1 / (UNIT * UNIT)`.
#[derive(Debug, Clone, Copy, PartialEq, Eq, Structural)]
pub struct BoxDetection {
    pub xmin: i64,
    pub ymin: i64,
    pub xmax: i64,
    pub ymax: i64,
    pub class: usize,
    pub conf: i64,
}

/// The final detections of one frame, by descending score.
#[derive(Debug, Clone)]
pub struct Detections {
    pub detections: Vec<BoxDetection>,
}

/// The detection that a candidate becomes in the given frame: the mapped
/// corner, the corner plus the mapped size, and the candidate's class and
/// score.
pub open spec fn detection_of(c: Candidate, frame: MatInfo, net: NetworkInput) -> BoxDetection {
    let p = mapped(c.bbox, frame, net);
    BoxDetection {
        xmin: p.x,
        ymin: p.y,
        xmax: (p.x + p.width) as i64,
        ymax: (p.y + p.height) as i64,
        class: c.class_index,
        conf: c.composite_score,
    }
}

/// The candidates as they enter suppression: mapped into the frame, each
/// with its composite score.
pub open spec fn scored_boxes(cands: Seq<Candidate>, frame: MatInfo, net: NetworkInput) -> Seq<
    ScoredBox,
> {
    Seq::new(
        cands.len(),
        |i: int| ScoredBox { bbox: mapped(cands[i].bbox, frame, net), score: cands[i].composite_score },
    )
}

/// The detections of the kept candidates, in the order kept.
pub open spec fn assembled(
    cands: Seq<Candidate>,
    kept: Seq<usize>,
    frame: MatInfo,
    net: NetworkInput,
) -> Seq<BoxDetection> {
    Seq::new(kept.len(), |k: int| detection_of(cands[kept[k] as int], frame, net))
}

/// A confidence threshold in steps of `1 / UNIT`, expressed in the steps of
/// a composite score.
pub open spec fn score_floor(conf_thresh: int) -> int {
    conf_thresh * UNIT
}

/// `dets` is what the tensor yields in the given frame: the tensor's
/// decoding, mapped into the frame, reduced by suppression, and turned into
/// detections.
pub open spec fn post_processed(
    dets: Seq<BoxDetection>,
    tensor: RawTensor,
    frame: MatInfo,
    net: NetworkInput,
    conf_thresh: int,
    nms_thresh: int,
) -> bool {
    exists|cands: Seq<Candidate>, kept: Seq<usize>|
        {
            &&& tensor.decoding(cands, conf_thresh)
            &&& #[trigger] is_suppression(
                kept,
                scored_boxes(cands, frame, net),
                score_floor(conf_thresh),
                nms_thresh,
            )
            &&& dets == assembled(cands, kept, frame, net)
        }
}

/// One of the detections has the given class.
pub open spec fn has_class(dets: Seq<BoxDetection>, class: usize) -> bool {
    exists|i: int| 0 <= i < dets.len() && (#[trigger] dets[i]).class == class
}

/// A tensor yields one sequence of detections and no other.
pub proof fn lemma_post_processed_unique(
    a: Seq<BoxDetection>,
    b: Seq<BoxDetection>,
    tensor: RawTensor,
    frame: MatInfo,
    net: NetworkInput,
    conf_thresh: int,
    nms_thresh: int,
)
    requires
        post_processed(a, tensor, frame, net, conf_thresh, nms_thresh),
        post_processed(b, tensor, frame, net, conf_thresh, nms_thresh),
    ensures
        a == b,
{
    let floor = score_floor(conf_thresh);
    let (ca, ka): (Seq<Candidate>, Seq<usize>) = choose|cands: Seq<Candidate>, kept: Seq<usize>|
        {
            &&& tensor.decoding(cands, conf_thresh)
            &&& #[trigger] is_suppression(kept, scored_boxes(cands, frame, net), floor, nms_thresh)
            &&& a == assembled(cands, kept, frame, net)
        };
    let (cb, kb): (Seq<Candidate>, Seq<usize>) = choose|cands: Seq<Candidate>, kept: Seq<usize>|
        {
            &&& tensor.decoding(cands, conf_thresh)
            &&& #[trigger] is_suppression(kept, scored_boxes(cands, frame, net), floor, nms_thresh)
            &&& b == assembled(cands, kept, frame, net)
        };
    tensor.lemma_decoding_unique(ca, cb, conf_thresh);
    lemma_suppression_unique(ka, kb, scored_boxes(ca, frame, net), floor, nms_thresh);
}

/// Every detection stems from a row whose objectness reached the threshold
/// and whose composite score reached it too.
pub proof fn lemma_detections_reach_threshold(
    dets: Seq<BoxDetection>,
    tensor: RawTensor,
    frame: MatInfo,
    net: NetworkInput,
    conf_thresh: int,
    nms_thresh: int,
    i: int,
)
    requires
        post_processed(dets, tensor, frame, net, conf_thresh, nms_thresh),
        0 <= i < dets.len(),
    ensures
        dets[i].conf >= score_floor(conf_thresh),
        exists|r: int|
            0 <= r < tensor.rows && tensor.objectness(r) >= conf_thresh && #[trigger] tensor.decodes_to(
                r,
                Candidate {
                    bbox: tensor.box_of(r),
                    class_index: dets[i].class,
                    composite_score: dets[i].conf,
                },
            ),
{
    let floor = score_floor(conf_thresh);
    let (cands, kept): (Seq<Candidate>, Seq<usize>) = choose|cands: Seq<Candidate>, kept: Seq<usize>|
        {
            &&& tensor.decoding(cands, conf_thresh)
            &&& #[trigger] is_suppression(kept, scored_boxes(cands, frame, net), floor, nms_thresh)
            &&& dets == assembled(cands, kept, frame, net)
        };
    let items = scored_boxes(cands, frame, net);
    let k = kept[i] as int;
    assert(eligible(items, kept[i] as int, floor));
    assert(items[k].score == cands[k].composite_score);
    let rows = tensor.emitted_rows(tensor.rows as int, conf_thresh);
    tensor.lemma_emitted_rows_sound(tensor.rows as int, conf_thresh);
    let r = rows[k];
    assert(tensor.decodes_to(r, cands[k]));
    assert(cands[k] == Candidate {
        bbox: tensor.box_of(r),
        class_index: dets[i].class,
        composite_score: dets[i].conf,
    });
}

/// The detections come out by descending score.
pub proof fn lemma_detections_descend(
    dets: Seq<BoxDetection>,
    tensor: RawTensor,
    frame: MatInfo,
    net: NetworkInput,
    conf_thresh: int,
    nms_thresh: int,
    i: int,
    j: int,
)
    requires
        post_processed(dets, tensor, frame, net, conf_thresh, nms_thresh),
        0 <= i <= j < dets.len(),
    ensures
        dets[i].conf >= dets[j].conf,
{
    let floor = score_floor(conf_thresh);
    let (cands, kept): (Seq<Candidate>, Seq<usize>) = choose|cands: Seq<Candidate>, kept: Seq<usize>|
        {
            &&& tensor.decoding(cands, conf_thresh)
            &&& #[trigger] is_suppression(kept, scored_boxes(cands, frame, net), floor, nms_thresh)
            &&& dets == assembled(cands, kept, frame, net)
        };
    let items = scored_boxes(cands, frame, net);
    assert(eligible(items, kept[i] as int, floor));
    assert(eligible(items, kept[j] as int, floor));
    lemma_kept_scores_descend(kept, items, floor, nms_thresh, i, j);
}

/// Maps every candidate into the frame and pairs it with its score.
pub fn score_boxes(cands: &Vec<Candidate>, frame: &MatInfo, net: &NetworkInput) -> (items: Vec<
    ScoredBox,
>)
    requires
        net.valid(),
    ensures
        items@ == scored_boxes(cands@, *frame, *net),
        all_in_range(items@),
{
    let mut items: Vec<ScoredBox> = Vec::new();
    let mut i: usize = 0;
    while i < cands.len()
        invariant
            net.valid(),
            i <= cands@.len(),
            items@.len() == i,
            forall|j: int|
                0 <= j < i ==> (#[trigger] items@[j]) == scored_boxes(cands@, *frame, *net)[j]
                    && items@[j].bbox.in_range(),
        decreases cands@.len() - i,
    {
        let bbox = map_box(&cands[i].bbox, frame, net);
        items.push(ScoredBox { bbox, score: cands[i].composite_score });
        i += 1;
    }
    items
}

/// Turns one candidate into a detection.
pub fn to_detection(c: &Candidate, frame: &MatInfo, net: &NetworkInput) -> (d: BoxDetection)
    requires
        net.valid(),
    ensures
        d == detection_of(*c, *frame, *net),
        d.xmax == d.xmin + mapped(c.bbox, *frame, *net).width,
        d.ymax == d.ymin + mapped(c.bbox, *frame, *net).height,
{
    let p = map_box(&c.bbox, frame, net);
    BoxDetection {
        xmin: p.x,
        ymin: p.y,
        xmax: p.x + p.width,
        ymax: p.y + p.height,
        class: c.class_index,
        conf: c.composite_score,
    }
}

/// The confidence threshold in the steps of a composite score.
fn floor_of(conf_thresh: i32) -> (f: i64)
    ensures
        f == score_floor(conf_thresh as int),
{
    assert(-0x8000_0000 * 10000 <= conf_thresh * UNIT <= 0x8000_0000 * 10000) by (nonlinear_arith)
        requires
            -0x8000_0000 <= conf_thresh <= 0x7fff_ffff,
            UNIT == 10000,
    ;
    (conf_thresh as i64) * (UNIT as i64)
}

/// Turns the detector's output tensor into the final detections of a frame.
///
/// The tensor is decoded with `conf_thresh`, the candidates are mapped from
/// the network's input resolution into the frame, and suppression with
/// `conf_thresh` and `nms_thresh` picks the detections, which come out by
/// descending score. Both thresholds count steps of `1 / UNIT`. A malformed
/// tensor fails the whole call.
pub fn post_process(
    tensor: &RawTensor,
    mat_info: &MatInfo,
    net: &NetworkInput,
    conf_thresh: i32,
    nms_thresh: i32,
) -> (res: Result<Detections, DecodeError>)
    requires
        net.valid(),
    ensures
        (match res {
            Ok(d) => tensor.shape_error().is_none() && post_processed(
                d.detections@,
                *tensor,
                *mat_info,
                *net,
                conf_thresh as int,
                nms_thresh as int,
            ),
            Err(e) => tensor.shape_error() == Some(e),
        }),
{
    let cands = match decode(tensor, conf_thresh) {
        Ok(c) => c,
        Err(e) => {
            return Err(e);
        },
    };
    let items = score_boxes(&cands, mat_info, net);
    let kept = suppress(&items, floor_of(conf_thresh), nms_thresh);
    let mut detections: Vec<BoxDetection> = Vec::new();
    let mut k: usize = 0;
    while k < kept.len()
        invariant
            net.valid(),
            k <= kept@.len(),
            detections@.len() == k,
            forall|l: int| 0 <= l < kept@.len() ==> (#[trigger] kept@[l]) < cands@.len(),
            forall|l: int|
                0 <= l < k ==> (#[trigger] detections@[l]) == assembled(
                    cands@,
                    kept@,
                    *mat_info,
                    *net,
                )[l],
        decreases kept@.len() - k,
    {
        detections.push(to_detection(&cands[kept[k]], mat_info, net));
        k += 1;
    }
    assert(detections@ =~= assembled(cands@, kept@, *mat_info, *net));
    Ok(Detections { detections })
}

impl Detections {
    /// Whether a detection of the given class is present.
    pub fn contains_class(&self, class: usize) -> (b: bool)
        ensures
            b == has_class(self.detections@, class),
    {
        let mut i: usize = 0;
        while i < self.detections.len()
            invariant
                i <= self.detections@.len(),
                forall|j: int| 0 <= j < i ==> (#[trigger] self.detections@[j]).class != class,
            decreases self.detections@.len() - i,
        {
            if self.detections[i].class == class {
                return true;
            }
            i += 1;
        }
        false
    }
}

} // verus!
