//! The in-memory annotation project: images, labels and interaction state.
//!
//! A `Project` owns the ordered image list, the label registry and the
//! transient tool state. It is built whole from a parsed descriptor plus
//! the discovered image files, mutated only by the editing operations
//! here, and serialized back by the persistence functions.

use vstd::prelude::*;

use crate::colors::Rgb;
use crate::colors::spec_color_for;
use crate::colors::color_for;
use crate::errors::LabelConflict;
use crate::errors::LoadError;
use crate::errors::SaveError;
use crate::paths::is_image_file;
use crate::fixed::coord_in_range;
use crate::fixed::trunc_div;
use crate::geom::Rect;
use crate::geom::Vec2;

verus! {

/// The three mutually exclusive editing tools.
#[derive(Clone, Copy, PartialEq, Eq, Structural, Debug)]
pub enum Tool {
    Stamp,
    Drag,
    Edit,
}

/// Cursor shape the rendering layer is asked to show while hovering or
/// dragging a region handle.
#[derive(Clone, Copy, PartialEq, Eq, Structural, Debug)]
pub enum CursorHint {
    ResizeNorthWest,
    ResizeNorth,
    ResizeNorthEast,
    ResizeWest,
    Move,
    ResizeEast,
    ResizeSouthWest,
    ResizeSouth,
    ResizeSouthEast,
    Plain,
}

/// A registered category label: a display name and its palette colour.
#[derive(Clone, Debug)]
pub struct Label {
    pub name: Vec<u8>,
    pub color: Rgb,
}

/// One annotated rectangle: centre and extent as fixed-point fractions of
/// the owning image's dimensions, plus the category it carries.
#[derive(Clone, Copy, PartialEq, Eq, Structural, Debug)]
pub struct Segment {
    pub center: Vec2,
    pub size: Vec2,
    pub label_id: u32,
}

/// An in-progress resize/move of an existing segment: which segment, the
/// per-axis handle direction, and the cursor shown while dragging.
#[derive(Clone, Copy, PartialEq, Eq, Structural, Debug)]
pub struct SegmentDrag {
    pub segment_index: usize,
    /// Per-axis resize direction: `0` moves, `1`/`-1` drag the far/near
    /// edge. `2` can arise from a grab exactly on the trailing edge.
    pub dir: Vec2,
    pub icon: CursorHint,
}

/// One dataset image: its file path, derived sidecar path, display name,
/// image-source URI and ordered segment list.
pub struct Image {
    pub file_path: Vec<u8>,
    pub file_name: Vec<u8>,
    pub labels_file_path: Vec<u8>,
    pub segments: Vec<Segment>,
    pub uri: Vec<u8>,
}

/// The whole project state.
pub struct Project {
    /// The descriptor document's text as loaded; on save it is rewritten
    /// with the current label mapping, all other fields preserved.
    pub original_yaml: Vec<u8>,
    /// Label registry: ID/label pairs with pairwise distinct IDs, in
    /// insertion order.
    pub labels: Vec<(u32, Label)>,
    pub images: Vec<Image>,
    pub image_index: usize,
    /// The armed label: attached to the next created segment.
    pub label_id: Option<u32>,
    /// Stamp-tool rectangle extent, in display units.
    pub rect_size: Vec2,
    pub tool: Tool,
    /// Anchor of an in-progress drag-tool rectangle.
    pub drag_start_pos: Option<Vec2>,
    pub edit_drag: Option<SegmentDrag>,
    /// Candidate ID and typed name while the add-label entry is open.
    pub add_label_modal: Option<(u32, Vec<u8>)>,
    pub yaml_file_path: Vec<u8>,
}

pub open spec fn seg_in_range(s: Segment) -> bool {
    &&& coord_in_range(s.center.x as int)
    &&& coord_in_range(s.center.y as int)
    &&& coord_in_range(s.size.x as int)
    &&& coord_in_range(s.size.y as int)
}

pub open spec fn image_wf(img: Image) -> bool {
    forall|i: int| 0 <= i < img.segments@.len() ==> seg_in_range(#[trigger] img.segments@[i])
}

pub open spec fn spec_has_label(s: Seq<(u32, Label)>, id: u32) -> bool {
    exists|j: int| 0 <= j < s.len() && (#[trigger] s[j]).0 == id
}

pub open spec fn labels_unique(s: Seq<(u32, Label)>) -> bool {
    forall|i: int, j: int| 0 <= i < j < s.len() ==> (#[trigger] s[i]).0 != (#[trigger] s[j]).0
}

impl Project {
    /// Internal consistency: distinct label IDs, a current index inside
    /// the image list, and every stored coordinate in storable range.
    pub open spec fn wf(self) -> bool {
        &&& labels_unique(self.labels@)
        &&& (self.images@.len() == 0 ==> self.image_index == 0)
        &&& (self.images@.len() > 0 ==> self.image_index < self.images@.len())
        &&& forall|i: int| 0 <= i < self.images@.len() ==> image_wf(#[trigger] self.images@[i])
        &&& 0 <= self.rect_size.x <= crate::fixed::DISPLAY_LIMIT
        &&& 0 <= self.rect_size.y <= crate::fixed::DISPLAY_LIMIT
        &&& match self.edit_drag {
            Some(d) => crate::mapper::dir_component(d.dir.x as int) && crate::mapper::dir_component(
                d.dir.y as int,
            ),
            None => true,
        }
        &&& match self.drag_start_pos {
            Some(p) => -crate::fixed::DISPLAY_LIMIT <= p.x <= crate::fixed::DISPLAY_LIMIT
                && -crate::fixed::DISPLAY_LIMIT <= p.y <= crate::fixed::DISPLAY_LIMIT,
            None => true,
        }
    }
}

/// Index after one forward step: saturates at the last image.
pub open spec fn spec_advance_index(len: int, i: int) -> int {
    let last = if len == 0 { 0 } else { len - 1 };
    if i < last {
        i + 1
    } else {
        last
    }
}

/// Index after one backward step: saturates at zero.
pub open spec fn spec_back_index(i: int) -> int {
    if i == 0 {
        0
    } else {
        i - 1
    }
}

/// `k` forward steps.
pub open spec fn iter_advance(len: int, i: int, k: nat) -> int
    decreases k,
{
    if k == 0 {
        i
    } else {
        iter_advance(len, spec_advance_index(len, i), (k - 1) as nat)
    }
}

/// `k` backward steps.
pub open spec fn iter_back(i: int, k: nat) -> int
    decreases k,
{
    if k == 0 {
        i
    } else {
        iter_back(spec_back_index(i), (k - 1) as nat)
    }
}

/// Forward navigation saturates: from any index, at least `len - 1`
/// forward steps land on the last image and stay there.
pub proof fn lemma_advance_saturates(len: int, i: int, k: nat)
    requires
        len >= 1,
        0 <= i <= len - 1,
        k >= len - 1 - i,
    ensures
        iter_advance(len, i, k) == len - 1,
    decreases k,
{
    if k > 0 {
        lemma_advance_saturates(len, spec_advance_index(len, i), (k - 1) as nat);
    }
}

/// Backward navigation saturates: from index `i`, at least `i` backward
/// steps land on the first image and stay there. Together with
/// `lemma_advance_saturates`, for `N` images `N + 5` forward steps from
/// index `0` end at `N - 1`, and `N + 5` backward steps from there end
/// at `0`.
pub proof fn lemma_back_saturates(i: int, k: nat)
    requires
        0 <= i,
        k >= i,
    ensures
        iter_back(i, k) == 0,
    decreases k,
{
    if k > 0 {
        lemma_back_saturates(spec_back_index(i), (k - 1) as nat);
    }
}

impl Project {
    /// Move forward one image, saturating at the last one.
    pub fn advance(&mut self)
        ensures
            final(self).image_index == spec_advance_index(
                old(self).images@.len() as int,
                old(self).image_index as int,
            ),
            *final(self) == (Project { image_index: final(self).image_index, ..*old(self) }),
    {
        let last: usize = if self.images.len() == 0 {
            0
        } else {
            self.images.len() - 1
        };
        if self.image_index < last {
            self.image_index = self.image_index + 1;
        } else {
            self.image_index = last;
        }
    }

    /// Move backward one image, saturating at the first one.
    pub fn back(&mut self)
        ensures
            final(self).image_index == spec_back_index(old(self).image_index as int),
            *final(self) == (Project { image_index: final(self).image_index, ..*old(self) }),
    {
        if self.image_index > 0 {
            self.image_index = self.image_index - 1;
        }
    }

    /// Jump to an arbitrary image, clamped into the list.
    pub fn set_image_index(&mut self, i: usize)
        ensures
            final(self).image_index == if old(self).images@.len() == 0 {
                0int
            } else if i < old(self).images@.len() {
                i as int
            } else {
                old(self).images@.len() - 1
            },
            *final(self) == (Project { image_index: final(self).image_index, ..*old(self) }),
    {
        if self.images.len() == 0 {
            self.image_index = 0;
        } else if i < self.images.len() {
            self.image_index = i;
        } else {
            self.image_index = self.images.len() - 1;
        }
    }

    /// Position of the label with this ID in the registry.
    pub fn lookup(&self, id: u32) -> (r: Option<usize>)
        ensures
            r is Some <==> spec_has_label(self.labels@, id),
            r is Some ==> 0 <= r->0 < self.labels@.len() && self.labels@[r->0 as int].0 == id,
    {
        let mut i: usize = 0;
        while i < self.labels.len()
            invariant
                0 <= i <= self.labels@.len(),
                forall|j: int| 0 <= j < i ==> (#[trigger] self.labels@[j]).0 != id,
            decreases self.labels@.len() - i,
        {
            if self.labels[i].0 == id {
                return Some(i);
            }
            i = i + 1;
        }
        None
    }

    /// Suggested ID for a new label: one past the current count. A pure
    /// suggestion, not a reservation; `add_label` still rejects clashes.
    pub fn propose_next_id(&self) -> (r: u32)
        requires
            self.labels@.len() < u32::MAX,
        ensures
            r == 1 + self.labels@.len(),
    {
        1 + self.labels.len() as u32
    }

    /// Register a label under `id` with the palette colour for that ID.
    /// If the ID is already taken the registry is left unchanged and the
    /// conflict is reported.
    pub fn add_label(&mut self, id: u32, name: Vec<u8>) -> (r: Result<(), LabelConflict>)
        ensures
            r is Ok <==> !spec_has_label(old(self).labels@, id),
            r is Err ==> *final(self) == *old(self),
            r is Ok ==> final(self).labels@ == old(self).labels@.push(
                (id, Label { name, color: spec_color_for(id) }),
            ),
            *final(self) == (Project { labels: final(self).labels, ..*old(self) }),
            labels_unique(old(self).labels@) ==> labels_unique(final(self).labels@),
    {
        match self.lookup(id) {
            Some(_) => Err(LabelConflict),
            None => {
                let color = color_for(id);
                self.labels.push((id, Label { name, color }));
                proof {
                    if labels_unique(old(self).labels@) {
                        let s = final(self).labels@;
                        assert forall|i: int, j: int| 0 <= i < j < s.len() implies (
                        #[trigger] s[i]).0 != (#[trigger] s[j]).0 by {
                            if j < s.len() - 1 {
                                assert(s[i] == old(self).labels@[i]);
                                assert(s[j] == old(self).labels@[j]);
                            } else {
                                assert(s[j].0 == id);
                                assert(s[i] == old(self).labels@[i]);
                                assert(!spec_has_label(old(self).labels@, id));
                            }
                        }
                    }
                }
                Ok(())
            },
        }
    }
}


/// Per-frame input snapshot handed in by the rendering layer.
#[derive(Clone, Copy, PartialEq, Eq, Structural, Debug)]
pub struct Input {
    pub left: bool,
    pub right: bool,
    pub accept: bool,
    pub delete: bool,
    pub clone: bool,
    pub tool: Option<Tool>,
    pub hover_pos: Option<Vec2>,
    pub scroll_delta: Vec2,
    pub clicked: bool,
    pub drag_started: bool,
    pub dragged: bool,
    pub drag_stopped: bool,
    pub pointer_down: bool,
    pub drag_delta: Vec2,
}

/// What one frame of input processing asks the rendering layer to show.
#[derive(Clone, Copy, PartialEq, Eq, Structural, Debug)]
pub struct FrameOutcome {
    pub cursor: CursorHint,
    pub highlighted: Option<usize>,
}

/// Input values the rendering layer can actually deliver: positions and
/// deltas within the display bounds.
pub open spec fn input_wf(input: Input) -> bool {
    &&& match input.hover_pos {
        Some(p) => -crate::fixed::DISPLAY_LIMIT <= p.x <= crate::fixed::DISPLAY_LIMIT
            && -crate::fixed::DISPLAY_LIMIT <= p.y <= crate::fixed::DISPLAY_LIMIT,
        None => true,
    }
    &&& -crate::fixed::DISPLAY_LIMIT <= input.scroll_delta.x <= crate::fixed::DISPLAY_LIMIT
    &&& -crate::fixed::DISPLAY_LIMIT <= input.scroll_delta.y <= crate::fixed::DISPLAY_LIMIT
    &&& -crate::fixed::DISPLAY_LIMIT <= input.drag_delta.x <= crate::fixed::DISPLAY_LIMIT
    &&& -crate::fixed::DISPLAY_LIMIT <= input.drag_delta.y <= crate::fixed::DISPLAY_LIMIT
}

/// A stamp extent clamped to at least two display units and at most the
/// display bound.
pub open spec fn spec_clamp_stamp(v: int) -> int {
    if v < 2 {
        2
    } else if v > crate::fixed::DISPLAY_LIMIT {
        crate::fixed::DISPLAY_LIMIT as int
    } else {
        v
    }
}

/// The stamp extent after one frame of scroll input: with the stamp tool
/// active, vertical scroll scales both axes by a quarter and horizontal
/// scroll additionally adjusts the width; either way the extent is then
/// clamped to at least `(2, 2)`.
pub open spec fn spec_stamp_adjusted(rect_size: Vec2, scroll: Vec2, stamp_active: bool) -> Vec2 {
    let raw = if stamp_active {
        Vec2 {
            x: (rect_size.x + trunc_div(scroll.y as int, 4) + trunc_div(
                scroll.x as int,
                4,
            )) as i64,
            y: (rect_size.y + trunc_div(scroll.y as int, 4)) as i64,
        }
    } else {
        rect_size
    };
    Vec2 { x: spec_clamp_stamp(raw.x as int) as i64, y: spec_clamp_stamp(raw.y as int) as i64 }
}

impl Project {
    /// Apply one frame of scroll input to the stamp extent.
    pub fn update_stamp_size(&mut self, scroll: Vec2, stamp_active: bool)
        requires
            0 <= old(self).rect_size.x <= crate::fixed::DISPLAY_LIMIT,
            0 <= old(self).rect_size.y <= crate::fixed::DISPLAY_LIMIT,
            -crate::fixed::DISPLAY_LIMIT <= scroll.x <= crate::fixed::DISPLAY_LIMIT,
            -crate::fixed::DISPLAY_LIMIT <= scroll.y <= crate::fixed::DISPLAY_LIMIT,
        ensures
            final(self).rect_size == spec_stamp_adjusted(
                old(self).rect_size,
                scroll,
                stamp_active,
            ),
            2 <= final(self).rect_size.x <= crate::fixed::DISPLAY_LIMIT,
            2 <= final(self).rect_size.y <= crate::fixed::DISPLAY_LIMIT,
            *final(self) == (Project { rect_size: final(self).rect_size, ..*old(self) }),
    {
        if stamp_active {
            let qy: i64 = crate::fixed::quarter(scroll.y);
            let qx: i64 = crate::fixed::quarter(scroll.x);
            proof {
                crate::fixed::lemma_trunc_div_bound(
                    scroll.x as int,
                    4,
                    crate::fixed::DISPLAY_LIMIT as int,
                );
                crate::fixed::lemma_trunc_div_bound(
                    scroll.y as int,
                    4,
                    crate::fixed::DISPLAY_LIMIT as int,
                );
            }
            self.rect_size.x = self.rect_size.x + qy + qx;
            self.rect_size.y = self.rect_size.y + qy;
        }
        if self.rect_size.x < 2 {
            self.rect_size.x = 2;
        } else if self.rect_size.x > crate::fixed::DISPLAY_LIMIT {
            self.rect_size.x = crate::fixed::DISPLAY_LIMIT;
        }
        if self.rect_size.y < 2 {
            self.rect_size.y = 2;
        } else if self.rect_size.y > crate::fixed::DISPLAY_LIMIT {
            self.rect_size.y = crate::fixed::DISPLAY_LIMIT;
        }
    }

    /// Create a segment from a requested screen rectangle: the rectangle
    /// is clipped to the image display, converted to normalized
    /// coordinates and appended to the current image; with quick advance
    /// on, the project then moves to the next image.
    pub fn label_segment(
        &mut self,
        image_rect: Rect,
        label_id: u32,
        rect: Rect,
        advance_on_accept: bool,
    )
        requires
            old(self).wf(),
            old(self).images@.len() > 0,
            crate::mapper::display_rect_wf(image_rect),
            crate::geom::rect_in_range(rect),
        ensures
            final(self).wf(),
            ({
                let clipped = crate::geom::spec_intersect(rect, image_rect);
                let seg = Segment {
                    label_id,
                    center: crate::mapper::spec_to_normalized_center(image_rect, clipped),
                    size: crate::mapper::spec_to_normalized_size(image_rect, clipped),
                };
                let idx = old(self).image_index as int;
                let img = old(self).images@[idx];
                let nimg = final(self).images@[idx];
                &&& final(self).images@.len() == old(self).images@.len()
                &&& (forall|i: int|
                    0 <= i < old(self).images@.len() && i != idx ==> final(self).images@[i]
                        == old(self).images@[i])
                &&& nimg.segments@ == img.segments@.push(seg)
                &&& nimg.file_path == img.file_path
                &&& nimg.file_name == img.file_name
                &&& nimg.labels_file_path == img.labels_file_path
                &&& nimg.uri == img.uri
                &&& (crate::geom::rect_ordered(clipped) ==> {
                    &&& 0 <= seg.center.x <= crate::fixed::SCALE
                    &&& 0 <= seg.center.y <= crate::fixed::SCALE
                    &&& 0 <= seg.size.x <= crate::fixed::SCALE
                    &&& 0 <= seg.size.y <= crate::fixed::SCALE
                    &&& crate::mapper::norm_box_within_unit(seg.center, seg.size)
                })
            }),
            final(self).image_index == if advance_on_accept {
                spec_advance_index(old(self).images@.len() as int, old(self).image_index as int)
            } else {
                old(self).image_index as int
            },
            final(self).labels == old(self).labels,
            final(self).label_id == old(self).label_id,
            final(self).tool == old(self).tool,
            final(self).rect_size == old(self).rect_size,
            final(self).drag_start_pos == old(self).drag_start_pos,
            final(self).edit_drag == old(self).edit_drag,
            final(self).add_label_modal == old(self).add_label_modal,
            final(self).yaml_file_path == old(self).yaml_file_path,
            final(self).original_yaml == old(self).original_yaml,
    {
        let clipped = rect.intersect(&image_rect);
        let (center, size) = crate::mapper::to_normalized(image_rect, clipped);
        let seg = Segment { label_id, center, size };
        let idx: usize = self.image_index;
        self.images[idx].segments.push(seg);
        if advance_on_accept {
            self.advance();
        }
        proof {
            assert forall|i: int| 0 <= i < self.images@.len() implies image_wf(
                #[trigger] self.images@[i],
            ) by {
                if i != old(self).image_index as int {
                    assert(self.images@[i] == old(self).images@[i]);
                } else {
                    let oimg = old(self).images@[i];
                    assert(self.images@[i].segments@ == oimg.segments@.push(seg));
                    assert(forall|k: int|
                        0 <= k < oimg.segments@.len() ==> self.images@[i].segments@[k]
                            == #[trigger] oimg.segments@[k]);
                }
            }
        }
    }
}


impl Project {
    /// Apply the cross-mode inputs read each frame: an explicit tool
    /// selection, then backward and forward navigation.
    pub fn handle_global(&mut self, input: Input)
        ensures
            final(self).tool == match input.tool {
                Some(t) => t,
                None => old(self).tool,
            },
            final(self).image_index == ({
                let i1 = if input.left {
                    spec_back_index(old(self).image_index as int)
                } else {
                    old(self).image_index as int
                };
                if input.right {
                    spec_advance_index(old(self).images@.len() as int, i1)
                } else {
                    i1
                }
            }),
            *final(self) == (Project {
                tool: final(self).tool,
                image_index: final(self).image_index,
                ..*old(self)
            }),
            old(self).wf() ==> final(self).wf(),
    {
        match input.tool {
            Some(t) => {
                self.tool = t;
            },
            None => {},
        }
        if input.left {
            self.back();
        }
        if input.right {
            self.advance();
        }
    }

    /// Process one frame of pointer input against the current image laid
    /// out in `image_rect`: stamp-extent scrolling, hit testing, the edit
    /// tool's drag capture/apply/release, deletion, style matching, and
    /// segment creation by stamp or drag. Returns what to show: the
    /// cursor hint and the highlighted segment.
    #[verifier::rlimit(100)]
    #[verifier::spinoff_prover]
    pub fn frame_step(&mut self, input: Input, image_rect: Rect, advance_on_accept: bool) -> (out:
        FrameOutcome)
        requires
            old(self).wf(),
            old(self).images@.len() > 0,
            crate::mapper::display_rect_wf(image_rect),
            input_wf(input),
        ensures
            final(self).wf(),
            ({
                let pre = *old(self);
                let post = *final(self);
                let idx = pre.image_index as int;
                let segs0 = pre.images@[idx].segments@;
                let hit = match input.hover_pos {
                    Some(p) => crate::mapper::spec_hit(segs0, image_rect, p),
                    None => None,
                };
                let applied = pre.tool == Tool::Edit && pre.edit_drag is Some && input.dragged
                    && pre.edit_drag->0.segment_index < segs0.len();
                let drag = pre.edit_drag->0;
                let dn = Vec2 {
                    x: crate::mapper::spec_norm_delta(
                        input.drag_delta.x as int,
                        crate::geom::spec_width(image_rect),
                    ) as i64,
                    y: crate::mapper::spec_norm_delta(
                        input.drag_delta.y as int,
                        crate::geom::spec_height(image_rect),
                    ) as i64,
                };
                let segs1 = if applied {
                    segs0.update(
                        drag.segment_index as int,
                        crate::mapper::spec_drag_seg(segs0[drag.segment_index as int], drag.dir, dn),
                    )
                } else {
                    segs0
                };
                let deleted = pre.tool == Tool::Edit && hit is Some && input.delete;
                let segs2 = if deleted {
                    segs1.remove(hit->0)
                } else {
                    segs1
                };
                let r_hi = crate::mapper::spec_to_screen(image_rect, segs0[hit->0]);
                let cloned = pre.tool == Tool::Edit && hit is Some && input.clone;
                let rs2 = if cloned {
                    Vec2 {
                        x: spec_clamp_stamp(crate::geom::spec_width(r_hi)) as i64,
                        y: spec_clamp_stamp(crate::geom::spec_height(r_hi)) as i64,
                    }
                } else {
                    spec_stamp_adjusted(pre.rect_size, input.scroll_delta, pre.tool == Tool::Stamp)
                };
                let armed = if cloned {
                    Some(segs0[hit->0].label_id)
                } else {
                    pre.label_id
                };
                let stamp_created = pre.tool == Tool::Stamp && input.hover_pos is Some
                    && armed is Some && (input.accept || input.clicked);
                let anchor = if pre.tool == Tool::Drag && input.hover_pos is Some && armed is Some
                    && input.drag_started {
                    Some(input.hover_pos->0)
                } else {
                    pre.drag_start_pos
                };
                let drag_created = pre.tool == Tool::Drag && input.hover_pos is Some
                    && armed is Some && anchor is Some && input.drag_stopped;
                let created = stamp_created || drag_created;
                let creation_rect = if stamp_created {
                    crate::geom::spec_from_center_size(input.hover_pos->0, rs2)
                } else {
                    crate::geom::spec_from_two_pos(anchor->0, input.hover_pos->0)
                };
                let clipped = crate::geom::spec_intersect(creation_rect, image_rect);
                let seg_new = Segment {
                    label_id: armed->0,
                    center: crate::mapper::spec_to_normalized_center(image_rect, clipped),
                    size: crate::mapper::spec_to_normalized_size(image_rect, clipped),
                };
                let segs3 = if created {
                    segs2.push(seg_new)
                } else {
                    segs2
                };
                let hi_usable = hit is Some && input.hover_pos is Some && crate::geom::spec_width(
                    r_hi,
                ) > 0 && crate::geom::spec_height(r_hi) > 0;
                let cell = crate::mapper::spec_cell(r_hi, input.hover_pos->0);
                &&& post.images@.len() == pre.images@.len()
                &&& (forall|i: int|
                    0 <= i < pre.images@.len() && i != idx ==> post.images@[i] == pre.images@[i])
                &&& post.images@[idx].segments@ == segs3
                &&& post.images@[idx].file_path == pre.images@[idx].file_path
                &&& post.images@[idx].file_name == pre.images@[idx].file_name
                &&& post.images@[idx].labels_file_path == pre.images@[idx].labels_file_path
                &&& post.images@[idx].uri == pre.images@[idx].uri
                &&& post.rect_size == rs2
                &&& post.label_id == armed
                &&& post.image_index == if created && advance_on_accept {
                    spec_advance_index(pre.images@.len() as int, idx)
                } else {
                    idx
                }
                &&& post.drag_start_pos == if pre.tool == Tool::Drag && input.hover_pos is Some
                    && armed is Some {
                    if drag_created {
                        None
                    } else {
                        anchor
                    }
                } else {
                    pre.drag_start_pos
                }
                &&& post.edit_drag == if pre.tool == Tool::Edit {
                    if pre.edit_drag is Some && input.dragged {
                        pre.edit_drag
                    } else if input.drag_stopped {
                        None
                    } else if hi_usable && (input.drag_started || input.pointer_down) {
                        Some(
                            SegmentDrag {
                                segment_index: hit->0 as usize,
                                dir: Vec2 { x: (cell.0 - 1) as i64, y: (cell.1 - 1) as i64 },
                                icon: crate::mapper::spec_icon_for_cell(cell.0, cell.1),
                            },
                        )
                    } else {
                        pre.edit_drag
                    }
                } else {
                    pre.edit_drag
                }
                &&& out.highlighted == match hit {
                    Some(i) => Some(i as usize),
                    None => None,
                }
                &&& out.cursor == if pre.tool == Tool::Edit {
                    if pre.edit_drag is Some && input.dragged {
                        drag.icon
                    } else if input.drag_stopped {
                        CursorHint::Plain
                    } else if hi_usable {
                        crate::mapper::spec_icon_for_cell(cell.0, cell.1)
                    } else {
                        CursorHint::Plain
                    }
                } else {
                    CursorHint::Plain
                }
                &&& post.tool == pre.tool
                &&& post.labels == pre.labels
                &&& post.add_label_modal == pre.add_label_modal
                &&& post.yaml_file_path == pre.yaml_file_path
                &&& post.original_yaml == pre.original_yaml
            }),
    {
        let stamp_active: bool = matches!(self.tool, Tool::Stamp);
        self.update_stamp_size(input.scroll_delta, stamp_active);
        let idx: usize = self.image_index;

        let hit: Option<usize> = match input.hover_pos {
            Some(p) => crate::mapper::hit_test(&self.images[idx].segments, image_rect, p),
            None => None,
        };
        proof {
            match input.hover_pos {
                Some(p) => crate::mapper::lemma_spec_hit(
                    old(self).images@[idx as int].segments@,
                    image_rect,
                    p,
                ),
                None => (),
            }
        }

        let mut hi_w: i64 = 0;
        let mut hi_h: i64 = 0;
        let mut hi_label: u32 = 0;
        match hit {
            Some(hi) => {
                let r = crate::mapper::fun_name(image_rect, &self.images[idx].segments[hi]);
                hi_w = r.max.x - r.min.x;
                hi_h = r.max.y - r.min.y;
                hi_label = self.images[idx].segments[hi].label_id;
            },
            None => {},
        }

        let mut cursor: CursorHint = CursorHint::Plain;
        let is_edit: bool = matches!(self.tool, Tool::Edit);
        if is_edit {
            let dragging: bool = self.edit_drag.is_some() && input.dragged;
            if dragging {
                let drag: SegmentDrag = match self.edit_drag {
                    Some(d) => d,
                    None => SegmentDrag {
                        segment_index: 0,
                        dir: Vec2 { x: 0, y: 0 },
                        icon: CursorHint::Plain,
                    },
                };
                if drag.segment_index < self.images[idx].segments.len() {
                    let mut seg: Segment = self.images[idx].segments[drag.segment_index];
                    crate::mapper::apply_edit_drag(
                        &mut seg,
                        drag.dir,
                        input.drag_delta,
                        Vec2 { x: image_rect.width(), y: image_rect.height() },
                    );
                    self.images[idx].segments[drag.segment_index] = seg;
                }
                cursor = drag.icon;
            } else if input.drag_stopped {
                self.edit_drag = None;
            } else {
                match (input.hover_pos, hit) {
                    (Some(p), Some(hi)) => {
                        let r_hi: Rect = crate::mapper::fun_name(
                            image_rect,
                            &self.images[idx].segments[hi],
                        );
                        if r_hi.max.x - r_hi.min.x > 0 && r_hi.max.y - r_hi.min.y > 0 {
                            let (cx, cy) = crate::mapper::cell_of(r_hi, p);
                            let icon = crate::mapper::icon_for_cell(cx, cy);
                            cursor = icon;
                            if input.drag_started || input.pointer_down {
                                self.edit_drag = Some(
                                    SegmentDrag {
                                        segment_index: hi,
                                        dir: Vec2 { x: cx - 1, y: cy - 1 },
                                        icon,
                                    },
                                );
                            }
                        }
                    },
                    _ => {},
                }
            }
        }

        if is_edit {
            match hit {
                Some(hi) => {
                    if input.delete {
                        let _removed = self.images[idx].segments.remove(hi);
                    }
                    if input.clone {
                        self.rect_size = Vec2 { x: clamp_stamp(hi_w), y: clamp_stamp(hi_h) };
                        self.label_id = Some(hi_label);
                    }
                },
                None => {},
            }
        }

        match (input.hover_pos, self.label_id) {
            (Some(hover), Some(label_id)) => {
                if matches!(self.tool, Tool::Stamp) {
                    if input.accept || input.clicked {
                        proof {
                            crate::fixed::lemma_trunc_div_bound(
                                self.rect_size.x as int,
                                2,
                                crate::fixed::DISPLAY_LIMIT as int,
                            );
                            crate::fixed::lemma_trunc_div_bound(
                                self.rect_size.y as int,
                                2,
                                crate::fixed::DISPLAY_LIMIT as int,
                            );
                        }
                        let rect = Rect::from_center_size(hover, self.rect_size);
                        self.label_segment(image_rect, label_id, rect, advance_on_accept);
                    }
                } else if matches!(self.tool, Tool::Drag) {
                    if input.drag_started {
                        self.drag_start_pos = Some(hover);
                    }
                    match self.drag_start_pos {
                        Some(anchor) => {
                            if input.drag_stopped {
                                self.drag_start_pos = None;
                                let rect = Rect::from_two_pos(anchor, hover);
                                self.label_segment(
                                    image_rect,
                                    label_id,
                                    rect,
                                    advance_on_accept,
                                );
                            }
                        },
                        None => {},
                    }
                }
            },
            _ => {},
        }

        FrameOutcome { cursor, highlighted: hit }
    }
}

/// Clamp a stamp extent into its working range.
pub fn clamp_stamp(v: i64) -> (r: i64)
    ensures
        r == spec_clamp_stamp(v as int),
{
    if v < 2 {
        2
    } else if v > crate::fixed::DISPLAY_LIMIT {
        crate::fixed::DISPLAY_LIMIT
    } else {
        v
    }
}


/// Pairwise-distinct IDs in a name mapping.
pub open spec fn ids_unique(names: Seq<(u32, Vec<u8>)>) -> bool {
    forall|i: int, j: int|
        0 <= i < j < names.len() ==> (#[trigger] names[i]).0 != (#[trigger] names[j]).0
}

/// How many entries of a directory listing are image files.
pub open spec fn count_images(files: Seq<(Vec<u8>, Option<Vec<u8>>)>) -> int
    decreases files.len(),
{
    if files.len() == 0 {
        0
    } else {
        count_images(files.drop_last()) + if crate::paths::spec_is_image(files.last().0@) {
            1int
        } else {
            0int
        }
    }
}

/// One discovered file makes this image record: the path, the name after
/// the last separator, the derived sidecar path, the `file://` URI, and
/// the parsed sidecar records (none when no sidecar file existed).
pub open spec fn image_from_file(img: Image, file: (Vec<u8>, Option<Vec<u8>>)) -> bool {
    &&& img.file_path@ == file.0@
    &&& img.file_name@ == crate::paths::spec_file_name(file.0@)
    &&& img.labels_file_path@ == crate::paths::spec_labels_path(file.0@)
    &&& img.uri@ == crate::paths::spec_uri_of(file.0@)
    &&& match file.1 {
        Some(c) => crate::yolo::spec_parse_sidecar(c@) == Some(img.segments@),
        None => img.segments@.len() == 0,
    }
}

/// The image record has a source among the first `n` discovered files.
pub open spec fn image_has_source(
    img: Image,
    files: Seq<(Vec<u8>, Option<Vec<u8>>)>,
    n: int,
) -> bool {
    exists|j: int|
        0 <= j < n && crate::paths::spec_is_image((#[trigger] files[j]).0@) && image_from_file(
            img,
            files[j],
        )
}

/// Among the first `n` discovered files, this one has a record.
pub open spec fn file_has_record(
    file: (Vec<u8>, Option<Vec<u8>>),
    images: Seq<Image>,
) -> bool {
    exists|k: int| 0 <= k < images.len() && image_from_file(#[trigger] images[k], file)
}

/// Every image file among the first `n` discovered ones has a record.
pub open spec fn files_have_records(
    files: Seq<(Vec<u8>, Option<Vec<u8>>)>,
    images: Seq<Image>,
    n: int,
) -> bool {
    forall|j: int|
        0 <= j < n ==> (crate::paths::spec_is_image((#[trigger] files[j]).0@) ==> file_has_record(
            files[j],
            images,
        ))
}

/// Every image record comes from one of the first `n` discovered files.
pub open spec fn images_from_files(
    images: Seq<Image>,
    files: Seq<(Vec<u8>, Option<Vec<u8>>)>,
    n: int,
) -> bool {
    forall|k: int| 0 <= k < images.len() ==> image_has_source(#[trigger] images[k], files, n)
}

/// Every image file's sidecar, where one exists, parses.
pub open spec fn files_parse(files: Seq<(Vec<u8>, Option<Vec<u8>>)>) -> bool {
    forall|j: int|
        0 <= j < files.len() ==> {
            let f = #[trigger] files[j];
            (crate::paths::spec_is_image(f.0@) && f.1 is Some)
                ==> crate::yolo::spec_parse_sidecar(f.1->0@) is Some
        }
}

/// Assemble a project from the parsed descriptor document, the label-name
/// mapping, and the discovered files with their sidecar contents. Files
/// without an image extension are ignored; the kept images are sorted by
/// file name; a malformed sidecar fails the whole load.
pub fn build_project(
    descriptor: Vec<u8>,
    yaml_file_path: Vec<u8>,
    names: Vec<(u32, Vec<u8>)>,
    files: Vec<(Vec<u8>, Option<Vec<u8>>)>,
) -> (r: Result<Project, LoadError>)
    ensures
        r is Ok <==> files_parse(files@),
        r is Err ==> r->Err_0 is MalformedSidecarLine,
        r is Ok ==> ({
            let p = r->Ok_0;
            &&& p.wf()
            &&& crate::paths::images_sorted(p.images@)
            &&& p.images@.len() == count_images(files@)
            &&& images_from_files(p.images@, files@, files@.len() as int)
            &&& files_have_records(files@, p.images@, files@.len() as int)
            &&& p.image_index == 0
            &&& p.tool == Tool::Stamp
            &&& p.rect_size == (Vec2 { x: 64, y: 64 })
            &&& p.label_id is None
            &&& p.drag_start_pos is None
            &&& p.edit_drag is None
            &&& p.add_label_modal is None
            &&& p.yaml_file_path == yaml_file_path
            &&& p.original_yaml == descriptor
            &&& (ids_unique(names@) ==> p.labels@.len() == names@.len() && (forall|k: int|
                0 <= k < names@.len() ==> (#[trigger] p.labels@[k]).0 == names@[k].0
                    && p.labels@[k].1.name@ == names@[k].1@ && p.labels@[k].1.color
                    == spec_color_for(names@[k].0)))
        }),
{
    let mut images: Vec<Image> = Vec::new();
    let mut i: usize = 0;
    while i < files.len()
        invariant
            0 <= i <= files@.len(),
            crate::paths::images_sorted(images@),
            images@.len() == count_images(files@.take(i as int)),
            images_from_files(images@, files@, i as int),
            files_have_records(files@, images@, i as int),
            forall|k: int| 0 <= k < images@.len() ==> image_wf(#[trigger] images@[k]),
            forall|j: int|
                0 <= j < i ==> {
                    let f = #[trigger] files@[j];
                    (crate::paths::spec_is_image(f.0@) && f.1 is Some)
                        ==> crate::yolo::spec_parse_sidecar(f.1->0@) is Some
                },
        decreases files@.len() - i,
    {
        proof {
            assert(files@.take(i + 1).drop_last() =~= files@.take(i as int));
            assert(files@.take(i + 1).last() == files@[i as int]);
        }
        let (path, sidecar) = &files[i];
        if is_image_file(path.as_slice()) {
            let segments: Vec<Segment> = match sidecar {
                Some(contents) => {
                    match crate::yolo::parse_sidecar(contents.as_slice()) {
                        Ok(segs) => segs,
                        Err(e) => {
                            return Err(e);
                        },
                    }
                },
                None => Vec::new(),
            };
            let cloned_path: Vec<u8> = path.clone();
            proof {
                assert(cloned_path@ =~= path@) by {
                    assert(forall|t: int|
                        0 <= t < cloned_path@.len() ==> vstd::pervasive::cloned::<u8>(
                            path@[t],
                            #[trigger] cloned_path@[t],
                        ));
                }
            }
            let img = Image {
                file_path: cloned_path,
                file_name: crate::paths::file_name_of(path.as_slice()),
                labels_file_path: crate::paths::labels_path(path.as_slice()),
                segments,
                uri: crate::paths::uri_of(path.as_slice()),
            };
            proof {
                assert(img.file_path@ =~= files@[i as int].0@);
                assert(image_from_file(img, files@[i as int]));
            }
            let ghost pre_images = images@;
            crate::paths::insert_image_sorted(&mut images, img);
            proof {
                let p = choose|p: int|
                    0 <= p <= pre_images.len() && images@ == pre_images.insert(p, img);
                pre_images.insert_ensures(p, img);
                assert forall|k: int| 0 <= k < images@.len() implies image_has_source(
                    #[trigger] images@[k],
                    files@,
                    i + 1,
                ) by {
                    if k == p {
                        assert(images@[k] == img);
                        assert(crate::paths::spec_is_image(files@[i as int].0@));
                        assert(image_from_file(images@[k], files@[i as int]));
                    } else {
                        let prev = if k < p { k } else { k - 1 };
                        assert(images@[k] == pre_images[prev]);
                        assert(image_has_source(pre_images[prev], files@, i as int));
                        let jj = choose|j: int|
                            0 <= j < i && crate::paths::spec_is_image(
                                (#[trigger] files@[j]).0@,
                            ) && image_from_file(pre_images[prev], files@[j]);
                        assert(0 <= jj < i + 1 && crate::paths::spec_is_image(files@[jj].0@)
                            && image_from_file(images@[k], files@[jj]));
                    }
                }
                assert forall|k: int| 0 <= k < images@.len() implies image_wf(
                    #[trigger] images@[k],
                ) by {
                    if k < p {
                        assert(images@[k] == pre_images[k]);
                    } else if k == p {
                        assert(images@[k] == img);
                        assert(forall|t: int|
                            0 <= t < img.segments@.len() ==> seg_in_range(
                                #[trigger] img.segments@[t],
                            ));
                    } else {
                        assert(images@[k] == pre_images[k - 1]);
                    }
                }
                assert forall|j: int|
                    0 <= j < i + 1 implies (crate::paths::spec_is_image(
                        (#[trigger] files@[j]).0@,
                    ) ==> file_has_record(files@[j], images@)) by {
                    if crate::paths::spec_is_image(files@[j].0@) {
                        if j < i {
                            let kk = choose|k: int|
                                0 <= k < pre_images.len() && image_from_file(
                                    #[trigger] pre_images[k],
                                    files@[j],
                                );
                            let nk = if kk < p {
                                kk
                            } else {
                                kk + 1
                            };
                            assert(images@[nk] == pre_images[kk]);
                            assert(image_from_file(images@[nk], files@[j]));
                        } else {
                            assert(images@[p] == img);
                            assert(image_from_file(images@[p], files@[j]));
                        }
                    }
                }
            }
        } else {
            proof {
                assert forall|k: int| 0 <= k < images@.len() implies image_has_source(
                    #[trigger] images@[k],
                    files@,
                    i + 1,
                ) by {
                    assert(image_has_source(images@[k], files@, i as int));
                    let jj = choose|j: int|
                        0 <= j < i && crate::paths::spec_is_image((#[trigger] files@[j]).0@)
                            && image_from_file(images@[k], files@[j]);
                    assert(0 <= jj < i + 1 && crate::paths::spec_is_image(files@[jj].0@)
                        && image_from_file(images@[k], files@[jj]));
                }
            }
        }
        i = i + 1;
    }
    proof {
        assert(files@.take(i as int) =~= files@);
    }
    let mut labels: Vec<(u32, Label)> = Vec::new();
    let mut k: usize = 0;
    while k < names.len()
        invariant
            0 <= k <= names@.len(),
            labels_unique(labels@),
            ids_unique(names@.take(k as int)) ==> labels@.len() == k && (forall|t: int|
                0 <= t < k ==> (#[trigger] labels@[t]).0 == names@[t].0 && labels@[t].1.name@
                    == names@[t].1@ && labels@[t].1.color == spec_color_for(names@[t].0)),
            labels@.len() <= k,
        decreases names@.len() - k,
    {
        let (id, name) = &names[k];
        let color = color_for(*id);
        let mut present: bool = false;
        let mut t: usize = 0;
        while t < labels.len()
            invariant
                0 <= t <= labels@.len(),
                present <==> exists|u: int| 0 <= u < t && (#[trigger] labels@[u]).0 == *id,
            decreases labels@.len() - t,
        {
            if labels[t].0 == *id {
                present = true;
            }
            t = t + 1;
        }
        let ghost pre_labels = labels@;
        let cloned_name: Vec<u8> = name.clone();
        proof {
            assert(cloned_name@ =~= names@[k as int].1@) by {
                assert(forall|t: int|
                    0 <= t < cloned_name@.len() ==> vstd::pervasive::cloned::<u8>(
                        names@[k as int].1@[t],
                        #[trigger] cloned_name@[t],
                    ));
            }
        }
        if !present {
            labels.push((*id, Label { name: cloned_name, color }));
        }
        proof {
            assert(names@.take(k + 1).drop_last() =~= names@.take(k as int));
            assert(forall|a: int|
                0 <= a < k + 1 ==> #[trigger] names@.take(k + 1)[a] == names@[a]);
            if ids_unique(names@.take(k + 1)) {
                assert(ids_unique(names@.take(k as int))) by {
                    assert(forall|a: int|
                        0 <= a < k ==> names@.take(k as int)[a] == #[trigger] names@.take(
                            k + 1,
                        )[a]);
                }
                assert(!present) by {
                    if present {
                        let u = choose|u: int|
                            0 <= u < pre_labels.len() && (#[trigger] pre_labels[u]).0 == names@[
                                k as int].0;
                        assert(pre_labels[u].0 == names@[u].0);
                        assert(names@.take(k + 1)[u] == names@[u]);
                        assert(names@.take(k + 1)[k as int] == names@[k as int]);
                    }
                }
                assert(labels@ == pre_labels.push((names@[k as int].0, Label { name: cloned_name, color })));
                assert(forall|t: int|
                    0 <= t < k ==> #[trigger] labels@[t] == pre_labels[t]);
            }
        }
        k = k + 1;
    }
    proof {
        assert(names@.take(k as int) =~= names@);
    }
    Ok(
        Project {
            original_yaml: descriptor,
            labels,
            images,
            image_index: 0,
            label_id: None,
            rect_size: Vec2 { x: 64, y: 64 },
            tool: Tool::Stamp,
            drag_start_pos: None,
            edit_drag: None,
            add_label_modal: None,
            yaml_file_path,
        },
    )
}

impl Image {
    /// The sidecar text for this image, or nothing when it has no
    /// segments: an image without segments leaves its sidecar file, if
    /// any, untouched on save.
    pub fn sidecar_bytes(&self) -> (r: Option<Vec<u8>>)
        ensures
            r is Some <==> self.segments@.len() > 0,
            r is Some ==> r->0@ == crate::yolo::spec_fmt_sidecar(self.segments@),
    {
        if self.segments.len() == 0 {
            None
        } else {
            Some(crate::yolo::fmt_sidecar(&self.segments))
        }
    }
}

impl Project {
    /// The label-name mapping as written back into the descriptor, in
    /// registry order.
    pub fn descriptor_names(&self) -> (r: Vec<(u32, Vec<u8>)>)
        ensures
            r@.len() == self.labels@.len(),
            forall|k: int|
                0 <= k < self.labels@.len() ==> (#[trigger] r@[k]).0 == self.labels@[k].0
                    && r@[k].1@ == self.labels@[k].1.name@,
    {
        let mut out: Vec<(u32, Vec<u8>)> = Vec::new();
        let mut i: usize = 0;
        while i < self.labels.len()
            invariant
                0 <= i <= self.labels@.len(),
                out@.len() == i,
                forall|k: int|
                    0 <= k < i ==> (#[trigger] out@[k]).0 == self.labels@[k].0 && out@[k].1@
                        == self.labels@[k].1.name@,
            decreases self.labels@.len() - i,
        {
            let name: Vec<u8> = self.labels[i].1.name.clone();
            proof {
                assert(name@ =~= self.labels@[i as int].1.name@) by {
                    assert(forall|t: int|
                        0 <= t < name@.len() ==> vstd::pervasive::cloned::<u8>(
                            self.labels@[i as int].1.name@[t],
                            #[trigger] name@[t],
                        ));
                }
            }
            let id: u32 = self.labels[i].0;
            out.push((id, name));
            i = i + 1;
        }
        out
    }

    /// The label mapping handed to the descriptor rewrite, as plain
    /// value pairs in registry order.
    pub open spec fn registry_names_view(self) -> Seq<(u32, Seq<u8>)> {
        Seq::new(self.labels@.len(), |i: int| (self.labels@[i].0, self.labels@[i].1.name@))
    }

    /// Serialize the descriptor with the current label mapping and
    /// count written into it: the result is exactly the stored document
    /// rewritten by `rewrite_names_of` with the registry's names and
    /// count, and on success the stored document is updated to it, as
    /// the copy of record for later saves.
    pub fn save_descriptor_bytes(&mut self) -> (r: Result<Vec<u8>, SaveError>)
        requires
            old(self).labels@.len() <= u32::MAX,
        ensures
            *final(self) == (Project { original_yaml: final(self).original_yaml, ..*old(self) }),
            ({
                let f = crate::descriptor::rewrite_names_of(
                    old(self).original_yaml@,
                    old(self).registry_names_view(),
                    old(self).labels@.len() as u64,
                );
                &&& (r is Ok <==> f is Ok)
                &&& (r is Ok ==> r->Ok_0@ == f->Ok_0 && final(self).original_yaml@ == f->Ok_0)
                &&& (r is Err ==> r->Err_0 is Descriptor && r->Err_0->Descriptor_0@ == f->Err_0
                    && final(self).original_yaml == old(self).original_yaml)
            }),
    {
        let names = self.descriptor_names();
        let nc: u64 = self.labels.len() as u64;
        proof {
            assert(crate::descriptor::names_pairs_view(names@) =~= self.registry_names_view());
        }
        match crate::descriptor::yaml_rewrite_names(self.original_yaml.as_slice(), &names, nc) {
            Ok(bytes) => {
                let kept: Vec<u8> = bytes.clone();
                proof {
                    assert(kept@ =~= bytes@) by {
                        assert(forall|t: int|
                            0 <= t < kept@.len() ==> vstd::pervasive::cloned::<u8>(
                                bytes@[t],
                                #[trigger] kept@[t],
                            ));
                    }
                }
                self.original_yaml = kept;
                Ok(bytes)
            },
            Err(msg) => Err(SaveError::Descriptor(msg)),
        }
    }
}

} // verus!
