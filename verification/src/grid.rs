use vstd::prelude::*;
use crate::tracks::{Track, TrackItemType};

verus! {

/// How a dragged item moves.
#[derive(Debug, Clone, Copy, PartialEq, Eq, Structural)]
pub enum DragMove {
    /// The item leaves its track for another one.
    AcrossTracks { source_track_id: usize, item_id: usize, target_track_id: usize },
    /// The item moves along its own track.
    WithinTrack { track_id: usize, item_id: usize },
}

/// What a drag step does: the move, and where the dragged item and the
/// target track are.
#[derive(Debug, Clone, Copy, PartialEq, Eq, Structural)]
pub struct DragPlan {
    pub movement: DragMove,
    pub source_track_idx: usize,
    pub item_idx: usize,
    pub target_track_idx: usize,
}

/// The move for an item of track `source_track_id` dropped on track
/// `target_track_id`: across tracks when they differ, else along the track.
pub open spec fn move_for(source_track_id: usize, item_id: usize, target_track_id: usize) -> DragMove {
    if target_track_id != source_track_id {
        DragMove::AcrossTracks { source_track_id, item_id, target_track_id }
    } else {
        DragMove::WithinTrack { track_id: source_track_id, item_id }
    }
}

/// The item at `i` is the first one with id `id` (and, when `kind` is given,
/// of that kind).
pub open spec fn is_first_dragged_item<M>(
    track: Track<M>,
    id: usize,
    kind: Option<TrackItemType>,
    i: int,
) -> bool {
    &&& 0 <= i < track.samples@.len()
    &&& item_matches(track.samples@[i], id, kind)
    &&& forall|j: int| 0 <= j < i ==> !item_matches(track.samples@[j], id, kind)
}

/// The item has id `id` and, when `kind` is given, that kind.
pub open spec fn item_matches<M>(item: crate::tracks::Sample<M>, id: usize, kind: Option<TrackItemType>) -> bool {
    item.id == id && match kind {
        Some(k) => item.item_type == k,
        None => true,
    }
}

/// `plan` is the drag step for dragging item `item_id` (of kind `kind`, when
/// given) of track `drag_track_id` over the track at `target_track_idx`; it
/// is `None` when no track has the source id or the track has no such item.
pub open spec fn is_drag_plan<M>(
    tracks: Seq<Track<M>>,
    target_track_idx: usize,
    drag_track_id: usize,
    item_id: usize,
    kind: Option<TrackItemType>,
    plan: Option<DragPlan>,
) -> bool {
    let target_track_id = tracks[target_track_idx as int].id;
    match crate::project::first_track_index(tracks, drag_track_id) {
        None => plan is None,
        Some(si) => if exists|i: int| is_first_dragged_item(tracks[si], item_id, kind, i) {
            plan matches Some(p) && {
                &&& p.source_track_idx == si
                &&& p.target_track_idx == target_track_idx
                &&& is_first_dragged_item(tracks[si], item_id, kind, p.item_idx as int)
                &&& p.movement == move_for(drag_track_id, item_id, target_track_id)
            }
        } else {
            plan is None
        },
    }
}

fn find_dragged_item<M>(track: &Track<M>, id: usize, kind: Option<TrackItemType>) -> (r: Option<
    usize,
>)
    ensures
        r matches Some(i) ==> is_first_dragged_item(*track, id, kind, i as int),
        r is None ==> !exists|i: int| is_first_dragged_item(*track, id, kind, i),
{
    let n = track.samples.len();
    let mut i: usize = 0;
    while i < n
        invariant
            n == track.samples@.len(),
            i <= n,
            forall|j: int| 0 <= j < i ==> !item_matches(track.samples@[j], id, kind),
        decreases n - i,
    {
        let item = &track.samples[i];
        let kind_ok = match kind {
            Some(k) => item.item_type == k,
            None => true,
        };
        if item.id == id && kind_ok {
            return Some(i);
        }
        i = i + 1;
    }
    None
}

fn find_track_position<M>(tracks: &Vec<Track<M>>, id: usize) -> (r: Option<usize>)
    ensures
        r matches Some(i) ==> crate::project::first_track_index(tracks@, id) == Some(i as int),
        r matches Some(i) ==> i < tracks@.len(),
        r is None ==> crate::project::first_track_index(tracks@, id) is None,
{
    proof {
        crate::project::lemma_first_track_index(tracks@, id);
    }
    let n = tracks.len();
    let mut i: usize = 0;
    while i < n
        invariant
            n == tracks@.len(),
            i <= n,
            forall|j: int| 0 <= j < i ==> tracks@[j].id != id,
        decreases n - i,
    {
        if tracks[i].id == id {
            assert(crate::project::is_first_track_with_id(tracks@, id, i as int));
            return Some(i);
        }
        i = i + 1;
    }
    None
}

fn plan_drag_step<M>(
    tracks: &Vec<Track<M>>,
    target_track_idx: usize,
    drag_track_id: usize,
    item_id: usize,
    kind: Option<TrackItemType>,
) -> (r: Option<DragPlan>)
    requires
        target_track_idx < tracks@.len(),
    ensures
        is_drag_plan(tracks@, target_track_idx, drag_track_id, item_id, kind, r),
{
    let target_track_id = tracks[target_track_idx].id;
    match find_track_position(tracks, drag_track_id) {
        None => None,
        Some(si) => match find_dragged_item(&tracks[si], item_id, kind) {
            None => None,
            Some(ii) => {
                assert(is_first_dragged_item(tracks@[si as int], item_id, kind, ii as int));
                let movement = if target_track_id != drag_track_id {
                    DragMove::AcrossTracks {
                        source_track_id: drag_track_id,
                        item_id,
                        target_track_id,
                    }
                } else {
                    DragMove::WithinTrack { track_id: drag_track_id, item_id }
                };
                Some(
                    DragPlan {
                        movement,
                        source_track_idx: si,
                        item_idx: ii,
                        target_track_idx,
                    },
                )
            },
        },
    }
}

/// Dragging of grid items (samples and groups).
pub struct GridItemHelper;

impl GridItemHelper {
    /// The drag step for the item `item_id` of kind `item_type` on track
    /// `drag_track_id` while the pointer is over the track at
    /// `target_track_idx`.
    pub fn process_active_drag<M>(
        tracks: &Vec<Track<M>>,
        target_track_idx: usize,
        drag_track_id: usize,
        drag_item_id: usize,
        item_type: TrackItemType,
    ) -> (r: Option<DragPlan>)
        requires
            target_track_idx < tracks@.len(),
        ensures
            is_drag_plan(
                tracks@,
                target_track_idx,
                drag_track_id,
                drag_item_id,
                Some(item_type),
                r,
            ),
    {
        plan_drag_step(tracks, target_track_idx, drag_track_id, drag_item_id, Some(item_type))
    }

    /// The move for an item dropped on a track: across tracks when the target
    /// differs from the source, else along the track.
    pub fn move_item(source_track_id: usize, item_id: usize, target_track_id: usize) -> (r:
        DragMove)
        ensures
            r == move_for(source_track_id, item_id, target_track_id),
    {
        if target_track_id != source_track_id {
            DragMove::AcrossTracks { source_track_id, item_id, target_track_id }
        } else {
            DragMove::WithinTrack { track_id: source_track_id, item_id }
        }
    }
}

/// Dragging of samples.
pub struct GridSampleHelper;

impl GridSampleHelper {
    /// The drag step for the sample `drag_sample_id` on track
    /// `drag_track_id` while the pointer is over the track at
    /// `target_track_idx`.
    pub fn process_active_drag<M>(
        tracks: &Vec<Track<M>>,
        target_track_idx: usize,
        drag_track_id: usize,
        drag_sample_id: usize,
    ) -> (r: Option<DragPlan>)
        requires
            target_track_idx < tracks@.len(),
        ensures
            is_drag_plan(tracks@, target_track_idx, drag_track_id, drag_sample_id, None, r),
    {
        plan_drag_step(tracks, target_track_idx, drag_track_id, drag_sample_id, None)
    }

    /// The move for a sample dropped on a track: across tracks when the target
    /// differs from the source, else along the track.
    pub fn move_sample(source_track_id: usize, sample_id: usize, target_track_id: usize) -> (r:
        DragMove)
        ensures
            r == move_for(source_track_id, sample_id, target_track_id),
    {
        GridItemHelper::move_item(source_track_id, sample_id, target_track_id)
    }
}

/// The track a file dropped over the row at `track_idx` goes to: that row's
/// track id, or none past the last track.
pub fn drop_target_track<M>(tracks: &Vec<Track<M>>, track_idx: usize) -> (r: Option<usize>)
    ensures
        track_idx < tracks@.len() ==> r == Some(tracks@[track_idx as int].id),
        track_idx >= tracks@.len() ==> r is None,
{
    if track_idx >= tracks.len() {
        None
    } else {
        Some(tracks[track_idx].id)
    }
}

} // verus!
