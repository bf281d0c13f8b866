use vstd::prelude::*;
use crate::tabs::{
    default_tabs, first_tab_index, group_tab_index, group_tab_label, group_tab_label_spec,
    has_group_tab, has_tab_id, is_first_group_tab, lemma_first_tab_index, new_tab_id,
    next_tab_id, tab_after, tab_before, tab_ids_bounded, tab_ids_unique, tab_index, Tab,
};
use crate::text::{concat_text, decimal, decimal_text};
use crate::tracks::{
    has_group_item, is_group_item, lemma_first_group_item, sample_ids_unique, without_group_item,
    has_sample_id, is_first_sample_with_id, next_sample_id, same_head, sample_ids_bounded, Sample,
    Track,
};

verus! {

/// The part of a project's state that the arrangement logic decides on: the
/// tracks and their items, the open tabs, the known groups and the transport
/// switches. Positions, tempo and zoom are kept beside it by the audio engine.
pub struct Project<M> {
    pub tracks: Vec<Track<M>>,
    pub is_playing: bool,
    pub loop_enabled: bool,
    pub project_name: String,
    pub file_path: Option<String>,
    pub tabs: Vec<Tab>,
    pub active_tab_id: usize,
    pub audio_boxes: Vec<String>,
    pub next_track_id: usize,
    pub modified: bool,
}

/// A mixer switch of a track.
#[derive(Debug, Clone, Copy, PartialEq, Eq, Structural)]
pub enum TrackSwitch {
    Mute,
    Solo,
    Record,
}

/// The default label of the track with the given number: `Track <n>`.
pub open spec fn track_label_spec(n: nat) -> Seq<char> {
    "Track "@ + decimal(n)
}

/// The default label of the track with the given number: `Track <n>`.
pub fn track_label(n: usize) -> (r: String)
    ensures
        r@ == track_label_spec(n as nat),
{
    let digits = decimal_text(n);
    concat_text("Track ", digits.as_str())
}

// ---------------------------------------------------------------------------
// Specifications over the tracks
// ---------------------------------------------------------------------------

/// The track at position `i` of a new project: id `i`, named
/// `Track <i + 1>`, all switches off, no items.
pub open spec fn is_initial_track<M>(t: Track<M>, i: int) -> bool {
    &&& t.id == i
    &&& t.name@ == track_label_spec((i + 1) as nat)
    &&& !t.muted
    &&& !t.soloed
    &&& !t.recording
    &&& t.samples@.len() == 0
}

/// `i` is the first position of a track with id `id`.
pub open spec fn is_first_track_with_id<M>(tracks: Seq<Track<M>>, id: usize, i: int) -> bool {
    &&& 0 <= i < tracks.len()
    &&& tracks[i].id == id
    &&& forall|j: int| 0 <= j < i ==> tracks[j].id != id
}

/// Some track has id `id`.
pub open spec fn has_track_id<M>(tracks: Seq<Track<M>>, id: usize) -> bool {
    exists|i: int| 0 <= i < tracks.len() && tracks[i].id == id
}

/// The first position of a track with id `id`, if any.
pub open spec fn first_track_index<M>(tracks: Seq<Track<M>>, id: usize) -> Option<int> {
    if has_track_id(tracks, id) {
        Some(choose|i: int| is_first_track_with_id(tracks, id, i))
    } else {
        None
    }
}

/// No two tracks share an id.
pub open spec fn track_ids_unique<M>(tracks: Seq<Track<M>>) -> bool {
    forall|i: int, j: int|
        0 <= i < tracks.len() && 0 <= j < tracks.len() && i != j ==> tracks[i].id != tracks[j].id
}

/// The first position with a given id exists when the id does, and is unique.
pub proof fn lemma_first_track_index<M>(tracks: Seq<Track<M>>, id: usize)
    ensures
        has_track_id(tracks, id) ==> first_track_index(tracks, id) is Some,
        first_track_index(tracks, id) matches Some(i) ==> is_first_track_with_id(tracks, id, i),
        first_track_index(tracks, id) is None <==> !has_track_id(tracks, id),
        forall|i: int|
            is_first_track_with_id(tracks, id, i) ==> first_track_index(tracks, id) == Some(i),
{
    if has_track_id(tracks, id) {
        let k = choose|k: int| 0 <= k < tracks.len() && tracks[k].id == id;
        let mut m = k;
        // find the smallest index with the id
        assert(exists|i: int| is_first_track_with_id(tracks, id, i)) by {
            lemma_first_exists(tracks, id, k);
        }
        let f = choose|i: int| is_first_track_with_id(tracks, id, i);
        assert forall|i: int| is_first_track_with_id(tracks, id, i) implies i == f by {
            if i < f {
                assert(tracks[i].id == id);
            } else if f < i {
                assert(tracks[f].id == id);
            }
        }
    }
}

proof fn lemma_first_exists<M>(tracks: Seq<Track<M>>, id: usize, k: int)
    requires
        0 <= k < tracks.len(),
        tracks[k].id == id,
    ensures
        exists|i: int| is_first_track_with_id(tracks, id, i),
    decreases k,
{
    if forall|j: int| 0 <= j < k ==> tracks[j].id != id {
        assert(is_first_track_with_id(tracks, id, k));
    } else {
        let j = choose|j: int| 0 <= j < k && tracks[j].id == id;
        lemma_first_exists(tracks, id, j);
    }
}

/// A track with one of its switches flipped.
pub open spec fn switch_flipped<M>(t: Track<M>, switch: TrackSwitch) -> Track<M> {
    match switch {
        TrackSwitch::Mute => Track { muted: !t.muted, ..t },
        TrackSwitch::Solo => Track { soloed: !t.soloed, ..t },
        TrackSwitch::Record => Track { recording: !t.recording, ..t },
    }
}

/// The tracks after flipping a switch of the first track with id `id`; they
/// are unchanged when no track has that id.
pub open spec fn tracks_with_switch_flipped<M>(
    tracks: Seq<Track<M>>,
    id: usize,
    switch: TrackSwitch,
) -> Seq<Track<M>> {
    match first_track_index(tracks, id) {
        Some(i) => tracks.update(i, switch_flipped(tracks[i], switch)),
        None => tracks,
    }
}

/// Flipping the same switch of the same track twice restores the tracks.
pub proof fn lemma_switch_flip_twice<M>(tracks: Seq<Track<M>>, id: usize, switch: TrackSwitch)
    ensures
        tracks_with_switch_flipped(tracks_with_switch_flipped(tracks, id, switch), id, switch)
            =~= tracks,
{
    lemma_first_track_index(tracks, id);
    let once = tracks_with_switch_flipped(tracks, id, switch);
    match first_track_index(tracks, id) {
        Some(i) => {
            assert(is_first_track_with_id(once, id, i));
            lemma_first_track_index(once, id);
            assert(first_track_index(once, id) == Some(i));
            assert(once.update(i, switch_flipped(once[i], switch)) =~= tracks);
        },
        None => {},
    }
}

/// Flipping a switch changes that switch of the first track with the id and
/// nothing else: every other track, and every other field, stays as it was.
pub proof fn lemma_switch_flip_is_local<M>(tracks: Seq<Track<M>>, id: usize, switch: TrackSwitch)
    ensures
        ({
            let after = tracks_with_switch_flipped(tracks, id, switch);
            &&& after.len() == tracks.len()
            &&& forall|j: int|
                0 <= j < tracks.len() && !is_first_track_with_id(tracks, id, j) ==> after[j]
                    == tracks[j]
            &&& forall|j: int|
                is_first_track_with_id(tracks, id, j) ==> {
                    &&& after[j].id == tracks[j].id
                    &&& after[j].name == tracks[j].name
                    &&& after[j].samples == tracks[j].samples
                    &&& after[j].muted == (tracks[j].muted != (switch == TrackSwitch::Mute))
                    &&& after[j].soloed == (tracks[j].soloed != (switch == TrackSwitch::Solo))
                    &&& after[j].recording == (tracks[j].recording != (switch
                        == TrackSwitch::Record))
                }
        }),
{
    lemma_first_track_index(tracks, id);
}

/// Some track is soloed.
pub open spec fn any_soloed<M>(tracks: Seq<Track<M>>) -> bool {
    exists|i: int| 0 <= i < tracks.len() && tracks[i].soloed
}

/// A track is heard when it is not muted and, while any track is soloed, it is
/// soloed itself.
pub open spec fn track_audible_spec<M>(t: Track<M>, any_track_soloed: bool) -> bool {
    !t.muted && (!any_track_soloed || t.soloed)
}

impl<M> Project<M> {
    /// The initial project: four empty tracks `Track 1` to `Track 4` with ids 0
    /// to 3, the main tab active, nothing playing, next track id 5.
    pub fn new() -> (r: Self)
        ensures
            r.tracks@.len() == 4,
            forall|i: int| 0 <= i < 4 ==> is_initial_track(#[trigger] r.tracks@[i], i),
            !r.is_playing,
            !r.loop_enabled,
            r.project_name@.len() == 0,
            r.file_path is None,
            r.tabs@.len() == 1,
            r.tabs@[0].id == 0,
            r.tabs@[0].name@ == "Main"@,
            !r.tabs@[0].is_group,
            r.tabs@[0].group_name is None,
            r.active_tab_id == 0,
            r.audio_boxes@.len() == 0,
            r.next_track_id == 5,
            !r.modified,
            project_well_formed(r),
    {
        let mut tracks: Vec<Track<M>> = Vec::new();
        let mut i: usize = 1;
        while i <= 4
            invariant
                1 <= i <= 5,
                tracks@.len() == i - 1,
                forall|k: int| 0 <= k < i - 1 ==> is_initial_track(#[trigger] tracks@[k], k),
            decreases 5 - i,
        {
            tracks.push(Track::new(i - 1, track_label(i)));
            i = i + 1;
        }
        assert(tracks@.len() == 4);
        let ghost ts = tracks@;
        let p = Project {
            tracks,
            is_playing: false,
            loop_enabled: false,
            project_name: String::new(),
            file_path: None,
            tabs: default_tabs(),
            active_tab_id: 0,
            audio_boxes: Vec::new(),
            next_track_id: 5,
            modified: false,
        };
        assert(p.tracks@ == ts);
        proof {
            lemma_new_project_well_formed(p);
        }
        p
    }

    /// The position of the first track with id `track_id`.
    pub fn track_index(&self, track_id: usize) -> (r: Option<usize>)
        ensures
            r matches Some(i) ==> first_track_index(self.tracks@, track_id) == Some(i as int),
            r matches Some(i) ==> is_first_track_with_id(self.tracks@, track_id, i as int),
            r is None ==> first_track_index(self.tracks@, track_id) is None,
            r is None <==> !has_track_id(self.tracks@, track_id),
    {
        proof {
            lemma_first_track_index(self.tracks@, track_id);
        }
        let n = self.tracks.len();
        let mut i: usize = 0;
        while i < n
            invariant
                n == self.tracks@.len(),
                i <= n,
                forall|j: int| 0 <= j < i ==> self.tracks@[j].id != track_id,
            decreases n - i,
        {
            if self.tracks[i].id == track_id {
                assert(is_first_track_with_id(self.tracks@, track_id, i as int));
                return Some(i);
            }
            i = i + 1;
        }
        None
    }

    /// Flip a switch of the first track with id `track_id`, if there is one.
    pub fn toggle_track_switch(&mut self, track_id: usize, switch: TrackSwitch)
        ensures
            final(self).tracks@ == tracks_with_switch_flipped(old(self).tracks@, track_id, switch),
            final(self).is_playing == old(self).is_playing,
            final(self).loop_enabled == old(self).loop_enabled,
            final(self).project_name == old(self).project_name,
            final(self).file_path == old(self).file_path,
            final(self).tabs == old(self).tabs,
            final(self).active_tab_id == old(self).active_tab_id,
            final(self).audio_boxes == old(self).audio_boxes,
            final(self).next_track_id == old(self).next_track_id,
            final(self).modified == old(self).modified,
            project_well_formed(*old(self)) ==> project_well_formed(*final(self)),
    {
        match self.track_index(track_id) {
            Some(i) => {
                let ghost before = self.tracks@;
                let mut t = self.tracks.remove(i);
                match switch {
                    TrackSwitch::Mute => {
                        t.muted = !t.muted;
                    },
                    TrackSwitch::Solo => {
                        t.soloed = !t.soloed;
                    },
                    TrackSwitch::Record => {
                        t.recording = !t.recording;
                    },
                }
                self.tracks.insert(i, t);
                assert(self.tracks@ =~= before.update(
                    i as int,
                    switch_flipped(before[i as int], switch),
                ));
                assert forall|j: int| 0 <= j < self.tracks@.len() implies self.tracks@[j].id
                    == before[j].id && self.tracks@[j].samples == before[j].samples by {}
            },
            None => {},
        }
    }

    /// Flip the mute switch of the track with id `track_id`.
    pub fn toggle_track_mute(&mut self, track_id: usize)
        ensures
            final(self).tracks@ == tracks_with_switch_flipped(
                old(self).tracks@,
                track_id,
                TrackSwitch::Mute,
            ),
            *final(self) == (Project { tracks: final(self).tracks, ..*old(self) }),
            project_well_formed(*old(self)) ==> project_well_formed(*final(self)),
    {
        self.toggle_track_switch(track_id, TrackSwitch::Mute)
    }

    /// Flip the solo switch of the track with id `track_id`.
    pub fn toggle_track_solo(&mut self, track_id: usize)
        ensures
            final(self).tracks@ == tracks_with_switch_flipped(
                old(self).tracks@,
                track_id,
                TrackSwitch::Solo,
            ),
            *final(self) == (Project { tracks: final(self).tracks, ..*old(self) }),
            project_well_formed(*old(self)) ==> project_well_formed(*final(self)),
    {
        self.toggle_track_switch(track_id, TrackSwitch::Solo)
    }

    /// Flip the record switch of the track with id `track_id`.
    pub fn toggle_track_record(&mut self, track_id: usize)
        ensures
            final(self).tracks@ == tracks_with_switch_flipped(
                old(self).tracks@,
                track_id,
                TrackSwitch::Record,
            ),
            *final(self) == (Project { tracks: final(self).tracks, ..*old(self) }),
            project_well_formed(*old(self)) ==> project_well_formed(*final(self)),
    {
        self.toggle_track_switch(track_id, TrackSwitch::Record)
    }

    /// The position of the first track with id `track_id`, found on the
    /// tracks alone.
    fn find_track(tracks: &Vec<Track<M>>, track_id: usize) -> (r: Option<usize>)
        ensures
            r matches Some(i) ==> first_track_index(tracks@, track_id) == Some(i as int),
            r matches Some(i) ==> is_first_track_with_id(tracks@, track_id, i as int),
            r is None ==> first_track_index(tracks@, track_id) is None,
            r is None <==> !has_track_id(tracks@, track_id),
    {
        proof {
            lemma_first_track_index(tracks@, track_id);
        }
        let n = tracks.len();
        let mut i: usize = 0;
        while i < n
            invariant
                n == tracks@.len(),
                i <= n,
                forall|j: int| 0 <= j < i ==> tracks@[j].id != track_id,
            decreases n - i,
        {
            if tracks[i].id == track_id {
                assert(is_first_track_with_id(tracks@, track_id, i as int));
                return Some(i);
            }
            i = i + 1;
        }
        None
    }

    /// Whether any track is soloed.
    pub fn any_track_soloed(&self) -> (r: bool)
        ensures
            r == any_soloed(self.tracks@),
    {
        let n = self.tracks.len();
        let mut i: usize = 0;
        while i < n
            invariant
                n == self.tracks@.len(),
                i <= n,
                forall|j: int| 0 <= j < i ==> !self.tracks@[j].soloed,
            decreases n - i,
        {
            if self.tracks[i].soloed {
                return true;
            }
            i = i + 1;
        }
        false
    }

    /// Whether the track at position `index` is heard during playback: it is
    /// not muted, and it is soloed whenever some track is.
    pub fn track_is_audible(&self, index: usize) -> (r: bool)
        requires
            index < self.tracks@.len(),
        ensures
            r == track_audible_spec(self.tracks@[index as int], any_soloed(self.tracks@)),
    {
        let any = self.any_track_soloed();
        let t = &self.tracks[index];
        !t.muted && (!any || t.soloed)
    }

    /// Add a new empty track with the next track id, named `Track <id>`, and
    /// mark the project modified. Returns the new track's id.
    pub fn create_track(&mut self) -> (r: usize)
        requires
            old(self).next_track_id < usize::MAX,
        ensures
            r == old(self).next_track_id,
            final(self).next_track_id == old(self).next_track_id + 1,
            final(self).modified,
            final(self).tracks@.len() == old(self).tracks@.len() + 1,
            final(self).tracks@.drop_last() == old(self).tracks@,
            final(self).tracks@.last().id == r,
            final(self).tracks@.last().name@ == track_label_spec(r as nat),
            !final(self).tracks@.last().muted,
            !final(self).tracks@.last().soloed,
            !final(self).tracks@.last().recording,
            final(self).tracks@.last().samples@.len() == 0,
            same_settings(*old(self), *final(self)),
            project_well_formed(*old(self)) ==> project_well_formed(*final(self)),
    {
        let new_id = self.next_track_id;
        self.next_track_id = self.next_track_id + 1;
        self.tracks.push(Track::new(new_id, track_label(new_id)));
        self.modified = true;
        assert(self.tracks@.drop_last() =~= old(self).tracks@);
        proof {
            let before = old(self).tracks@;
            let t = self.tracks@.last();
            assert(self.tracks@ =~= before.push(t));
            if project_well_formed(*old(self)) {
                lemma_create_track_keeps_ids_unique(before, old(self).next_track_id, t);
                assert forall|j: int| 0 <= j < self.tracks@.len() implies sample_ids_unique(
                    #[trigger] self.tracks@[j].samples@,
                ) && sample_ids_bounded(self.tracks@[j].samples@) by {
                    if j < before.len() {
                        assert(self.tracks@[j] == before[j]);
                    }
                }
            }
        }
        new_id
    }

    /// Remove the item with id `sample_id` from the first track with id
    /// `track_id`, handing it back; nothing changes when either is missing.
    pub fn delete_sample(&mut self, track_id: usize, sample_id: usize) -> (r: Option<Sample<M>>)
        ensures
            project_well_formed(*old(self)) ==> project_well_formed(*final(self)),
            same_settings(*old(self), *final(self)),
            final(self).next_track_id == old(self).next_track_id,
            final(self).modified == old(self).modified,
            first_track_index(old(self).tracks@, track_id) is None ==> r is None
                && final(self).tracks@ == old(self).tracks@,
            first_track_index(old(self).tracks@, track_id) matches Some(ti) ==> {
                let t = old(self).tracks@[ti];
                &&& (r is None <==> !has_sample_id(t.samples@, sample_id))
                &&& r is None ==> final(self).tracks@ == old(self).tracks@
                &&& r matches Some(s) ==> item_removed_at(
                    old(self).tracks@,
                    final(self).tracks@,
                    ti,
                    sample_id,
                    s,
                )
            },
    {
        match Self::find_track(&self.tracks, track_id) {
            Some(ti) => {
                let ghost before = self.tracks@;
                let mut t = self.tracks.remove(ti);
                let ghost t0 = t;
                assert(t0 == before[ti as int]);
                let r = t.remove_sample(sample_id);
                match r {
                    Some(_) => {
                        self.tracks.insert(ti, t);
                        assert(self.tracks@[ti as int] == t);
                        assert(tracks_agree_except(before, self.tracks@, ti as int, ti as int));
                        proof {
                            let si = choose|si: int|
                                is_first_sample_with_id(t0.samples@, sample_id, si) && r->0
                                    == t0.samples@[si] && t.samples@ == t0.samples@.remove(si);
                            assert(is_first_sample_with_id(t0.samples@, sample_id, si));
                            assert(same_head(t0, self.tracks@[ti as int]));
                            assert(item_removed_at_index(
                                before,
                                self.tracks@,
                                ti as int,
                                sample_id,
                                r->0,
                                si,
                            ));
                            if project_well_formed(*old(self)) {
                                crate::tracks::lemma_remove_keeps_ids(t0.samples@, si);
                                lemma_replace_items_keeps_ids(
                                    before,
                                    self.tracks@,
                                    ti as int,
                                    self.next_track_id,
                                );
                            }
                        }
                        r
                    },
                    None => {
                        self.tracks.insert(ti, t);
                        assert(self.tracks@ =~= before);
                        r
                    },
                }
            },
            None => None,
        }
    }

    /// Add an item to the first track with id `track_id`, giving it the next
    /// item id of that track; returns that id, or `None` (dropping the item)
    /// when no track has the id.
    pub fn add_sample_to_track(&mut self, track_id: usize, sample: Sample<M>) -> (r: Option<usize>)
        requires
            all_sample_ids_bounded(old(self).tracks@),
        ensures
            project_well_formed(*old(self)) && (r matches Some(id) ==> id < usize::MAX)
                ==> project_well_formed(*final(self)),
            same_settings(*old(self), *final(self)),
            final(self).next_track_id == old(self).next_track_id,
            final(self).modified == old(self).modified,
            first_track_index(old(self).tracks@, track_id) is None ==> r is None
                && final(self).tracks@ == old(self).tracks@,
            first_track_index(old(self).tracks@, track_id) matches Some(ti) ==> {
                let t = old(self).tracks@[ti];
                &&& r == Some(next_sample_id(t.samples@) as usize)
                &&& tracks_agree_except(old(self).tracks@, final(self).tracks@, ti, ti)
                &&& same_head(t, final(self).tracks@[ti])
                &&& final(self).tracks@[ti].samples@ == t.samples@.push(
                    Sample { id: next_sample_id(t.samples@) as usize, ..sample },
                )
            },
    {
        match Self::find_track(&self.tracks, track_id) {
            Some(ti) => {
                let ghost before = self.tracks@;
                let mut t = self.tracks.remove(ti);
                assert(t == before[ti as int]);
                let id = t.next_sample_id();
                let ghost added = self.tracks@;
                t.add_sample(sample);
                self.tracks.insert(ti, t);
                assert(tracks_agree_except(before, self.tracks@, ti as int, ti as int));
                proof {
                    if project_well_formed(*old(self)) && id < usize::MAX {
                        let s0 = before[ti as int].samples@;
                        crate::tracks::lemma_add_sample_keeps_ids_unique(s0, sample);
                        assert(self.tracks@[ti as int] == t);
                        assert forall|k: int| 0 <= k < t.samples@.len() implies t.samples@[k].id
                            < usize::MAX by {
                            if k < s0.len() {
                                assert(t.samples@[k] == s0[k]);
                            }
                        }
                        lemma_replace_items_keeps_ids(
                            before,
                            self.tracks@,
                            ti as int,
                            self.next_track_id,
                        );
                    }
                }
                Some(id)
            },
            None => None,
        }
    }
}

/// Every item id of every track is below `usize::MAX`.
pub open spec fn all_sample_ids_bounded<M>(tracks: Seq<Track<M>>) -> bool {
    forall|i: int| 0 <= i < tracks.len() ==> sample_ids_bounded(#[trigger] tracks[i].samples@)
}

/// The track at `ti` lost its item at `si`, the first with id `sample_id`,
/// which is `s`; every other track is unchanged.
pub open spec fn item_removed_at_index<M>(
    before: Seq<Track<M>>,
    after: Seq<Track<M>>,
    ti: int,
    sample_id: usize,
    s: Sample<M>,
    si: int,
) -> bool {
    let t = before[ti];
    &&& is_first_sample_with_id(t.samples@, sample_id, si)
    &&& s == t.samples@[si]
    &&& tracks_agree_except(before, after, ti, ti)
    &&& same_head(t, after[ti])
    &&& after[ti].samples@ == t.samples@.remove(si)
}

/// The track at `ti` lost its first item with id `sample_id`, which is `s`;
/// every other track is unchanged.
pub open spec fn item_removed_at<M>(
    before: Seq<Track<M>>,
    after: Seq<Track<M>>,
    ti: int,
    sample_id: usize,
    s: Sample<M>,
) -> bool {
    exists|si: int| item_removed_at_index(before, after, ti, sample_id, s, si)
}


/// Two track lists have the same length and agree at every position but `p`
/// and `q`.
pub open spec fn tracks_agree_except<M>(a: Seq<Track<M>>, b: Seq<Track<M>>, p: int, q: int) -> bool {
    &&& a.len() == b.len()
    &&& forall|j: int| 0 <= j < a.len() && j != p && j != q ==> a[j] == b[j]
}

/// Two projects agree on everything but the tracks, the next track id and the
/// modified mark.
pub open spec fn same_settings<M>(a: Project<M>, b: Project<M>) -> bool {
    &&& a.is_playing == b.is_playing
    &&& a.loop_enabled == b.loop_enabled
    &&& a.project_name == b.project_name
    &&& a.file_path == b.file_path
    &&& a.tabs == b.tabs
    &&& a.active_tab_id == b.active_tab_id
    &&& a.audio_boxes == b.audio_boxes
}

/// Every track id is below `next`.
pub open spec fn track_ids_below<M>(tracks: Seq<Track<M>>, next: usize) -> bool {
    forall|i: int| 0 <= i < tracks.len() ==> tracks[i].id < next
}

/// A new track that takes the next track id keeps the track ids distinct and
/// below the advanced next id.
pub proof fn lemma_create_track_keeps_ids_unique<M>(
    tracks: Seq<Track<M>>,
    next: usize,
    t: Track<M>,
)
    requires
        track_ids_unique(tracks),
        track_ids_below(tracks, next),
        t.id == next,
        next < usize::MAX,
    ensures
        track_ids_unique(tracks.push(t)),
        track_ids_below(tracks.push(t), (next + 1) as usize),
{
}

/// What became of an item moved between tracks.
pub enum TrackMove<M> {
    /// The item now ends the items of the track at this position.
    Moved(usize),
    /// The source track or the item was not found; nothing changed.
    NotFound,
    /// The item left its track but no track has the target id; it is handed
    /// back here.
    NoTarget(Sample<M>),
}

impl<M> Project<M> {
    /// Take the first item with id `sample_id` off the first track with id
    /// `source_track_id` and append it, id unchanged, to the first track with
    /// id `target_track_id`.
    pub fn move_sample_between_tracks(
        &mut self,
        source_track_id: usize,
        sample_id: usize,
        target_track_id: usize,
    ) -> (r: TrackMove<M>)
        ensures
            same_settings(*old(self), *final(self)),
            final(self).next_track_id == old(self).next_track_id,
            final(self).modified == old(self).modified,
            final(self).tracks@.len() == old(self).tracks@.len(),
            ({
                let olds = old(self).tracks@;
                match first_track_index(olds, source_track_id) {
                    None => r is NotFound && final(self).tracks@ == olds,
                    Some(ti) => {
                        let src = olds[ti].samples@;
                        if !has_sample_id(src, sample_id) {
                            r is NotFound && final(self).tracks@ == olds
                        } else {
                            exists|si: int|
                                {
                                    &&& is_first_sample_with_id(src, sample_id, si)
                                    &&& same_head(olds[ti], final(self).tracks@[ti])
                                    &&& match first_track_index(olds, target_track_id) {
                                        None => {
                                            &&& r matches TrackMove::NoTarget(s) && s == src[si]
                                            &&& tracks_agree_except(olds, final(self).tracks@, ti, ti)
                                            &&& final(self).tracks@[ti].samples@ == src.remove(si)
                                        },
                                        Some(tk) => {
                                            &&& r matches TrackMove::Moved(k) && k == tk
                                            &&& tracks_agree_except(olds, final(self).tracks@, ti, tk)
                                            &&& same_head(olds[tk], final(self).tracks@[tk])
                                            &&& if ti == tk {
                                                final(self).tracks@[tk].samples@ == src.remove(
                                                    si,
                                                ).push(src[si])
                                            } else {
                                                &&& final(self).tracks@[ti].samples@ == src.remove(
                                                    si,
                                                )
                                                &&& final(self).tracks@[tk].samples@
                                                    == olds[tk].samples@.push(src[si])
                                            }
                                        },
                                    }
                                }
                        }
                    },
                }
            }),
    {
        let ghost olds = self.tracks@;
        let ti = match Self::find_track(&self.tracks, source_track_id) {
            Some(ti) => ti,
            None => {
                return TrackMove::NotFound;
            },
        };
        let mut t = self.tracks.remove(ti);
        let ghost t0 = t;
        assert(t0 == olds[ti as int]);
        let moved = t.remove_sample(sample_id);
        self.tracks.insert(ti, t);
        let ghost mid = self.tracks@;
        assert(mid[ti as int] == t);
        assert(tracks_agree_except(olds, mid, ti as int, ti as int));
        let sample = match moved {
            Some(s) => s,
            None => {
                assert(mid =~= olds);
                return TrackMove::NotFound;
            },
        };
        let ghost si = choose|si: int|
            is_first_sample_with_id(t0.samples@, sample_id, si) && sample == t0.samples@[si]
                && t.samples@ == t0.samples@.remove(si);
        assert(is_first_sample_with_id(t0.samples@, sample_id, si));
        proof {
            // ids are untouched, so the target is found at the same place
            assert forall|j: int| 0 <= j < mid.len() implies mid[j].id == olds[j].id by {}
            lemma_first_track_index(olds, target_track_id);
            lemma_first_track_index(mid, target_track_id);
            if has_track_id(olds, target_track_id) {
                let k = first_track_index(olds, target_track_id)->0;
                assert(is_first_track_with_id(mid, target_track_id, k));
            } else {
                assert forall|j: int| 0 <= j < mid.len() implies mid[j].id != target_track_id by {
                    assert(olds[j].id == mid[j].id);
                }
            }
        }
        match Self::find_track(&self.tracks, target_track_id) {
            Some(tk) => {
                let mut target = self.tracks.remove(tk);
                let ghost g0 = target;
                assert(g0 == mid[tk as int]);
                target.samples.push(sample);
                self.tracks.insert(tk, target);
                assert(self.tracks@[tk as int] == target);
                assert(tracks_agree_except(olds, self.tracks@, ti as int, tk as int));
                assert(same_head(olds[ti as int], self.tracks@[ti as int]));
                TrackMove::Moved(tk)
            },
            None => {
                assert(same_head(olds[ti as int], self.tracks@[ti as int]));
                TrackMove::NoTarget(sample)
            },
        }
    }
}

/// Two projects agree on the tracks, the groups and the project fields; only
/// the tabs, the active tab and the play switch may differ.
pub open spec fn same_content<M>(a: Project<M>, b: Project<M>) -> bool {
    &&& a.tracks == b.tracks
    &&& a.loop_enabled == b.loop_enabled
    &&& a.project_name == b.project_name
    &&& a.file_path == b.file_path
    &&& a.audio_boxes == b.audio_boxes
    &&& a.next_track_id == b.next_track_id
    &&& a.modified == b.modified
}

/// Switching from the active tab to the tab with id `tab_id` stops playback:
/// the target exists, the active tab exists, they differ in kind (group editor
/// or project), and playback is on.
pub open spec fn switch_stops_playback(
    tabs: Seq<Tab>,
    active: usize,
    is_playing: bool,
    tab_id: usize,
) -> bool {
    match first_tab_index(tabs, tab_id) {
        Some(k) => match first_tab_index(tabs, active) {
            Some(c) => is_playing && tabs[c].is_group != tabs[k].is_group,
            None => false,
        },
        None => false,
    }
}

/// The active tab after closing the tab with id `tab_id` from `tabs`, which
/// leaves `rest`.
pub open spec fn active_after_close(rest: Seq<Tab>, active: usize, tab_id: usize) -> usize {
    if active == tab_id && rest.len() > 0 {
        rest[0].id
    } else {
        active
    }
}

impl<M> Project<M> {
    /// Stop playback; returns whether it was on.
    pub fn stop_playback(&mut self) -> (r: bool)
        ensures
            project_well_formed(*old(self)) ==> project_well_formed(*final(self)),
            r == old(self).is_playing,
            !final(self).is_playing,
            same_content(*old(self), *final(self)),
            final(self).tabs == old(self).tabs,
            final(self).active_tab_id == old(self).active_tab_id,
    {
        if self.is_playing {
            self.is_playing = false;
            true
        } else {
            false
        }
    }

    /// Make the tab with id `tab_id` active, stopping playback when it is of
    /// another kind than the active tab. Returns whether playback was stopped.
    pub fn switch_to_tab(&mut self, tab_id: usize) -> (r: bool)
        ensures
            project_well_formed(*old(self)) ==> project_well_formed(*final(self)),
            same_content(*old(self), *final(self)),
            final(self).tabs == old(self).tabs,
            r == switch_stops_playback(
                old(self).tabs@,
                old(self).active_tab_id,
                old(self).is_playing,
                tab_id,
            ),
            final(self).is_playing == (old(self).is_playing && !r),
            final(self).active_tab_id == if has_tab_id(old(self).tabs@, tab_id) {
                tab_id
            } else {
                old(self).active_tab_id
            },
            tab_ids_unique(old(self).tabs@) ==> forall|c: int, k: int|
                0 <= c < old(self).tabs@.len() && 0 <= k < old(self).tabs@.len()
                    && #[trigger] old(self).tabs@[c].id == old(self).active_tab_id
                    && #[trigger] old(self).tabs@[k].id == tab_id ==> {
                    &&& r == (old(self).is_playing && old(self).tabs@[c].is_group
                        != old(self).tabs@[k].is_group)
                    &&& final(self).is_playing == (old(self).is_playing
                        && old(self).tabs@[c].is_group == old(self).tabs@[k].is_group)
                },
    {
        proof {
            lemma_first_tab_index(self.tabs@, tab_id);
            lemma_first_tab_index(self.tabs@, self.active_tab_id);
            let old_tabs = self.tabs@;
            let act = self.active_tab_id;
            let playing = self.is_playing;
            if tab_ids_unique(old_tabs) {
                assert forall|c: int, k: int|
                    0 <= c < old_tabs.len() && 0 <= k < old_tabs.len()
                        && #[trigger] old_tabs[c].id == act && #[trigger] old_tabs[k].id
                        == tab_id implies switch_stops_playback(old_tabs, act, playing, tab_id)
                    == (playing && old_tabs[c].is_group != old_tabs[k].is_group) by {
                    lemma_switch_between_kinds(old_tabs, act, playing, tab_id, c, k);
                }
            }
        }
        match tab_index(&self.tabs, tab_id) {
            Some(k) => {
                let target_is_group = self.tabs[k].is_group;
                let switching_kinds = match tab_index(&self.tabs, self.active_tab_id) {
                    Some(c) => self.tabs[c].is_group != target_is_group,
                    None => false,
                };
                let mut stopped = false;
                if switching_kinds && self.is_playing {
                    self.is_playing = false;
                    stopped = true;
                }
                self.active_tab_id = tab_id;
                stopped
            },
            None => false,
        }
    }

    /// Close the tab with id `tab_id`, stopping playback; when it was the
    /// active tab the first remaining tab becomes active. Returns whether
    /// playback was stopped.
    pub fn close_tab(&mut self, tab_id: usize) -> (r: bool)
        ensures
            project_well_formed(*old(self)) ==> project_well_formed(*final(self)),
            same_content(*old(self), *final(self)),
            !has_tab_id(old(self).tabs@, tab_id) ==> !r && *final(self) == *old(self),
            first_tab_index(old(self).tabs@, tab_id) matches Some(k) ==> {
                &&& r == old(self).is_playing
                &&& !final(self).is_playing
                &&& final(self).tabs@ == old(self).tabs@.remove(k)
                &&& final(self).active_tab_id == active_after_close(
                    old(self).tabs@.remove(k),
                    old(self).active_tab_id,
                    tab_id,
                )
            },
            tab_id != old(self).active_tab_id ==> final(self).active_tab_id
                == old(self).active_tab_id,
            has_tab_id(old(self).tabs@, tab_id) && tab_id == old(self).active_tab_id
                && final(self).tabs@.len() > 0 ==> final(self).active_tab_id
                == final(self).tabs@[0].id,
            final(self).tabs@.len() == 0 ==> final(self).active_tab_id == old(self).active_tab_id,
    {
        proof {
            lemma_first_tab_index(self.tabs@, tab_id);
            if has_tab_id(self.tabs@, tab_id) {
                let k = first_tab_index(self.tabs@, tab_id)->0;
                lemma_active_after_close(self.tabs@.remove(k), self.active_tab_id, tab_id);
            }
        }
        match tab_index(&self.tabs, tab_id) {
            Some(k) => {
                let stopped = self.stop_playback();
                self.tabs.remove(k);
                if self.active_tab_id == tab_id {
                    if self.tabs.len() > 0 {
                        self.active_tab_id = self.tabs[0].id;
                    }
                }
                stopped
            },
            None => false,
        }
    }

    /// Switch to the tab before the active one, wrapping to the last tab.
    /// Returns whether playback was stopped.
    pub fn switch_to_previous_tab(&mut self) -> (r: bool)
        ensures
            project_well_formed(*old(self)) ==> project_well_formed(*final(self)),
            same_content(*old(self), *final(self)),
            final(self).tabs == old(self).tabs,
            tab_before(old(self).tabs@, old(self).active_tab_id) is None ==> !r && *final(self)
                == *old(self),
            tab_before(old(self).tabs@, old(self).active_tab_id) matches Some(t) ==> {
                &&& final(self).active_tab_id == t
                &&& r == switch_stops_playback(
                    old(self).tabs@,
                    old(self).active_tab_id,
                    old(self).is_playing,
                    t,
                )
                &&& final(self).is_playing == (old(self).is_playing && !r)
            },
    {
        if self.tabs.len() == 0 {
            proof {
                lemma_first_tab_index(self.tabs@, self.active_tab_id);
            }
            return false;
        }
        proof {
            lemma_first_tab_index(self.tabs@, self.active_tab_id);
        }
        match tab_index(&self.tabs, self.active_tab_id) {
            Some(i) => {
                let prev = if i == 0 {
                    self.tabs.len() - 1
                } else {
                    i - 1
                };
                let id = self.tabs[prev].id;
                proof {
                    lemma_first_tab_index(self.tabs@, id);
                    assert(self.tabs@[prev as int].id == id);
                }
                self.switch_to_tab(id)
            },
            None => false,
        }
    }

    /// Switch to the tab after the active one, wrapping to the first tab.
    /// Returns whether playback was stopped.
    pub fn switch_to_next_tab(&mut self) -> (r: bool)
        ensures
            project_well_formed(*old(self)) ==> project_well_formed(*final(self)),
            same_content(*old(self), *final(self)),
            final(self).tabs == old(self).tabs,
            tab_after(old(self).tabs@, old(self).active_tab_id) is None ==> !r && *final(self)
                == *old(self),
            tab_after(old(self).tabs@, old(self).active_tab_id) matches Some(t) ==> {
                &&& final(self).active_tab_id == t
                &&& r == switch_stops_playback(
                    old(self).tabs@,
                    old(self).active_tab_id,
                    old(self).is_playing,
                    t,
                )
                &&& final(self).is_playing == (old(self).is_playing && !r)
            },
    {
        if self.tabs.len() == 0 {
            proof {
                lemma_first_tab_index(self.tabs@, self.active_tab_id);
            }
            return false;
        }
        proof {
            lemma_first_tab_index(self.tabs@, self.active_tab_id);
        }
        match tab_index(&self.tabs, self.active_tab_id) {
            Some(i) => {
                let next = (i + 1) % self.tabs.len();
                let id = self.tabs[next].id;
                proof {
                    lemma_first_tab_index(self.tabs@, id);
                    assert(self.tabs@[next as int].id == id);
                }
                self.switch_to_tab(id)
            },
            None => false,
        }
    }
}

/// Closing a tab keeps the active tab among the tabs: when the active tab was
/// open, tab ids are distinct and some tab remains, the active id after the
/// close is the id of a remaining tab.
pub proof fn lemma_close_tab_keeps_active_open(tabs: Seq<Tab>, active: usize, tab_id: usize)
    requires
        tab_ids_unique(tabs),
        has_tab_id(tabs, active),
        has_tab_id(tabs, tab_id),
        tabs.len() > 1,
    ensures
        ({
            let k = first_tab_index(tabs, tab_id)->0;
            let rest = tabs.remove(k);
            has_tab_id(rest, active_after_close(rest, active, tab_id))
        }),
{
    lemma_first_tab_index(tabs, tab_id);
    lemma_first_tab_index(tabs, active);
    let k = first_tab_index(tabs, tab_id)->0;
    let rest = tabs.remove(k);
    if active == tab_id {
        assert(rest[0].id == rest[0].id);
    } else {
        let a = first_tab_index(tabs, active)->0;
        if a < k {
            assert(rest[a].id == active);
        } else {
            assert(a != k);
            assert(rest[a - 1].id == active);
        }
    }
}

/// Switching tabs stops playback exactly when playback is on and the two tabs
/// are of different kinds: from a group editor to a project tab or from a
/// project tab to a group editor, alike. With distinct tab ids, for the active
/// tab at `c` and the target at `k`.
pub proof fn lemma_switch_between_kinds(
    tabs: Seq<Tab>,
    active: usize,
    is_playing: bool,
    tab_id: usize,
    c: int,
    k: int,
)
    requires
        tab_ids_unique(tabs),
        0 <= c < tabs.len(),
        0 <= k < tabs.len(),
        tabs[c].id == active,
        tabs[k].id == tab_id,
    ensures
        switch_stops_playback(tabs, active, is_playing, tab_id) == (is_playing
            && tabs[c].is_group != tabs[k].is_group),
        tabs[c].is_group != tabs[k].is_group && is_playing ==> switch_stops_playback(
            tabs,
            active,
            is_playing,
            tab_id,
        ),
        tabs[c].is_group == tabs[k].is_group ==> !switch_stops_playback(
            tabs,
            active,
            is_playing,
            tab_id,
        ),
        !is_playing ==> !switch_stops_playback(tabs, active, is_playing, tab_id),
{
    lemma_first_tab_index(tabs, active);
    lemma_first_tab_index(tabs, tab_id);
}

/// Closing a tab moves the focus only when the closed tab was the active one,
/// and then to the first remaining tab; with no tab left the active id stays.
pub proof fn lemma_active_after_close(rest: Seq<Tab>, active: usize, tab_id: usize)
    ensures
        tab_id != active ==> active_after_close(rest, active, tab_id) == active,
        tab_id == active && rest.len() > 0 ==> active_after_close(rest, active, tab_id)
            == rest[0].id,
        rest.len() == 0 ==> active_after_close(rest, active, tab_id) == active,
{
}

// ---------------------------------------------------------------------------
// Groups
// ---------------------------------------------------------------------------

/// `i` is the first position of `name` in `list`.
pub open spec fn is_first_text(list: Seq<String>, name: Seq<char>, i: int) -> bool {
    &&& 0 <= i < list.len()
    &&& list[i]@ == name
    &&& forall|j: int| 0 <= j < i ==> list[j]@ != name
}

/// `name` occurs in `list`.
pub open spec fn has_text(list: Seq<String>, name: Seq<char>) -> bool {
    exists|i: int| 0 <= i < list.len() && list[i]@ == name
}

/// The position of the first occurrence of `name` in `list`.
pub fn text_index(list: &Vec<String>, name: &String) -> (r: Option<usize>)
    ensures
        r matches Some(i) ==> is_first_text(list@, name@, i as int),
        r is None <==> !has_text(list@, name@),
{
    let n = list.len();
    let mut i: usize = 0;
    while i < n
        invariant
            n == list@.len(),
            i <= n,
            forall|j: int| 0 <= j < i ==> list@[j]@ != name@,
        decreases n - i,
    {
        if list[i] == *name {
            return Some(i);
        }
        i = i + 1;
    }
    None
}

/// The tabs after renaming the group `old_name` to `new_name`: every editor
/// tab of the old group is relabelled and now edits the new group.
pub open spec fn tab_renamed(before: Tab, after: Tab, old_name: Seq<char>, new_name: Seq<char>) -> bool {
    if crate::tabs::is_tab_of_group(before, old_name) {
        &&& after.id == before.id
        &&& after.is_group
        &&& after.name@ == group_tab_label_spec(new_name)
        &&& after.group_name matches Some(g) && g@ == new_name
    } else {
        after == before
    }
}

/// Renaming a group relabels exactly the editor tabs of the old group: such a
/// tab keeps its id, still edits a group, now the new one, and is labelled
/// `Box: <new name>`; every other tab, project tabs and editors of other
/// groups, is left as it was.
pub proof fn lemma_tab_renamed(before: Tab, after: Tab, old_name: Seq<char>, new_name: Seq<char>)
    requires
        tab_renamed(before, after, old_name, new_name),
    ensures
        !(before.is_group && (before.group_name matches Some(g) && g@ == old_name)) ==> after
            == before,
        before.is_group && (before.group_name matches Some(g) && g@ == old_name) ==> {
            &&& after.id == before.id
            &&& after.is_group
            &&& after.group_name matches Some(g) && g@ == new_name
            &&& after.name@ == "Box: "@ + new_name
        },
{
}

/// Where a group item was put by `place_group_on_track`.
pub enum GroupPlacement {
    /// The group already sits on the target track; nothing changed.
    AlreadyOnTrack,
    /// The group item was added to the target track under this item id.
    Placed(usize),
    /// No track has the target id.
    NoTrack,
}

/// `(ti, si)` is the first group item named `group` when the tracks are
/// scanned in order: `ti` is the first track holding such an item and `si`
/// its first such item.
pub open spec fn is_first_group_location<M>(
    tracks: Seq<Track<M>>,
    group: Seq<char>,
    ti: int,
    si: int,
) -> bool {
    &&& 0 <= ti < tracks.len()
    &&& crate::tracks::is_first_group_item(tracks[ti].samples@, group, si)
    &&& forall|j: int| 0 <= j < ti ==> !crate::tracks::has_group_item(tracks[j].samples@, group)
}

/// Some track holds a group item named `group`.
pub open spec fn group_on_some_track<M>(tracks: Seq<Track<M>>, group: Seq<char>) -> bool {
    exists|j: int| 0 <= j < tracks.len() && crate::tracks::has_group_item(tracks[j].samples@, group)
}

/// The item a group is shown by on a track: the media, named after the group,
/// of the group kind, stopped and without files.
pub open spec fn is_group_marker<M>(item: Sample<M>, group: Seq<char>, media: M) -> bool {
    &&& item.name@ == group
    &&& item.item_type == crate::tracks::TrackItemType::Group
    &&& item.audio_file is None
    &&& item.waveform_file is None
    &&& !item.is_playing
    &&& item.media == media
}

/// Whether an item plays while the tab `active` is shown: in a group editor
/// only that group's items play, elsewhere only plain samples do.
pub open spec fn plays_in_tab<M>(tabs: Seq<Tab>, active: usize, item: Sample<M>) -> bool {
    match first_tab_index(tabs, active) {
        Some(i) => if tabs[i].is_group {
            item.item_type == crate::tracks::TrackItemType::Group && item.name@ == match tabs[i].group_name {
                Some(g) => g@,
                None => Seq::<char>::empty(),
            }
        } else {
            item.item_type == crate::tracks::TrackItemType::Sample
        },
        None => item.item_type == crate::tracks::TrackItemType::Sample,
    }
}

impl<M> Project<M> {
    /// Record a group name among the project's groups unless it is there.
    pub fn register_group(&mut self, name: &String)
        ensures
            project_well_formed(*old(self)) ==> project_well_formed(*final(self)),
            final(self).tracks == old(self).tracks,
            final(self).tabs == old(self).tabs,
            final(self).active_tab_id == old(self).active_tab_id,
            final(self).is_playing == old(self).is_playing,
            *final(self) == (Project { audio_boxes: final(self).audio_boxes, ..*old(self) }),
            has_text(old(self).audio_boxes@, name@) ==> final(self).audio_boxes == old(
                self,
            ).audio_boxes,
            !has_text(old(self).audio_boxes@, name@) ==> final(self).audio_boxes@ == old(
                self,
            ).audio_boxes@.push(*name),
    {
        match text_index(&self.audio_boxes, name) {
            Some(_) => {},
            None => {
                self.audio_boxes.push(name.clone());
            },
        }
    }

    /// After a group's folder was renamed: replace the old name among the
    /// project's groups (or add the new one), and relabel the editor tabs of
    /// the group.
    pub fn rename_group(&mut self, old_name: &String, new_name: &String)
        ensures
            project_well_formed(*old(self)) ==> project_well_formed(*final(self)),
            final(self).tracks == old(self).tracks,
            final(self).active_tab_id == old(self).active_tab_id,
            final(self).is_playing == old(self).is_playing,
            final(self).next_track_id == old(self).next_track_id,
            *final(self) == (Project {
                audio_boxes: final(self).audio_boxes,
                tabs: final(self).tabs,
                ..*old(self)
            }),
            first_text_index(old(self).audio_boxes@, old_name@) matches Some(i)
                ==> final(self).audio_boxes@ == old(self).audio_boxes@.update(i, *new_name),
            first_text_index(old(self).audio_boxes@, old_name@) is None
                ==> final(self).audio_boxes@ == old(self).audio_boxes@.push(*new_name),
            final(self).tabs@.len() == old(self).tabs@.len(),
            forall|j: int|
                0 <= j < old(self).tabs@.len() ==> tab_renamed(
                    old(self).tabs@[j],
                    #[trigger] final(self).tabs@[j],
                    old_name@,
                    new_name@,
                ),
            forall|j: int|
                0 <= j < old(self).tabs@.len() && !(old(self).tabs@[j].is_group
                    && (old(self).tabs@[j].group_name matches Some(g) && g@ == old_name@))
                    ==> #[trigger] final(self).tabs@[j] == old(self).tabs@[j],
            forall|j: int|
                0 <= j < old(self).tabs@.len() && old(self).tabs@[j].is_group
                    && (old(self).tabs@[j].group_name matches Some(g) && g@ == old_name@) ==> {
                    &&& (#[trigger] final(self).tabs@[j]).id == old(self).tabs@[j].id
                    &&& final(self).tabs@[j].is_group
                    &&& final(self).tabs@[j].group_name matches Some(g) && g@ == new_name@
                    &&& final(self).tabs@[j].name@ == "Box: "@ + new_name@
                },
    {
        proof {
            lemma_first_text_index(self.audio_boxes@, old_name@);
        }
        match text_index(&self.audio_boxes, old_name) {
            Some(i) => {
                self.audio_boxes.set(i, new_name.clone());
            },
            None => {
                self.audio_boxes.push(new_name.clone());
            },
        }
        let n = self.tabs.len();
        let mut tabs: Vec<Tab> = Vec::new();
        let mut i: usize = 0;
        while i < n
            invariant
                n == self.tabs@.len(),
                i <= n,
                tabs@.len() == i,
                self.tabs == old(self).tabs,
                *self == (Project { audio_boxes: self.audio_boxes, ..*old(self) }),
                forall|j: int|
                    0 <= j < i ==> tab_renamed(
                        self.tabs@[j],
                        #[trigger] tabs@[j],
                        old_name@,
                        new_name@,
                    ),
            decreases n - i,
        {
            let t = &self.tabs[i];
            let relabel = t.is_group && match &t.group_name {
                Some(g) => *g == *old_name,
                None => false,
            };
            if relabel {
                tabs.push(
                    Tab {
                        id: t.id,
                        name: group_tab_label(new_name.as_str()),
                        is_group: true,
                        group_name: Some(new_name.clone()),
                    },
                );
            } else {
                tabs.push(t.clone());
            }
            i = i + 1;
        }
        self.tabs = tabs;
        proof {
            assert forall|j: int| 0 <= j < old(self).tabs@.len() implies tab_renamed(
                old(self).tabs@[j],
                self.tabs@[j],
                old_name@,
                new_name@,
            ) by {}
            assert forall|j: int| #![trigger self.tabs@[j]] 0 <= j < old(self).tabs@.len() implies {
                &&& !(old(self).tabs@[j].is_group && (old(self).tabs@[j].group_name matches Some(g)
                    && g@ == old_name@)) ==> self.tabs@[j] == old(self).tabs@[j]
                &&& old(self).tabs@[j].is_group && (old(self).tabs@[j].group_name matches Some(g)
                    && g@ == old_name@) ==> {
                    &&& self.tabs@[j].id == old(self).tabs@[j].id
                    &&& self.tabs@[j].is_group
                    &&& self.tabs@[j].group_name matches Some(g) && g@ == new_name@
                    &&& self.tabs@[j].name@ == "Box: "@ + new_name@
                }
            } by {
                lemma_tab_renamed(old(self).tabs@[j], self.tabs@[j], old_name@, new_name@);
            }
        }
    }

    /// If a tab already edits the group `name`, stop playback and make that
    /// tab active; returns whether such a tab was found, and whether playback
    /// was stopped.
    pub fn focus_group_tab(&mut self, name: &String) -> (r: Option<bool>)
        ensures
            project_well_formed(*old(self)) ==> project_well_formed(*final(self)),
            same_content(*old(self), *final(self)),
            final(self).tabs == old(self).tabs,
            !has_group_tab(old(self).tabs@, name@) ==> r is None && *final(self) == *old(self),
            has_group_tab(old(self).tabs@, name@) ==> exists|i: int|
                {
                    &&& is_first_group_tab(old(self).tabs@, name@, i)
                    &&& final(self).active_tab_id == old(self).tabs@[i].id
                    &&& r == Some(old(self).is_playing)
                    &&& !final(self).is_playing
                },
    {
        match group_tab_index(&self.tabs, name) {
            Some(i) => {
                let stopped = self.stop_playback();
                self.active_tab_id = self.tabs[i].id;
                Some(stopped)
            },
            None => None,
        }
    }

    /// Open a new editor tab for the group `name` with the next tab id and
    /// make it active; returns the new tab's id.
    pub fn open_new_group_tab(&mut self, name: &String) -> (r: usize)
        requires
            tab_ids_bounded(old(self).tabs@),
        ensures
            project_well_formed(*old(self)) && r < usize::MAX ==> project_well_formed(*final(self)),
            same_content(*old(self), *final(self)),
            final(self).is_playing == old(self).is_playing,
            r == next_tab_id(old(self).tabs@),
            final(self).active_tab_id == r,
            final(self).tabs@.len() == old(self).tabs@.len() + 1,
            final(self).tabs@.drop_last() == old(self).tabs@,
            final(self).tabs@.last().id == r,
            final(self).tabs@.last().is_group,
            final(self).tabs@.last().name@ == group_tab_label_spec(name@),
            final(self).tabs@.last().group_name matches Some(g) && g@ == name@,
    {
        let id = new_tab_id(&self.tabs);
        self.tabs.push(
            Tab {
                id,
                name: group_tab_label(name.as_str()),
                is_group: true,
                group_name: Some(name.clone()),
            },
        );
        self.active_tab_id = id;
        assert(self.tabs@.drop_last() =~= old(self).tabs@);
        proof {
            let t = self.tabs@.last();
            assert(self.tabs@ =~= old(self).tabs@.push(t));
            if project_well_formed(*old(self)) && id < usize::MAX {
                lemma_new_group_tab_keeps_ids_unique(old(self).tabs@, t);
                assert forall|k: int| 0 <= k < self.tabs@.len() implies self.tabs@[k].id
                    < usize::MAX by {
                    if k < old(self).tabs@.len() {
                        assert(self.tabs@[k] == old(self).tabs@[k]);
                    }
                }
            }
        }
        id
    }

    /// Show a group's saved state: the loaded project replaces this one, but
    /// keeps this project's tabs plus a new editor tab for the group, which
    /// becomes active. Returns the new tab's id.
    pub fn adopt_group_state(&mut self, loaded: Project<M>, name: &String) -> (r: usize)
        requires
            tab_ids_bounded(old(self).tabs@),
        ensures
            final(self).tracks == loaded.tracks,
            final(self).is_playing == loaded.is_playing,
            final(self).loop_enabled == loaded.loop_enabled,
            final(self).project_name == loaded.project_name,
            final(self).file_path == loaded.file_path,
            final(self).audio_boxes == loaded.audio_boxes,
            final(self).next_track_id == loaded.next_track_id,
            final(self).modified == loaded.modified,
            r == next_tab_id(old(self).tabs@),
            final(self).active_tab_id == r,
            final(self).tabs@.drop_last() == old(self).tabs@,
            final(self).tabs@.len() == old(self).tabs@.len() + 1,
            final(self).tabs@.last().id == r,
            final(self).tabs@.last().is_group,
            final(self).tabs@.last().name@ == group_tab_label_spec(name@),
            final(self).tabs@.last().group_name matches Some(g) && g@ == name@,
    {
        let id = new_tab_id(&self.tabs);
        let mut loaded = loaded;
        std::mem::swap(&mut loaded.tabs, &mut self.tabs);
        let mut tabs = loaded.tabs;
        tabs.push(
            Tab {
                id,
                name: group_tab_label(name.as_str()),
                is_group: true,
                group_name: Some(name.clone()),
            },
        );
        self.tracks = loaded.tracks;
        self.is_playing = loaded.is_playing;
        self.loop_enabled = loaded.loop_enabled;
        self.project_name = loaded.project_name;
        self.file_path = loaded.file_path;
        self.audio_boxes = loaded.audio_boxes;
        self.next_track_id = loaded.next_track_id;
        self.modified = loaded.modified;
        self.tabs = tabs;
        self.active_tab_id = id;
        assert(self.tabs@.drop_last() =~= old(self).tabs@);
        id
    }

    /// Whether an item plays while the active tab is shown: in a group editor
    /// only that group's items play, elsewhere only plain samples do.
    pub fn item_plays_in_active_tab(&self, item: &Sample<M>) -> (r: bool)
        ensures
            r == plays_in_tab(self.tabs@, self.active_tab_id, *item),
    {
        proof {
            lemma_first_tab_index(self.tabs@, self.active_tab_id);
        }
        let (is_group_tab, group) = match tab_index(&self.tabs, self.active_tab_id) {
            Some(i) => (
                self.tabs[i].is_group,
                match &self.tabs[i].group_name {
                    Some(g) => g.clone(),
                    None => String::new(),
                },
            ),
            None => (false, String::new()),
        };
        if is_group_tab {
            match item.item_type {
                crate::tracks::TrackItemType::Group => item.name == group,
                crate::tracks::TrackItemType::Sample => false,
            }
        } else {
            match item.item_type {
                crate::tracks::TrackItemType::Group => false,
                crate::tracks::TrackItemType::Sample => true,
            }
        }
    }
}

/// The first position of `name` in `list`, if any.
pub open spec fn first_text_index(list: Seq<String>, name: Seq<char>) -> Option<int> {
    if has_text(list, name) {
        Some(choose|i: int| is_first_text(list, name, i))
    } else {
        None
    }
}

proof fn lemma_first_text_exists(list: Seq<String>, name: Seq<char>, k: int)
    requires
        0 <= k < list.len(),
        list[k]@ == name,
    ensures
        exists|i: int| is_first_text(list, name, i),
    decreases k,
{
    if forall|j: int| 0 <= j < k ==> list[j]@ != name {
        assert(is_first_text(list, name, k));
    } else {
        let j = choose|j: int| 0 <= j < k && list[j]@ == name;
        lemma_first_text_exists(list, name, j);
    }
}

/// The first position of a name is unique and exists when the name occurs.
pub proof fn lemma_first_text_index(list: Seq<String>, name: Seq<char>)
    ensures
        first_text_index(list, name) matches Some(i) ==> is_first_text(list, name, i),
        first_text_index(list, name) is None <==> !has_text(list, name),
        forall|i: int| is_first_text(list, name, i) ==> first_text_index(list, name) == Some(i),
{
    if has_text(list, name) {
        let k = choose|k: int| 0 <= k < list.len() && list[k]@ == name;
        lemma_first_text_exists(list, name, k);
        let f = choose|i: int| is_first_text(list, name, i);
        assert forall|i: int| is_first_text(list, name, i) implies i == f by {
            if i < f {
                assert(list[i]@ == name);
            } else if f < i {
                assert(list[f]@ == name);
            }
        }
    }
}

/// The first group item named `group` over all tracks, as (track position,
/// item position).
pub open spec fn first_group_location<M>(tracks: Seq<Track<M>>, group: Seq<char>) -> Option<
    (int, int),
> {
    if group_on_some_track(tracks, group) {
        Some(choose|ti: int, si: int| is_first_group_location(tracks, group, ti, si))
    } else {
        None
    }
}

/// The first step of placing a group on a track: the group's first item
/// anywhere (found at track position `ti`) is deleted by its track id and item
/// id, as `delete_sample` does; nothing changes when the group is on no track.
pub open spec fn group_taken_off<M>(before: Seq<Track<M>>, mid: Seq<Track<M>>, group: Seq<char>) -> bool {
    match first_group_location(before, group) {
        None => mid == before,
        Some(loc) => {
            let tid = before[loc.0].id;
            let sid = before[loc.0].samples@[loc.1].id;
            match first_track_index(before, tid) {
                Some(k) => if has_sample_id(before[k].samples@, sid) {
                    exists|s: Sample<M>| item_removed_at(before, mid, k, sid, s)
                } else {
                    mid == before
                },
                None => mid == before,
            }
        },
    }
}

/// The second step of placing a group on a track: on the first track with id
/// `track_id`, the first item of the group is dropped and a group item for
/// `media` is added with the track's next item id.
pub open spec fn group_put_on<M>(
    mid: Seq<Track<M>>,
    after: Seq<Track<M>>,
    track_id: usize,
    group: Seq<char>,
    media: M,
    r: GroupPlacement,
) -> bool {
    match first_track_index(mid, track_id) {
        None => r is NoTrack && after == mid,
        Some(tk) => {
            let cleared = crate::tracks::without_group_item(mid[tk].samples@, group);
            let id = next_sample_id(cleared);
            &&& r == GroupPlacement::Placed(id as usize)
            &&& tracks_agree_except(mid, after, tk, tk)
            &&& same_head(mid[tk], after[tk])
            &&& after[tk].samples@.len() == cleared.len() + 1
            &&& after[tk].samples@.drop_last() == cleared
            &&& after[tk].samples@.last().id == id
            &&& is_group_marker(after[tk].samples@.last(), group, media)
        },
    }
}

proof fn lemma_first_group_location<M>(tracks: Seq<Track<M>>, group: Seq<char>)
    ensures
        first_group_location(tracks, group) matches Some(loc) ==> is_first_group_location(
            tracks,
            group,
            loc.0,
            loc.1,
        ),
        first_group_location(tracks, group) is None <==> !group_on_some_track(tracks, group),
        forall|ti: int, si: int|
            is_first_group_location(tracks, group, ti, si) ==> first_group_location(tracks, group)
                == Some((ti, si)),
{
    if group_on_some_track(tracks, group) {
        let k = choose|k: int|
            0 <= k < tracks.len() && crate::tracks::has_group_item(tracks[k].samples@, group);
        lemma_first_track_with_group(tracks, group, k);
    }
    assert forall|ti: int, si: int, tj: int, sj: int|
        is_first_group_location(tracks, group, ti, si) && is_first_group_location(
            tracks,
            group,
            tj,
            sj,
        ) implies ti == tj && si == sj by {
        if ti < tj {
            assert(crate::tracks::is_group_item(tracks[ti].samples@[si], group));
        } else if tj < ti {
            assert(crate::tracks::is_group_item(tracks[tj].samples@[sj], group));
        }
        crate::tracks::lemma_first_group_item(tracks[ti].samples@, group);
    }
}

proof fn lemma_first_track_with_group<M>(tracks: Seq<Track<M>>, group: Seq<char>, k: int)
    requires
        0 <= k < tracks.len(),
        crate::tracks::has_group_item(tracks[k].samples@, group),
    ensures
        exists|ti: int, si: int| is_first_group_location(tracks, group, ti, si),
    decreases k,
{
    if forall|j: int| 0 <= j < k ==> !crate::tracks::has_group_item(tracks[j].samples@, group) {
        crate::tracks::lemma_first_group_item(tracks[k].samples@, group);
        let si = choose|si: int| crate::tracks::is_first_group_item(tracks[k].samples@, group, si);
        assert(is_first_group_location(tracks, group, k, si));
    } else {
        let j = choose|j: int|
            0 <= j < k && crate::tracks::has_group_item(tracks[j].samples@, group);
        lemma_first_track_with_group(tracks, group, j);
    }
}

impl<M> Project<M> {
    /// The first group item named `group` over all tracks, as (track position,
    /// item position).
    pub fn locate_group_item(&self, group: &String) -> (r: Option<(usize, usize)>)
        ensures
            r matches Some(loc) ==> first_group_location(self.tracks@, group@) == Some(
                (loc.0 as int, loc.1 as int),
            ),
            r is None ==> first_group_location(self.tracks@, group@) is None,
    {
        proof {
            lemma_first_group_location(self.tracks@, group@);
        }
        let n = self.tracks.len();
        let mut i: usize = 0;
        while i < n
            invariant
                n == self.tracks@.len(),
                i <= n,
                forall|j: int|
                    0 <= j < i ==> !crate::tracks::has_group_item(self.tracks@[j].samples@, group@),
            decreases n - i,
        {
            match crate::tracks::group_item_index(&self.tracks[i].samples, group) {
                Some(si) => {
                    assert(is_first_group_location(self.tracks@, group@, i as int, si as int));
                    return Some((i, si));
                },
                None => {},
            }
            i = i + 1;
        }
        None
    }

    /// Put a group on a track: unless the group already sits on that track,
    /// its item is taken off whichever track holds it first, any item of the
    /// group on the target track is dropped, and a new group item for `media`
    /// is added to the first track with id `track_id`.
    pub fn place_group_on_track(&mut self, track_id: usize, group: &String, media: M) -> (r:
        GroupPlacement)
        requires
            all_sample_ids_bounded(old(self).tracks@),
        ensures
            project_well_formed(*old(self)) && (r matches GroupPlacement::Placed(id) ==> id < usize::MAX) ==> project_well_formed(*final(self)),
            same_settings(*old(self), *final(self)),
            final(self).next_track_id == old(self).next_track_id,
            final(self).modified == old(self).modified,
            (first_group_location(old(self).tracks@, group@) matches Some(loc) && old(
                self,
            ).tracks@[loc.0].id == track_id) ==> r is AlreadyOnTrack && *final(self) == *old(self),
            !(first_group_location(old(self).tracks@, group@) matches Some(loc) && old(
                self,
            ).tracks@[loc.0].id == track_id) ==> exists|mid: Seq<Track<M>>|
                group_taken_off(old(self).tracks@, mid, group@) && group_put_on(
                    mid,
                    final(self).tracks@,
                    track_id,
                    group@,
                    media,
                    r,
                ),
    {
        proof {
            lemma_first_group_location(self.tracks@, group@);
        }
        let ghost before = self.tracks@;
        match self.locate_group_item(group) {
            Some(loc) => {
                let (ti, si) = loc;
                let src_track_id = self.tracks[ti].id;
                let src_sample_id = self.tracks[ti].samples[si].id;
                if src_track_id == track_id {
                    return GroupPlacement::AlreadyOnTrack;
                }
                let removed = self.delete_sample(src_track_id, src_sample_id);
                proof {
                    lemma_first_track_index(before, src_track_id);
                    match removed {
                        Some(s) => {
                            assert(item_removed_at(before, self.tracks@, first_track_index(before, src_track_id)->0, src_sample_id, s));
                        },
                        None => {},
                    }
                    assert(group_taken_off(before, self.tracks@, group@));
                }
            },
            None => {
                assert(group_taken_off(before, self.tracks@, group@));
            },
        }
        let ghost mid = self.tracks@;
        let ghost mid_well_formed = project_well_formed(*self);
        proof {
            lemma_removal_keeps_bounded(before, mid, group@);
        }
        match Self::find_track(&self.tracks, track_id) {
            Some(tk) => {
                let mut t = self.tracks.remove(tk);
                let ghost t0 = t;
                assert(t0 == mid[tk as int]);
                let _ = t.remove_group_item(group);
                proof {
                    lemma_without_group_item_bounded(t0.samples@, group@);
                }
                let ghost cleared = t.samples@;
                proof {
                    crate::tracks::lemma_without_group_item_keeps_ids(t0.samples@, group@);
                }
                let mut item = Sample::with_media(media);
                item.name = group.clone();
                item.item_type = crate::tracks::TrackItemType::Group;
                let id = t.next_sample_id();
                t.add_sample(item);
                self.tracks.insert(tk, t);
                assert(self.tracks@[tk as int] == t);
                assert(t.samples@.drop_last() =~= cleared);
                assert(tracks_agree_except(mid, self.tracks@, tk as int, tk as int));
                let r = GroupPlacement::Placed(id);
                assert(group_put_on(mid, self.tracks@, track_id, group@, media, r));
                proof {
                    if mid_well_formed && id < usize::MAX {
                        crate::tracks::lemma_add_sample_keeps_ids_unique(cleared, item);
                        assert forall|k: int| 0 <= k < t.samples@.len() implies t.samples@[k].id
                            < usize::MAX by {
                            if k < cleared.len() {
                                assert(t.samples@[k] == cleared[k]);
                            }
                        }
                        lemma_replace_items_keeps_ids(mid, self.tracks@, tk as int, self.next_track_id);
                    }
                }
                r
            },
            None => {
                let r = GroupPlacement::NoTrack;
                assert(group_put_on(mid, self.tracks@, track_id, group@, media, r));
                r
            },
        }
    }
}

proof fn lemma_without_group_item_bounded<M>(samples: Seq<Sample<M>>, group: Seq<char>)
    requires
        sample_ids_bounded(samples),
    ensures
        sample_ids_bounded(crate::tracks::without_group_item(samples, group)),
{
    if crate::tracks::has_group_item(samples, group) {
        let i = choose|i: int| crate::tracks::is_first_group_item(samples, group, i);
        crate::tracks::lemma_first_group_item(samples, group);
        let r = samples.remove(i);
        assert forall|j: int| 0 <= j < r.len() implies r[j].id < usize::MAX by {
            if j < i {
                assert(r[j] == samples[j]);
            } else {
                assert(r[j] == samples[j + 1]);
            }
        }
    }
}

proof fn lemma_removal_keeps_bounded<M>(before: Seq<Track<M>>, mid: Seq<Track<M>>, group: Seq<char>)
    requires
        all_sample_ids_bounded(before),
        group_taken_off(before, mid, group),
    ensures
        all_sample_ids_bounded(mid),
{
    match first_group_location(before, group) {
        None => {},
        Some(loc) => {
            let tid = before[loc.0].id;
            let sid = before[loc.0].samples@[loc.1].id;
            match first_track_index(before, tid) {
                Some(k) => if has_sample_id(before[k].samples@, sid) {
                    let s = choose|s: Sample<M>| item_removed_at(before, mid, k, sid, s);
                    let si = choose|si: int| item_removed_at_index(before, mid, k, sid, s, si);
                    assert forall|i: int| 0 <= i < mid.len() implies sample_ids_bounded(
                        #[trigger] mid[i].samples@,
                    ) by {
                        if i != k {
                            assert(mid[i] == before[i]);
                        } else {
                            let old_s = before[k].samples@;
                            let new_s = mid[k].samples@;
                            assert(sample_ids_bounded(old_s));
                            assert forall|j: int| 0 <= j < new_s.len() implies new_s[j].id
                                < usize::MAX by {
                                if j < si {
                                    assert(new_s[j] == old_s[j]);
                                } else {
                                    assert(new_s[j] == old_s[j + 1]);
                                }
                            }
                        }
                    }
                },
                None => {},
            }
        },
    }
}

impl<M> Project<M> {
    /// The id of the last item of the first track with id `track_id`: the item
    /// a drop has just added.
    pub fn last_sample_id(&self, track_id: usize) -> (r: Option<usize>)
        ensures
            match first_track_index(self.tracks@, track_id) {
                Some(ti) => if self.tracks@[ti].samples@.len() > 0 {
                    r == Some(self.tracks@[ti].samples@.last().id)
                } else {
                    r is None
                },
                None => r is None,
            },
    {
        match Self::find_track(&self.tracks, track_id) {
            Some(ti) => {
                let n = self.tracks[ti].samples.len();
                if n > 0 {
                    Some(self.tracks[ti].samples[n - 1].id)
                } else {
                    None
                }
            },
            None => None,
        }
    }
}

// ---------------------------------------------------------------------------
// Laws
// ---------------------------------------------------------------------------

impl<M> Project<M> {
    /// Start or stop playback; returns whether playback is now on.
    pub fn toggle_playback(&mut self) -> (r: bool)
        ensures
            project_well_formed(*old(self)) ==> project_well_formed(*final(self)),
            r == !old(self).is_playing,
            final(self).is_playing == r,
            same_content(*old(self), *final(self)),
            final(self).tabs == old(self).tabs,
            final(self).active_tab_id == old(self).active_tab_id,
    {
        self.is_playing = !self.is_playing;
        self.is_playing
    }

    /// Turn looping over the selection on or off.
    pub fn toggle_loop_selection(&mut self)
        ensures
            project_well_formed(*old(self)) ==> project_well_formed(*final(self)),
            *final(self) == (Project { loop_enabled: !old(self).loop_enabled, ..*old(self) }),
    {
        self.loop_enabled = !self.loop_enabled;
    }
}

/// With no track soloed, a track is heard exactly when it is not muted; with
/// some track soloed, only soloed tracks that are not muted are heard.
pub proof fn lemma_solo_rule<M>(tracks: Seq<Track<M>>, i: int)
    requires
        0 <= i < tracks.len(),
    ensures
        !any_soloed(tracks) ==> (track_audible_spec(tracks[i], any_soloed(tracks))
            <==> !tracks[i].muted),
        any_soloed(tracks) ==> (track_audible_spec(tracks[i], any_soloed(tracks))
            <==> tracks[i].soloed && !tracks[i].muted),
{
}

/// Opening a group tab with the next tab id keeps tab ids distinct, and the
/// new tab can be found by its id.
pub proof fn lemma_new_group_tab_keeps_ids_unique(tabs: Seq<Tab>, t: Tab)
    requires
        tab_ids_unique(tabs),
        t.id == next_tab_id(tabs),
    ensures
        tab_ids_unique(tabs.push(t)),
        has_tab_id(tabs.push(t), t.id),
{
    crate::tabs::lemma_next_tab_id(tabs);
    assert(tabs.push(t)[tabs.len() as int].id == t.id);
}

/// The ids are distinct: no two tracks share an id, and on each track no two
/// items do.
pub open spec fn ids_well_formed<M>(tracks: Seq<Track<M>>) -> bool {
    &&& track_ids_unique(tracks)
    &&& forall|i: int| 0 <= i < tracks.len() ==> sample_ids_unique(#[trigger] tracks[i].samples@)
}

/// At most one item of the group `group` sits on the tracks.
pub open spec fn group_at_most_once<M>(tracks: Seq<Track<M>>, group: Seq<char>) -> bool {
    forall|t1: int, s1: int, t2: int, s2: int|
        0 <= t1 < tracks.len() && 0 <= s1 < tracks[t1].samples@.len() && 0 <= t2 < tracks.len()
            && 0 <= s2 < tracks[t2].samples@.len() && is_group_item(tracks[t1].samples@[s1], group)
            && is_group_item(tracks[t2].samples@[s2], group) ==> t1 == t2 && s1 == s2
}

proof fn lemma_no_group_item_nowhere<M>(tracks: Seq<Track<M>>, group: Seq<char>)
    requires
        !group_on_some_track(tracks, group),
    ensures
        forall|t: int, s: int|
            0 <= t < tracks.len() && 0 <= s < tracks[t].samples@.len() ==> !is_group_item(
                tracks[t].samples@[s],
                group,
            ),
{
    assert forall|t: int, s: int|
        0 <= t < tracks.len() && 0 <= s < tracks[t].samples@.len() implies !is_group_item(
        tracks[t].samples@[s],
        group,
    ) by {
        if is_group_item(tracks[t].samples@[s], group) {
            assert(has_group_item(tracks[t].samples@, group));
        }
    }
}

/// Placing a group on a track keeps it on one track at most: when ids are
/// distinct and the group sat on at most one track, then after it is put on a
/// track it sits there once and nowhere else.
pub proof fn lemma_place_group_keeps_it_single<M>(
    before: Seq<Track<M>>,
    mid: Seq<Track<M>>,
    after: Seq<Track<M>>,
    track_id: usize,
    group: Seq<char>,
    media: M,
    r: GroupPlacement,
)
    requires
        ids_well_formed(before),
        group_at_most_once(before, group),
        group_taken_off(before, mid, group),
        group_put_on(mid, after, track_id, group, media, r),
        r is Placed,
    ensures
        group_at_most_once(after, group),
        exists|t: int, s: int|
            0 <= t < after.len() && after[t].id == track_id && 0 <= s < after[t].samples@.len()
                && is_group_item(after[t].samples@[s], group),
{
    lemma_first_group_location(before, group);
    // Step 1: no item of the group is left in `mid`.
    assert forall|t: int, s: int|
        0 <= t < mid.len() && 0 <= s < mid[t].samples@.len() implies !is_group_item(
        mid[t].samples@[s],
        group,
    ) by {
        match first_group_location(before, group) {
            None => {
                lemma_no_group_item_nowhere(before, group);
            },
            Some(loc) => {
                let ti = loc.0;
                let si = loc.1;
                let tid = before[ti].id;
                let sid = before[ti].samples@[si].id;
                lemma_first_track_index(before, tid);
                assert(is_first_track_with_id(before, tid, ti)) by {
                    assert forall|j: int| 0 <= j < ti implies before[j].id != tid by {}
                }
                assert(first_track_index(before, tid) == Some(ti));
                assert(has_sample_id(before[ti].samples@, sid));
                let x = choose|x: Sample<M>| item_removed_at(before, mid, ti, sid, x);
                let k = choose|k: int| item_removed_at_index(before, mid, ti, sid, x, k);
                assert(before[ti].samples@[k].id == sid);
                assert(k == si) by {
                    if k != si {
                        assert(sample_ids_unique(before[ti].samples@));
                    }
                }
                assert(is_group_item(before[ti].samples@[si], group));
                if t != ti {
                    assert(mid[t] == before[t]);
                    if is_group_item(mid[t].samples@[s], group) {
                        assert(is_group_item(before[t].samples@[s], group));
                    }
                } else {
                    let bs = before[ti].samples@;
                    let ms = mid[ti].samples@;
                    assert(ms == bs.remove(si));
                    if is_group_item(ms[s], group) {
                        if s < si {
                            assert(ms[s] == bs[s]);
                            assert(is_group_item(bs[s], group));
                        } else {
                            assert(ms[s] == bs[s + 1]);
                            assert(is_group_item(bs[s + 1], group));
                        }
                    }
                }
            },
        }
    }
    // Step 2: the target track gets exactly one.
    let tk = first_track_index(mid, track_id)->0;
    lemma_first_track_index(mid, track_id);
    let ms = mid[tk].samples@;
    assert(!has_group_item(ms, group));
    assert(without_group_item(ms, group) == ms);
    let last = after[tk].samples@.len() - 1;
    assert(after[tk].samples@.drop_last() == ms);
    assert forall|t1: int, s1: int, t2: int, s2: int|
        0 <= t1 < after.len() && 0 <= s1 < after[t1].samples@.len() && 0 <= t2 < after.len() && 0
            <= s2 < after[t2].samples@.len() && is_group_item(after[t1].samples@[s1], group)
            && is_group_item(after[t2].samples@[s2], group) implies t1 == t2 && s1 == s2 by {
        assert(t1 == tk && s1 == last) by {
            if t1 != tk {
                assert(after[t1] == mid[t1]);
            } else if s1 != last {
                assert(after[tk].samples@[s1] == ms[s1]);
            }
        }
        assert(t2 == tk && s2 == last) by {
            if t2 != tk {
                assert(after[t2] == mid[t2]);
            } else if s2 != last {
                assert(after[tk].samples@[s2] == ms[s2]);
            }
        }
    }
    assert(after[tk].id == track_id);
    assert(is_group_item(after[tk].samples@[last], group));
}

// ---------------------------------------------------------------------------
// Well-formedness
// ---------------------------------------------------------------------------

/// The ids of a project are in order: tracks have distinct ids below the next
/// track id, each track's items have distinct ids below `usize::MAX`, and tabs
/// have distinct ids below `usize::MAX`.
pub open spec fn project_well_formed<M>(p: Project<M>) -> bool {
    &&& ids_well_formed(p.tracks@)
    &&& track_ids_below(p.tracks@, p.next_track_id)
    &&& all_sample_ids_bounded(p.tracks@)
    &&& tab_ids_unique(p.tabs@)
    &&& tab_ids_bounded(p.tabs@)
}

/// Replacing the items of one track by items with distinct, bounded ids keeps
/// the track ids and the item ids of the project in order.
pub proof fn lemma_replace_items_keeps_ids<M>(
    before: Seq<Track<M>>,
    after: Seq<Track<M>>,
    ti: int,
    next: usize,
)
    requires
        ids_well_formed(before),
        track_ids_below(before, next),
        all_sample_ids_bounded(before),
        0 <= ti < before.len(),
        tracks_agree_except(before, after, ti, ti),
        same_head(before[ti], after[ti]),
        sample_ids_unique(after[ti].samples@),
        sample_ids_bounded(after[ti].samples@),
    ensures
        ids_well_formed(after),
        track_ids_below(after, next),
        all_sample_ids_bounded(after),
{
    assert forall|j: int| 0 <= j < after.len() implies after[j].id == before[j].id by {
        if j != ti {
            assert(after[j] == before[j]);
        }
    }
    assert forall|j: int| 0 <= j < after.len() implies sample_ids_unique(
        #[trigger] after[j].samples@,
    ) && sample_ids_bounded(after[j].samples@) by {
        if j != ti {
            assert(after[j] == before[j]);
        }
    }
}

/// A new project is well formed.
pub proof fn lemma_new_project_well_formed<M>(p: Project<M>)
    requires
        p.tracks@.len() == 4,
        forall|i: int| 0 <= i < 4 ==> is_initial_track(#[trigger] p.tracks@[i], i),
        p.next_track_id == 5,
        p.tabs@.len() == 1,
        p.tabs@[0].id == 0,
    ensures
        project_well_formed(p),
{
    assert forall|i: int, j: int|
        0 <= i < p.tracks@.len() && 0 <= j < p.tracks@.len() && i != j implies p.tracks@[i].id
        != p.tracks@[j].id by {
        assert(is_initial_track(p.tracks@[i], i));
        assert(is_initial_track(p.tracks@[j], j));
    }
    assert forall|i: int| 0 <= i < p.tracks@.len() implies p.tracks@[i].id < p.next_track_id by {
        assert(is_initial_track(p.tracks@[i], i));
    }
    assert forall|i: int| 0 <= i < p.tracks@.len() implies sample_ids_unique(
        #[trigger] p.tracks@[i].samples@,
    ) && sample_ids_bounded(p.tracks@[i].samples@) by {
        assert(is_initial_track(p.tracks@[i], i));
    }
}

} // verus!
