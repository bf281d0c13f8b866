use vstd::prelude::*;

verus! {

/// Type of item in a track - either a sample or a group.
#[derive(Debug, Clone, Copy, PartialEq, Eq, Structural)]
pub enum TrackItemType {
    Sample,
    Group,
}

impl Default for TrackItemType {
    fn default() -> (r: Self)
        ensures
            r == TrackItemType::Sample,
    {
        TrackItemType::Sample
    }
}

/// An item placed on a track. The library keeps what identifies and labels
/// the item; `media` carries the audio data, timing and playback stream that
/// the audio engine owns.
pub struct Sample<M> {
    pub id: usize,
    pub name: String,
    pub audio_file: Option<String>,
    pub waveform_file: Option<String>,
    pub is_playing: bool,
    pub item_type: TrackItemType,
    pub media: M,
}

impl<M> Sample<M> {
    /// A fresh item around `media`: id 0, named `Sample`, no files, stopped,
    /// of the sample kind.
    pub fn with_media(media: M) -> (r: Self)
        ensures
            r.id == 0,
            r.name@ == "Sample"@,
            r.audio_file is None,
            r.waveform_file is None,
            !r.is_playing,
            r.item_type == TrackItemType::Sample,
            r.media == media,
    {
        Sample {
            id: 0,
            name: "Sample".to_owned(),
            audio_file: None,
            waveform_file: None,
            is_playing: false,
            item_type: TrackItemType::Sample,
            media,
        }
    }
}

/// A track: a row of the arrangement with its mixer switches and its items.
pub struct Track<M> {
    pub id: usize,
    pub name: String,
    pub muted: bool,
    pub soloed: bool,
    pub recording: bool,
    pub samples: Vec<Sample<M>>,
}

// ---------------------------------------------------------------------------
// Specifications over the items of a track
// ---------------------------------------------------------------------------

/// `i` is the first position in `samples` whose item has id `id`.
pub open spec fn is_first_sample_with_id<M>(samples: Seq<Sample<M>>, id: usize, i: int) -> bool {
    &&& 0 <= i < samples.len()
    &&& samples[i].id == id
    &&& forall|j: int| 0 <= j < i ==> samples[j].id != id
}

/// Some item of `samples` has id `id`.
pub open spec fn has_sample_id<M>(samples: Seq<Sample<M>>, id: usize) -> bool {
    exists|i: int| 0 <= i < samples.len() && samples[i].id == id
}

/// The id that the next added item gets: one more than the largest id, or 0.
pub open spec fn next_sample_id<M>(samples: Seq<Sample<M>>) -> int
    decreases samples.len(),
{
    if samples.len() == 0 {
        0
    } else {
        let rest = next_sample_id(samples.drop_last());
        let cand = samples.last().id + 1;
        if rest < cand {
            cand
        } else {
            rest
        }
    }
}

/// No two items of `samples` share an id.
pub open spec fn sample_ids_unique<M>(samples: Seq<Sample<M>>) -> bool {
    forall|i: int, j: int|
        0 <= i < samples.len() && 0 <= j < samples.len() && i != j ==> samples[i].id
            != samples[j].id
}

/// Every id in `samples` is below `usize::MAX`, so one more still fits.
pub open spec fn sample_ids_bounded<M>(samples: Seq<Sample<M>>) -> bool {
    forall|i: int| 0 <= i < samples.len() ==> samples[i].id < usize::MAX
}

/// The next id is larger than every id in `samples`, and no larger than
/// `usize::MAX` when the ids are bounded.
pub proof fn lemma_next_sample_id<M>(samples: Seq<Sample<M>>)
    ensures
        next_sample_id(samples) >= 0,
        forall|i: int| 0 <= i < samples.len() ==> samples[i].id < next_sample_id(samples),
        sample_ids_bounded(samples) ==> next_sample_id(samples) <= usize::MAX,
        samples.len() == 0 ==> next_sample_id(samples) == 0,
        samples.len() > 0 ==> exists|i: int|
            0 <= i < samples.len() && next_sample_id(samples) == samples[i].id + 1,
    decreases samples.len(),
{
    if samples.len() > 0 {
        let rest = samples.drop_last();
        lemma_next_sample_id(rest);
        assert forall|i: int| 0 <= i < samples.len() implies samples[i].id < next_sample_id(
            samples,
        ) by {
            if i < samples.len() - 1 {
                assert(samples[i] == rest[i]);
            }
        }
        if next_sample_id(samples) == samples.last().id + 1 {
            assert(next_sample_id(samples) == samples[samples.len() - 1].id + 1);
        } else {
            let k = choose|k: int| 0 <= k < rest.len() && next_sample_id(rest) == rest[k].id + 1;
            assert(next_sample_id(samples) == samples[k].id + 1);
        }
    }
}

impl<M> Track<M> {
    /// Create a new track with the given ID and name.
    pub fn new(id: usize, name: String) -> (r: Self)
        ensures
            r.id == id,
            r.name == name,
            !r.muted,
            !r.soloed,
            !r.recording,
            r.samples@.len() == 0,
    {
        Track { id, name, muted: false, soloed: false, recording: false, samples: Vec::new() }
    }

    /// The id the next added item will get.
    pub fn next_sample_id(&self) -> (r: usize)
        requires
            sample_ids_bounded(self.samples@),
        ensures
            r == next_sample_id(self.samples@),
    {
        let n = self.samples.len();
        let mut best: usize = 0;
        let mut i: usize = 0;
        while i < n
            invariant
                n == self.samples@.len(),
                i <= n,
                sample_ids_bounded(self.samples@),
                best == next_sample_id(self.samples@.take(i as int)),
            decreases n - i,
        {
            proof {
                assert(self.samples@.take(i + 1).drop_last() =~= self.samples@.take(i as int));
                assert(self.samples@.take(i + 1).last() == self.samples@[i as int]);
            }
            let cand = self.samples[i].id + 1;
            if best < cand {
                best = cand;
            }
            i = i + 1;
        }
        proof {
            assert(self.samples@.take(n as int) =~= self.samples@);
        }
        best
    }

    /// Add an item to the track, giving it an id one larger than any id on the
    /// track (0 on an empty track).
    pub fn add_sample(&mut self, sample: Sample<M>)
        requires
            sample_ids_bounded(old(self).samples@),
        ensures
            final(self).id == old(self).id,
            final(self).name == old(self).name,
            final(self).muted == old(self).muted,
            final(self).soloed == old(self).soloed,
            final(self).recording == old(self).recording,
            final(self).samples@ == old(self).samples@.push(
                Sample { id: next_sample_id(old(self).samples@) as usize, ..sample },
            ),
    {
        let new_id = self.next_sample_id();
        let mut sample = sample;
        sample.id = new_id;
        self.samples.push(sample);
    }

    /// The position of the first item with id `sample_id`.
    pub fn sample_index(&self, sample_id: usize) -> (r: Option<usize>)
        ensures
            r matches Some(i) ==> is_first_sample_with_id(self.samples@, sample_id, i as int),
            r is None <==> !has_sample_id(self.samples@, sample_id),
    {
        let n = self.samples.len();
        let mut i: usize = 0;
        while i < n
            invariant
                n == self.samples@.len(),
                i <= n,
                forall|j: int| 0 <= j < i ==> self.samples@[j].id != sample_id,
            decreases n - i,
        {
            if self.samples[i].id == sample_id {
                return Some(i);
            }
            i = i + 1;
        }
        None
    }

    /// Remove the first item with id `sample_id` and hand it back.
    pub fn remove_sample(&mut self, sample_id: usize) -> (r: Option<Sample<M>>)
        ensures
            final(self).id == old(self).id,
            final(self).name == old(self).name,
            final(self).muted == old(self).muted,
            final(self).soloed == old(self).soloed,
            final(self).recording == old(self).recording,
            r is None <==> !has_sample_id(old(self).samples@, sample_id),
            r is None ==> *final(self) == *old(self),
            r matches Some(s) ==> exists|i: int|
                is_first_sample_with_id(old(self).samples@, sample_id, i) && s == old(
                    self,
                ).samples@[i] && final(self).samples@ == old(self).samples@.remove(i),
    {
        match self.sample_index(sample_id) {
            Some(pos) => {
                let s = self.samples.remove(pos);
                Some(s)
            },
            None => None,
        }
    }

    /// The first item with id `sample_id`.
    pub fn get_sample(&self, sample_id: usize) -> (r: Option<&Sample<M>>)
        ensures
            r is None <==> !has_sample_id(self.samples@, sample_id),
            r matches Some(s) ==> exists|i: int|
                is_first_sample_with_id(self.samples@, sample_id, i) && *s == self.samples@[i],
    {
        match self.sample_index(sample_id) {
            Some(pos) => Some(&self.samples[pos]),
            None => None,
        }
    }
}

/// Adding an item keeps the ids of a track distinct, and the added item can be
/// found under the id it was given.
pub proof fn lemma_add_sample_keeps_ids_unique<M>(samples: Seq<Sample<M>>, sample: Sample<M>)
    requires
        sample_ids_unique(samples),
        sample_ids_bounded(samples),
    ensures
        ({
            let id = next_sample_id(samples) as usize;
            let after = samples.push(Sample { id, ..sample });
            &&& sample_ids_unique(after)
            &&& is_first_sample_with_id(after, id, samples.len() as int)
        }),
{
    lemma_next_sample_id(samples);
}

/// Removing the item that was just added gives back that item and the
/// track's items as they were.
pub proof fn lemma_remove_after_add<M>(samples: Seq<Sample<M>>, sample: Sample<M>)
    requires
        sample_ids_bounded(samples),
    ensures
        ({
            let id = next_sample_id(samples) as usize;
            let added = Sample { id, ..sample };
            let after = samples.push(added);
            &&& is_first_sample_with_id(after, id, samples.len() as int)
            &&& after.remove(samples.len() as int) =~= samples
            &&& after[samples.len() as int] == added
        }),
{
    lemma_next_sample_id(samples);
}

/// The item is a group item named `group`.
pub open spec fn is_group_item<M>(item: Sample<M>, group: Seq<char>) -> bool {
    item.item_type == TrackItemType::Group && item.name@ == group
}

/// `i` is the first position of a group item named `group`.
pub open spec fn is_first_group_item<M>(samples: Seq<Sample<M>>, group: Seq<char>, i: int) -> bool {
    &&& 0 <= i < samples.len()
    &&& is_group_item(samples[i], group)
    &&& forall|j: int| 0 <= j < i ==> !is_group_item(samples[j], group)
}

/// Some item is a group item named `group`.
pub open spec fn has_group_item<M>(samples: Seq<Sample<M>>, group: Seq<char>) -> bool {
    exists|i: int| 0 <= i < samples.len() && is_group_item(samples[i], group)
}

/// The items with the first group item named `group` taken out, if there is
/// one.
pub open spec fn without_group_item<M>(samples: Seq<Sample<M>>, group: Seq<char>) -> Seq<
    Sample<M>,
> {
    if has_group_item(samples, group) {
        samples.remove(choose|i: int| is_first_group_item(samples, group, i))
    } else {
        samples
    }
}

proof fn lemma_first_group_item_exists<M>(samples: Seq<Sample<M>>, group: Seq<char>, k: int)
    requires
        0 <= k < samples.len(),
        is_group_item(samples[k], group),
    ensures
        exists|i: int| is_first_group_item(samples, group, i),
    decreases k,
{
    if forall|j: int| 0 <= j < k ==> !is_group_item(samples[j], group) {
        assert(is_first_group_item(samples, group, k));
    } else {
        let j = choose|j: int| 0 <= j < k && is_group_item(samples[j], group);
        lemma_first_group_item_exists(samples, group, j);
    }
}

/// The first group item with a name is unique, and exists when some item is
/// one.
pub proof fn lemma_first_group_item<M>(samples: Seq<Sample<M>>, group: Seq<char>)
    ensures
        has_group_item(samples, group) ==> exists|i: int| is_first_group_item(samples, group, i),
        forall|i: int, k: int|
            is_first_group_item(samples, group, i) && is_first_group_item(samples, group, k)
                ==> i == k,
{
    if has_group_item(samples, group) {
        let k = choose|k: int| 0 <= k < samples.len() && is_group_item(samples[k], group);
        lemma_first_group_item_exists(samples, group, k);
    }
    assert forall|i: int, k: int|
        is_first_group_item(samples, group, i) && is_first_group_item(
            samples,
            group,
            k,
        ) implies i == k by {
        if i < k {
            assert(is_group_item(samples[i], group));
        } else if k < i {
            assert(is_group_item(samples[k], group));
        }
    }
}

/// Whether an item is a group item named `group`.
pub fn item_is_group<M>(item: &Sample<M>, group: &String) -> (r: bool)
    ensures
        r == is_group_item(*item, group@),
{
    match item.item_type {
        TrackItemType::Group => item.name == *group,
        TrackItemType::Sample => false,
    }
}

/// The position of the first group item named `group`.
pub fn group_item_index<M>(samples: &Vec<Sample<M>>, group: &String) -> (r: Option<usize>)
    ensures
        r matches Some(i) ==> is_first_group_item(samples@, group@, i as int),
        r is None <==> !has_group_item(samples@, group@),
{
    let n = samples.len();
    let mut i: usize = 0;
    while i < n
        invariant
            n == samples@.len(),
            i <= n,
            forall|j: int| 0 <= j < i ==> !is_group_item(samples@[j], group@),
        decreases n - i,
    {
        if item_is_group(&samples[i], group) {
            return Some(i);
        }
        i = i + 1;
    }
    None
}

impl<M> Track<M> {
    /// Take the first group item named `group` off the track, if there is one.
    pub fn remove_group_item(&mut self, group: &String) -> (r: Option<Sample<M>>)
        ensures
            same_head(*old(self), *final(self)),
            final(self).samples@ == without_group_item(old(self).samples@, group@),
            r is Some <==> has_group_item(old(self).samples@, group@),
    {
        proof {
            lemma_first_group_item(self.samples@, group@);
        }
        match group_item_index(&self.samples, group) {
            Some(i) => Some(self.samples.remove(i)),
            None => None,
        }
    }

    /// Append an item numbered by its position: its id becomes the number of
    /// items the track had.
    pub fn append_sample_numbered(&mut self, sample: Sample<M>)
        ensures
            same_head(*old(self), *final(self)),
            final(self).samples@ == old(self).samples@.push(
                Sample { id: old(self).samples@.len() as usize, ..sample },
            ),
    {
        let mut sample = sample;
        sample.id = self.samples.len();
        self.samples.push(sample);
    }
}

/// Two tracks agree on everything but their items.
pub open spec fn same_head<M>(a: Track<M>, b: Track<M>) -> bool {
    &&& a.id == b.id
    &&& a.name == b.name
    &&& a.muted == b.muted
    &&& a.soloed == b.soloed
    &&& a.recording == b.recording
}

/// Taking an item out keeps the ids of a track distinct and bounded.
pub proof fn lemma_remove_keeps_ids<M>(samples: Seq<Sample<M>>, i: int)
    requires
        0 <= i < samples.len(),
    ensures
        sample_ids_unique(samples) ==> sample_ids_unique(samples.remove(i)),
        sample_ids_bounded(samples) ==> sample_ids_bounded(samples.remove(i)),
{
    let r = samples.remove(i);
    assert forall|k: int| 0 <= k < r.len() implies r[k] == samples[if k < i {
        k
    } else {
        k + 1
    }] by {}
}

/// Dropping the first item of a group keeps the ids of a track distinct and
/// bounded.
pub proof fn lemma_without_group_item_keeps_ids<M>(samples: Seq<Sample<M>>, group: Seq<char>)
    ensures
        sample_ids_unique(samples) ==> sample_ids_unique(without_group_item(samples, group)),
        sample_ids_bounded(samples) ==> sample_ids_bounded(without_group_item(samples, group)),
{
    if has_group_item(samples, group) {
        lemma_first_group_item(samples, group);
        let i = choose|i: int| is_first_group_item(samples, group, i);
        lemma_remove_keeps_ids(samples, i);
    }
}

} // verus!
