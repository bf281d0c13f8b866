use vstd::prelude::*;
use crate::paths::{
    get_project_dir, is_blank, is_blank_spec, path_file_name, path_join, path_parent,
    project_dir_spec, project_folder, project_folder_spec, spec_path_file_name, spec_path_join,
    spec_is_whitespace, spec_path_parent,
};
use crate::project::{has_text, text_index, Project};
use crate::text::concat_text;

verus! {

/// The folder name a project is saved under: its name, or `Untitled Project`
/// when the name is blank.
pub open spec fn project_folder_name_spec(project_name: Seq<char>) -> Seq<char> {
    if is_blank_spec(project_name) {
        "Untitled Project"@
    } else {
        project_name
    }
}

/// A project is saved under its own name whenever the name has a character
/// that is not whitespace; only a name made of whitespace alone (or empty) is
/// saved as `Untitled Project`.
pub proof fn lemma_project_folder_name(name: Seq<char>)
    ensures
        (exists|i: int| 0 <= i < name.len() && !spec_is_whitespace(#[trigger] name[i]))
            ==> project_folder_name_spec(name) == name,
        (forall|i: int| 0 <= i < name.len() ==> spec_is_whitespace(#[trigger] name[i]))
            ==> project_folder_name_spec(name) == "Untitled Project"@,
{
}

/// The folder name a project is saved under: its name, or `Untitled Project`
/// when the name is blank.
pub fn project_folder_name(project_name: &str) -> (r: String)
    ensures
        r@ == project_folder_name_spec(project_name@),
        (exists|i: int| 0 <= i < project_name@.len() && !spec_is_whitespace(
            #[trigger] project_name@[i],
        )) ==> r@ == project_name@,
        (forall|i: int| 0 <= i < project_name@.len() ==> spec_is_whitespace(
            #[trigger] project_name@[i],
        )) ==> r@ == "Untitled Project"@,
{
    proof {
        lemma_project_folder_name(project_name@);
    }
    if is_blank(project_name) {
        "Untitled Project".to_owned()
    } else {
        project_name.to_owned()
    }
}

/// Where a project is written: its folder, the waveforms folder in it and the
/// project file.
pub struct SaveLocations {
    pub project_folder: String,
    pub waveforms_dir: String,
    pub project_file: String,
}

/// The locations of a project saved for the first time into `picked_folder`:
/// a folder named after the project holding `waveforms` and `project.json`.
pub fn new_project_locations(picked_folder: &str, project_name: &str) -> (r: SaveLocations)
    ensures
        r.project_folder@ == spec_path_join(picked_folder@, project_folder_name_spec(project_name@)),
        r.waveforms_dir@ == spec_path_join(r.project_folder@, "waveforms"@),
        r.project_file@ == spec_path_join(r.project_folder@, "project.json"@),
{
    let name = project_folder_name(project_name);
    let folder = path_join(picked_folder, name.as_str());
    let waveforms_dir = path_join(folder.as_str(), "waveforms");
    let project_file = path_join(folder.as_str(), "project.json");
    SaveLocations { project_folder: folder, waveforms_dir, project_file }
}

/// The locations of a project saved again to `project_file`: the folder
/// holding the file and the `waveforms` folder beside it.
pub fn existing_project_locations(project_file: &str) -> (r: SaveLocations)
    ensures
        r.project_folder@ == project_folder_spec(project_file@),
        r.waveforms_dir@ == spec_path_join(project_folder_spec(project_file@), "waveforms"@),
        r.project_file@ == project_file@,
{
    let folder = project_folder(project_file);
    let waveforms_dir = path_join(folder.as_str(), "waveforms");
    SaveLocations { project_folder: folder, waveforms_dir, project_file: project_file.to_owned() }
}

/// The home folder, or `.` when it is unknown.
pub open spec fn home_or_here(home: Option<Seq<char>>) -> Seq<char> {
    match home {
        Some(h) => h,
        None => "."@,
    }
}

fn home_text(home: Option<String>) -> (r: String)
    ensures
        r@ == home_or_here(
            match home {
                Some(h) => Some(h@),
                None => None,
            },
        ),
{
    match home {
        Some(h) => h,
        None => ".".to_owned(),
    }
}

/// The settings file: `.monlam/config.json` in the home folder (or in `.`).
pub fn get_config_path(home: Option<String>) -> (r: String)
    ensures
        r@ == spec_path_join(
            spec_path_join(
                home_or_here(
                    match home {
                        Some(h) => Some(h@),
                        None => None,
                    },
                ),
                ".monlam"@,
            ),
            "config.json"@,
        ),
{
    let h = home_text(home);
    let dir = path_join(h.as_str(), ".monlam");
    path_join(dir.as_str(), "config.json")
}

/// The file the waveform of `track_name` is saved to: `<track_name>.json` in
/// the project's `waveforms` folder.
pub fn waveform_file_path(project_path: &str, track_name: &str) -> (r: String)
    ensures
        r@ == spec_path_join(project_dir_spec(project_path@), track_name@ + ".json"@),
{
    let dir = get_project_dir(project_path);
    let file = concat_text(track_name, ".json");
    path_join(dir.as_str(), file.as_str())
}

/// `needle` occurs in `text` at position `i`.
pub open spec fn occurs_at(text: Seq<char>, needle: Seq<char>, i: int) -> bool {
    0 <= i && i + needle.len() <= text.len() && text.subrange(i, i + needle.len()) == needle
}

/// `needle` occurs somewhere in `text`.
pub open spec fn text_has(text: Seq<char>, needle: Seq<char>) -> bool {
    exists|i: int| occurs_at(text, needle, i)
}

/// Whether `needle` occurs in `text` (as `str::contains` with a `&str`).
pub fn text_contains(text: &str, needle: &str) -> (r: bool)
    ensures
        r == text_has(text@, needle@),
{
    let t = crate::text::chars_of(text);
    let p = crate::text::chars_of(needle);
    let n = t.len();
    let m = p.len();
    if m > n {
        proof {
            assert forall|i: int| !occurs_at(text@, needle@, i) by {}
        }
        return false;
    }
    let mut i: usize = 0;
    while i <= n - m
        invariant
            t@ == text@,
            p@ == needle@,
            n == t@.len(),
            m == p@.len(),
            m <= n,
            i <= n - m + 1,
            forall|k: int| 0 <= k < i ==> !occurs_at(text@, needle@, k),
        decreases n - m + 1 - i,
    {
        let mut j: usize = 0;
        while j < m && t[i + j] == p[j]
            invariant
                t@ == text@,
                p@ == needle@,
                n == t@.len(),
                m == p@.len(),
                i + m <= n,
                j <= m,
                forall|q: int| 0 <= q < j ==> t@[i + q] == p@[q],
            decreases m - j,
        {
            j = j + 1;
        }
        if j == m {
            assert(text@.subrange(i as int, i + m) =~= needle@);
            assert(occurs_at(text@, needle@, i as int));
            return true;
        }
        proof {
            assert(text@.subrange(i as int, i + m)[j as int] != needle@[j as int]);
        }
        i = i + 1;
    }
    proof {
        assert forall|k: int| !occurs_at(text@, needle@, k) by {
            if 0 <= k && k + m <= n {
                assert(k < i);
            }
        }
    }
    false
}

/// The name of the project folder two levels above a waveform file, or
/// `unnamed`.
pub open spec fn legacy_project_name(waveform_path: Seq<char>) -> Seq<char> {
    match spec_path_parent(waveform_path) {
        Some(dir) => match spec_path_parent(dir) {
            Some(project) => match spec_path_file_name(project) {
                Some(n) => n,
                None => "unnamed"@,
            },
            None => "unnamed"@,
        },
        None => "unnamed"@,
    }
}

/// Where a waveform stored in a project's `waveforms` folder was kept before:
/// `.monlam/projects/<project>/<file>` in the home folder. Only paths that
/// mention `waveforms` have such a place.
pub open spec fn legacy_waveform_path_spec(waveform_path: Seq<char>, home: Seq<char>) -> Seq<char> {
    let file = match spec_path_file_name(waveform_path) {
        Some(f) => f,
        None => Seq::empty(),
    };
    spec_path_join(
        spec_path_join(
            spec_path_join(spec_path_join(home, ".monlam"@), "projects"@),
            legacy_project_name(waveform_path),
        ),
        file,
    )
}

/// Where a waveform stored in a project's `waveforms` folder was kept before,
/// when its path mentions `waveforms`.
pub fn legacy_waveform_path(waveform_path: &str, home: Option<String>) -> (r: Option<String>)
    ensures
        !text_has(waveform_path@, "waveforms"@) ==> r is None,
        text_has(waveform_path@, "waveforms"@) ==> (r matches Some(p) && p@
            == legacy_waveform_path_spec(
            waveform_path@,
            home_or_here(
                match home {
                    Some(h) => Some(h@),
                    None => None,
                },
            ),
        )),
{
    if !text_contains(waveform_path, "waveforms") {
        return None;
    }
    let h = home_text(home);
    let file = match path_file_name(waveform_path) {
        Some(f) => f,
        None => String::new(),
    };
    let project_name = match path_parent(waveform_path) {
        Some(dir) => match path_parent(dir.as_str()) {
            Some(project) => match path_file_name(project.as_str()) {
                Some(n) => n,
                None => "unnamed".to_owned(),
            },
            None => "unnamed".to_owned(),
        },
        None => "unnamed".to_owned(),
    };
    let a = path_join(h.as_str(), ".monlam");
    let b = path_join(a.as_str(), "projects");
    let c = path_join(b.as_str(), project_name.as_str());
    Some(path_join(c.as_str(), file.as_str()))
}

/// A folder of the project folder, as read from disk.
pub struct FolderInfo {
    pub path: String,
    pub is_dir: bool,
    pub has_render: bool,
    pub has_state: bool,
}

/// A folder is taken for a group when it is a folder other than
/// `waveforms` that holds a render or a saved state, and has a name.
pub open spec fn is_group_folder(f: FolderInfo) -> bool {
    &&& f.is_dir
    &&& spec_path_file_name(f.path@) != Some("waveforms"@)
    &&& (f.has_render || f.has_state)
    &&& spec_path_file_name(f.path@) is Some
}

/// The group names found in `folders`, in order, each once, after `known`.
pub open spec fn found_groups(known: Seq<Seq<char>>, folders: Seq<FolderInfo>) -> Seq<Seq<char>>
    decreases folders.len(),
{
    if folders.len() == 0 {
        known
    } else {
        let before = found_groups(known, folders.drop_last());
        let f = folders.last();
        if is_group_folder(f) && !before.contains(spec_path_file_name(f.path@)->0) {
            before.push(spec_path_file_name(f.path@)->0)
        } else {
            before
        }
    }
}

/// The names in a list of texts.
pub open spec fn names_of(list: Seq<String>) -> Seq<Seq<char>> {
    list.map_values(|s: String| s@)
}

impl<M> Project<M> {
    /// When a loaded project knows no groups, take as groups the folders of
    /// the project folder that hold a render or a saved state, skipping the
    /// `waveforms` folder, each name once.
    pub fn register_found_groups(&mut self, folders: &Vec<FolderInfo>)
        ensures
            crate::project::project_well_formed(*old(self)) ==> crate::project::project_well_formed(*final(self)),
            final(self).tracks == old(self).tracks,
            final(self).tabs == old(self).tabs,
            final(self).active_tab_id == old(self).active_tab_id,
            final(self).is_playing == old(self).is_playing,
            *final(self) == (Project { audio_boxes: final(self).audio_boxes, ..*old(self) }),
            old(self).audio_boxes@.len() > 0 ==> final(self).audio_boxes == old(self).audio_boxes,
            old(self).audio_boxes@.len() == 0 ==> names_of(final(self).audio_boxes@)
                == found_groups(Seq::empty(), folders@),
    {
        if self.audio_boxes.len() > 0 {
            return;
        }
        let n = folders.len();
        let mut i: usize = 0;
        while i < n
            invariant
                n == folders@.len(),
                i <= n,
                self.tracks == old(self).tracks,
                self.tabs == old(self).tabs,
                self.active_tab_id == old(self).active_tab_id,
                self.is_playing == old(self).is_playing,
                self.next_track_id == old(self).next_track_id,
                *self == (Project { audio_boxes: self.audio_boxes, ..*old(self) }),
                names_of(self.audio_boxes@) == found_groups(
                    Seq::empty(),
                    folders@.take(i as int),
                ),
            decreases n - i,
        {
            let ghost before = names_of(self.audio_boxes@);
            proof {
                assert(folders@.take(i + 1).drop_last() =~= folders@.take(i as int));
                assert(folders@.take(i + 1).last() == folders@[i as int]);
            }
            let f = &folders[i];
            if f.is_dir && (f.has_render || f.has_state) {
                match path_file_name(f.path.as_str()) {
                    Some(name) => {
                        let is_waveforms = name == "waveforms".to_owned();
                        if !is_waveforms {
                            let known = text_index(&self.audio_boxes, &name);
                            proof {
                                assert(has_text(self.audio_boxes@, name@) == before.contains(
                                    name@,
                                )) by {
                                    if has_text(self.audio_boxes@, name@) {
                                        let k = choose|k: int|
                                            0 <= k < self.audio_boxes@.len()
                                                && self.audio_boxes@[k]@ == name@;
                                        assert(before[k] == name@);
                                    }
                                    if before.contains(name@) {
                                        let k = choose|k: int|
                                            0 <= k < before.len() && before[k] == name@;
                                        assert(self.audio_boxes@[k]@ == name@);
                                    }
                                }
                            }
                            if known.is_none() {
                                self.audio_boxes.push(name);
                                assert(names_of(self.audio_boxes@) =~= before.push(
                                    spec_path_file_name(f.path@)->0,
                                ));
                            }
                        }
                    },
                    None => {},
                }
            }
            i = i + 1;
        }
        assert(folders@.take(n as int) =~= folders@);
    }
}

} // verus!
