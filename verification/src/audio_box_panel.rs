use vstd::prelude::*;
use crate::paths::{is_blank, is_blank_spec, spec_is_whitespace, path_eq, spec_path_eq, text_contains_char};
use crate::named::{is_name_listing, sort_by_name, Named};

verus! {

/// A box: a named folder of audio in the project folder.
pub struct AudioBox {
    pub name: String,
    pub path: String,
}

impl Clone for AudioBox {
    fn clone(&self) -> (r: Self)
        ensures
            r == *self,
    {
        AudioBox { name: self.name.clone(), path: self.path.clone() }
    }
}

impl Named for AudioBox {
    open spec fn name_view(&self) -> Seq<char> {
        self.name@
    }

    fn entry_name(&self) -> (r: &String) {
        &self.name
    }

    fn duplicate(&self) -> (r: Self) {
        self.clone()
    }
}

/// A name a box can be given: not blank and without a `/`.
pub open spec fn is_valid_box_name_spec(name: Seq<char>) -> bool {
    !is_blank_spec(name) && !name.contains('/')
}

/// Whether a box can be given this name: not blank and without a `/`.
pub fn is_valid_box_name(name: &str) -> (r: bool)
    ensures
        r == is_valid_box_name_spec(name@),
        r <==> !name@.contains('/') && exists|i: int|
            0 <= i < name@.len() && !spec_is_whitespace(#[trigger] name@[i]),
{
    proof {
        lemma_valid_box_name(name@);
    }
    !is_blank(name) && !text_contains_char(name, '/')
}

/// A box or group entry may be given exactly the names without a `/` that
/// have a character that is not whitespace: spaces inside a name are fine.
pub proof fn lemma_valid_box_name(name: Seq<char>)
    ensures
        is_valid_box_name_spec(name) <==> !name.contains('/') && exists|i: int|
            0 <= i < name.len() && !spec_is_whitespace(#[trigger] name[i]),
{
}

/// A panel that displays and manages Boxes (audio containers).
pub struct AudioBoxPanel {
    pub boxes: Vec<AudioBox>,
    pub current_folder: String,
    pub show_panel: bool,
    pub selected_box_idx: Option<usize>,
    pub renaming_box_idx: Option<usize>,
    pub new_name_buffer: String,
    pub new_box_name: String,
    pub show_create_dialog: bool,
}

/// The selection refers to an existing box, or to none.
pub open spec fn selection_in_range(selected: Option<usize>, len: nat) -> bool {
    selected matches Some(i) ==> i < len
}

impl AudioBoxPanel {
    /// A shown panel on `current_folder` listing `boxes`, the boxes loaded
    /// from that folder, with nothing selected, renamed or being created.
    pub fn new(current_folder: String, boxes: &Vec<AudioBox>) -> (r: Self)
        ensures
            r.current_folder == current_folder,
            is_name_listing(boxes@, r.boxes@),
            r.show_panel,
            r.selected_box_idx is None,
            r.renaming_box_idx is None,
            r.new_name_buffer@.len() == 0,
            r.new_box_name@.len() == 0,
            !r.show_create_dialog,
    {
        AudioBoxPanel {
            boxes: sort_by_name(boxes),
            current_folder,
            show_panel: true,
            selected_box_idx: None,
            renaming_box_idx: None,
            new_name_buffer: String::new(),
            new_box_name: String::new(),
            show_create_dialog: false,
        }
    }

    /// Refresh the Box list with `boxes`, the boxes just loaded from the
    /// current folder; nothing else changes.
    pub fn refresh(&mut self, boxes: &Vec<AudioBox>)
        ensures
            is_name_listing(boxes@, final(self).boxes@),
            *final(self) == (AudioBoxPanel { boxes: final(self).boxes, ..*old(self) }),
    {
        self.boxes = sort_by_name(boxes);
    }

    /// Show or hide the panel.
    pub fn set_show_panel(&mut self, show: bool)
        ensures
            *final(self) == (AudioBoxPanel { show_panel: show, ..*old(self) }),
    {
        self.show_panel = show;
    }

    /// Whether the panel is shown.
    pub fn get_show_panel(&self) -> (r: bool)
        ensures
            r == self.show_panel,
    {
        self.show_panel
    }

    /// Check if the given path matches the current folder.
    pub fn is_current_folder(&self, path: &str) -> (r: bool)
        ensures
            r == spec_path_eq(self.current_folder@, path@),
            self.current_folder@ == path@ ==> r,
    {
        path_eq(self.current_folder.as_str(), path)
    }

    /// Move to `path` when it is an existing folder, listing `boxes`, the
    /// boxes loaded from it; otherwise nothing changes.
    pub fn set_current_folder(&mut self, path: &str, path_is_dir: bool, boxes: &Vec<AudioBox>)
        ensures
            path_is_dir ==> {
                &&& final(self).current_folder@ == path@
                &&& is_name_listing(boxes@, final(self).boxes@)
                &&& *final(self) == (AudioBoxPanel {
                    boxes: final(self).boxes,
                    current_folder: final(self).current_folder,
                    ..*old(self)
                })
            },
            !path_is_dir ==> *final(self) == *old(self),
    {
        if path_is_dir {
            self.current_folder = path.to_owned();
            self.refresh(boxes);
        }
    }

    /// Open the dialog that creates a box, with an empty name.
    pub fn open_create_dialog(&mut self)
        ensures
            final(self).new_box_name@.len() == 0,
            *final(self) == (AudioBoxPanel {
                show_create_dialog: true,
                new_box_name: final(self).new_box_name,
                ..*old(self)
            }),
    {
        self.show_create_dialog = true;
        self.new_box_name = String::new();
    }

    /// The name typed in the create dialog, when a box may be created with
    /// it: not blank and without a `/`.
    pub fn creation_request(&self) -> (r: Option<String>)
        ensures
            is_valid_box_name_spec(self.new_box_name@) ==> r == Some(self.new_box_name),
            !is_valid_box_name_spec(self.new_box_name@) ==> r is None,
    {
        if is_valid_box_name(self.new_box_name.as_str()) {
            Some(self.new_box_name.clone())
        } else {
            None
        }
    }

    /// The box the dialog was asked to create was created: list it and close
    /// the dialog with an empty name.
    pub fn box_created(&mut self, created: AudioBox)
        ensures
            final(self).boxes@ == old(self).boxes@.push(created),
            final(self).new_box_name@.len() == 0,
            *final(self) == (AudioBoxPanel {
                boxes: final(self).boxes,
                show_create_dialog: false,
                new_box_name: final(self).new_box_name,
                ..*old(self)
            }),
    {
        self.boxes.push(created);
        self.show_create_dialog = false;
        self.new_box_name = String::new();
    }

    /// Start renaming the box at position `i`, with its name in the edit
    /// buffer.
    pub fn begin_rename(&mut self, i: usize)
        requires
            i < old(self).boxes@.len(),
        ensures
            *final(self) == (AudioBoxPanel {
                renaming_box_idx: Some(i),
                new_name_buffer: old(self).boxes@[i as int].name,
                ..*old(self)
            }),
    {
        self.renaming_box_idx = Some(i);
        self.new_name_buffer = self.boxes[i].name.clone();
    }

    /// End renaming the box at position `i`: renaming stops, and the rename to
    /// carry out is returned when the edited name is valid.
    pub fn commit_rename(&mut self, i: usize) -> (r: Option<(usize, String)>)
        ensures
            *final(self) == (AudioBoxPanel { renaming_box_idx: None, ..*old(self) }),
            is_valid_box_name_spec(old(self).new_name_buffer@) ==> r == Some(
                (i, old(self).new_name_buffer),
            ),
            !is_valid_box_name_spec(old(self).new_name_buffer@) ==> r is None,
    {
        self.renaming_box_idx = None;
        if is_valid_box_name(self.new_name_buffer.as_str()) {
            Some((i, self.new_name_buffer.clone()))
        } else {
            None
        }
    }

    /// The box at position `i` was renamed on disk: replace it with `renamed`.
    pub fn box_renamed(&mut self, i: usize, renamed: AudioBox)
        ensures
            i < old(self).boxes@.len() ==> final(self).boxes@ == old(self).boxes@.update(
                i as int,
                renamed,
            ),
            i >= old(self).boxes@.len() ==> final(self).boxes == old(self).boxes,
            *final(self) == (AudioBoxPanel { boxes: final(self).boxes, ..*old(self) }),
    {
        if i < self.boxes.len() {
            self.boxes.set(i, renamed);
        }
    }

    /// The box at position `i` was deleted on disk: drop it from the list; the
    /// selection is cleared when it was that box or falls past the end.
    pub fn box_deleted(&mut self, i: usize)
        ensures
            i < old(self).boxes@.len() ==> {
                &&& final(self).boxes@ == old(self).boxes@.remove(i as int)
                &&& final(self).selected_box_idx == match old(self).selected_box_idx {
                    Some(s) => if s == i || s >= final(self).boxes@.len() {
                        None
                    } else {
                        Some(s)
                    },
                    None => None,
                }
            },
            i >= old(self).boxes@.len() ==> *final(self) == *old(self),
            *final(self) == (AudioBoxPanel {
                boxes: final(self).boxes,
                selected_box_idx: final(self).selected_box_idx,
                ..*old(self)
            }),
            selection_in_range(old(self).selected_box_idx, old(self).boxes@.len())
                ==> selection_in_range(final(self).selected_box_idx, final(self).boxes@.len()),
    {
        if i < self.boxes.len() {
            self.boxes.remove(i);
            match self.selected_box_idx {
                Some(selected) => {
                    if selected == i || selected >= self.boxes.len() {
                        self.selected_box_idx = None;
                    }
                },
                None => {},
            }
        }
    }
}

/// Deleting a box keeps a valid selection valid.
pub proof fn lemma_box_deleted_keeps_selection_valid(
    selected: Option<usize>,
    len: nat,
    i: usize,
)
    requires
        selection_in_range(selected, len),
        i < len,
    ensures
        selection_in_range(
            match selected {
                Some(s) => if s == i || s >= (len - 1) as nat {
                    None
                } else {
                    Some(s)
                },
                None => None,
            },
            (len - 1) as nat,
        ),
{
}

} // verus!
