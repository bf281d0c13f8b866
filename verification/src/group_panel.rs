use vstd::prelude::*;
use crate::audio_box_panel::{is_valid_box_name, is_valid_box_name_spec, selection_in_range};
use crate::groups::GroupDir;
use crate::named::{is_name_listing, sort_by_name};
use crate::paths::{path_eq, spec_path_eq};

verus! {

/// A panel that displays and manages Groups (audio containers).
pub struct GroupPanel {
    pub groups: Vec<GroupDir>,
    pub current_folder: String,
    pub selected_group_idx: Option<usize>,
    pub renaming_group_idx: Option<usize>,
    pub new_name_buffer: String,
    pub new_group_name: String,
    pub show_create_dialog: bool,
}

impl GroupPanel {
    /// A panel on `current_folder` listing `groups`, the groups loaded from
    /// that folder, with nothing selected, renamed or being created.
    pub fn new(current_folder: String, groups: &Vec<GroupDir>) -> (r: Self)
        ensures
            r.current_folder == current_folder,
            is_name_listing(groups@, r.groups@),
            r.selected_group_idx is None,
            r.renaming_group_idx is None,
            r.new_name_buffer@.len() == 0,
            r.new_group_name@.len() == 0,
            !r.show_create_dialog,
    {
        GroupPanel {
            groups: sort_by_name(groups),
            current_folder,
            selected_group_idx: None,
            renaming_group_idx: None,
            new_name_buffer: String::new(),
            new_group_name: String::new(),
            show_create_dialog: false,
        }
    }

    /// Refresh the Group list with `groups`, the groups just loaded from the
    /// current folder; nothing else changes.
    pub fn refresh(&mut self, groups: &Vec<GroupDir>)
        ensures
            is_name_listing(groups@, final(self).groups@),
            *final(self) == (GroupPanel { groups: final(self).groups, ..*old(self) }),
    {
        self.groups = sort_by_name(groups);
    }

    /// Check if the given path matches the current folder.
    pub fn is_current_folder(&self, path: &str) -> (r: bool)
        ensures
            r == spec_path_eq(self.current_folder@, path@),
            self.current_folder@ == path@ ==> r,
    {
        path_eq(self.current_folder.as_str(), path)
    }

    /// Move to `path` when it is an existing folder, listing `groups`, the
    /// groups loaded from it; otherwise nothing changes.
    pub fn set_current_folder(&mut self, path: &str, path_is_dir: bool, groups: &Vec<GroupDir>)
        ensures
            path_is_dir ==> {
                &&& final(self).current_folder@ == path@
                &&& is_name_listing(groups@, final(self).groups@)
                &&& *final(self) == (GroupPanel {
                    groups: final(self).groups,
                    current_folder: final(self).current_folder,
                    ..*old(self)
                })
            },
            !path_is_dir ==> *final(self) == *old(self),
    {
        if path_is_dir {
            self.current_folder = path.to_owned();
            self.refresh(groups);
        }
    }

    /// Open the dialog that creates a group, with an empty name.
    pub fn open_create_dialog(&mut self)
        ensures
            final(self).new_group_name@.len() == 0,
            *final(self) == (GroupPanel {
                show_create_dialog: true,
                new_group_name: final(self).new_group_name,
                ..*old(self)
            }),
    {
        self.show_create_dialog = true;
        self.new_group_name = String::new();
    }

    /// The name typed in the create dialog, when a group may be created with
    /// it: not blank and without a `/`.
    pub fn creation_request(&self) -> (r: Option<String>)
        ensures
            is_valid_box_name_spec(self.new_group_name@) ==> r == Some(self.new_group_name),
            !is_valid_box_name_spec(self.new_group_name@) ==> r is None,
    {
        if is_valid_box_name(self.new_group_name.as_str()) {
            Some(self.new_group_name.clone())
        } else {
            None
        }
    }

    /// The group the dialog asked for was created: list it and close the
    /// dialog with an empty name.
    pub fn group_created(&mut self, created: GroupDir)
        ensures
            final(self).groups@ == old(self).groups@.push(created),
            final(self).new_group_name@.len() == 0,
            *final(self) == (GroupPanel {
                groups: final(self).groups,
                show_create_dialog: false,
                new_group_name: final(self).new_group_name,
                ..*old(self)
            }),
    {
        self.groups.push(created);
        self.show_create_dialog = false;
        self.new_group_name = String::new();
    }

    /// Start renaming the group at position `i`, with its name in the edit
    /// buffer.
    pub fn begin_rename(&mut self, i: usize)
        requires
            i < old(self).groups@.len(),
        ensures
            *final(self) == (GroupPanel {
                renaming_group_idx: Some(i),
                new_name_buffer: old(self).groups@[i as int].name,
                ..*old(self)
            }),
    {
        self.renaming_group_idx = Some(i);
        self.new_name_buffer = self.groups[i].name.clone();
    }

    /// End renaming the group at position `i`: renaming stops, and the rename
    /// to carry out is returned when the edited name is valid.
    pub fn commit_rename(&mut self, i: usize) -> (r: Option<(usize, String)>)
        ensures
            *final(self) == (GroupPanel { renaming_group_idx: None, ..*old(self) }),
            is_valid_box_name_spec(old(self).new_name_buffer@) ==> r == Some(
                (i, old(self).new_name_buffer),
            ),
            !is_valid_box_name_spec(old(self).new_name_buffer@) ==> r is None,
    {
        self.renaming_group_idx = None;
        if is_valid_box_name(self.new_name_buffer.as_str()) {
            Some((i, self.new_name_buffer.clone()))
        } else {
            None
        }
    }

    /// The group at position `i` was renamed on disk: replace it with
    /// `renamed`.
    pub fn group_renamed(&mut self, i: usize, renamed: GroupDir)
        ensures
            i < old(self).groups@.len() ==> final(self).groups@ == old(self).groups@.update(
                i as int,
                renamed,
            ),
            i >= old(self).groups@.len() ==> final(self).groups == old(self).groups,
            *final(self) == (GroupPanel { groups: final(self).groups, ..*old(self) }),
    {
        if i < self.groups.len() {
            self.groups.set(i, renamed);
        }
    }

    /// The group at position `i` was deleted on disk: drop it from the list;
    /// the selection is cleared when it was that group or falls past the end.
    pub fn group_deleted(&mut self, i: usize)
        ensures
            i < old(self).groups@.len() ==> {
                &&& final(self).groups@ == old(self).groups@.remove(i as int)
                &&& final(self).selected_group_idx == match old(self).selected_group_idx {
                    Some(s) => if s == i || s >= final(self).groups@.len() {
                        None
                    } else {
                        Some(s)
                    },
                    None => None,
                }
            },
            i >= old(self).groups@.len() ==> *final(self) == *old(self),
            *final(self) == (GroupPanel {
                groups: final(self).groups,
                selected_group_idx: final(self).selected_group_idx,
                ..*old(self)
            }),
            selection_in_range(old(self).selected_group_idx, old(self).groups@.len())
                ==> selection_in_range(final(self).selected_group_idx, final(self).groups@.len()),
    {
        if i < self.groups.len() {
            self.groups.remove(i);
            match self.selected_group_idx {
                Some(selected) => {
                    if selected == i || selected >= self.groups.len() {
                        self.selected_group_idx = None;
                    }
                },
                None => {},
            }
        }
    }
}

} // verus!
