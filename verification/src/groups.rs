use vstd::prelude::*;
use crate::paths::{
    file_display_name, file_display_name_spec, is_blank, is_blank_spec, path_eq, path_join,
    spec_is_whitespace, spec_path_eq, spec_path_join, text_contains_char,
};
use crate::named::Named;
use crate::text::concat_text;

verus! {

/// Why a group cannot be created or renamed.
#[derive(Debug, Clone, Copy, PartialEq, Eq, Structural)]
pub enum GroupError {
    /// The name holds a `/`.
    NameHasSlash,
    /// The name is empty or only whitespace.
    NameEmpty,
    /// Another group already has the name.
    NameTaken,
}

impl GroupError {
    /// The message shown for the error, for a group named `name`.
    pub fn message(&self, name: &str) -> (r: String)
        ensures
            *self == GroupError::NameHasSlash ==> r@ == "Group name cannot contain '/'"@,
            *self == GroupError::NameEmpty ==> r@ == "Group name cannot be empty"@,
            *self == GroupError::NameTaken ==> r@ == "A Group with name '"@ + name@
                + "' already exists"@,
    {
        match self {
            GroupError::NameHasSlash => "Group name cannot contain '/'".to_owned(),
            GroupError::NameEmpty => "Group name cannot be empty".to_owned(),
            GroupError::NameTaken => {
                let head = concat_text("A Group with name '", name);
                concat_text(head.as_str(), "' already exists")
            },
        }
    }
}

/// Where a group lives: its name, its folder and its rendered audio file.
pub struct GroupDir {
    pub name: String,
    pub path: String,
    pub render_path: String,
}

impl Clone for GroupDir {
    fn clone(&self) -> (r: Self)
        ensures
            r == *self,
    {
        GroupDir {
            name: self.name.clone(),
            path: self.path.clone(),
            render_path: self.render_path.clone(),
        }
    }
}

impl Named for GroupDir {
    open spec fn name_view(&self) -> Seq<char> {
        self.name@
    }

    fn entry_name(&self) -> (r: &String) {
        &self.name
    }

    fn duplicate(&self) -> (r: Self) {
        self.clone()
    }
}

/// The name check that creating or renaming a group makes.
pub open spec fn group_name_check(name: Seq<char>) -> Result<(), GroupError> {
    if name.contains('/') {
        Err(GroupError::NameHasSlash)
    } else if is_blank_spec(name) {
        Err(GroupError::NameEmpty)
    } else {
        Ok(())
    }
}

/// Which names a group may have: a name with a `/` is refused for the slash;
/// otherwise a name with a character that is not whitespace is accepted,
/// spaces and all, and only a name made of whitespace alone (or empty) is
/// refused as empty.
pub proof fn lemma_group_name_check(name: Seq<char>)
    ensures
        name.contains('/') ==> group_name_check(name) == Err::<(), GroupError>(
            GroupError::NameHasSlash,
        ),
        !name.contains('/') && (exists|i: int|
            0 <= i < name.len() && !spec_is_whitespace(#[trigger] name[i]))
            ==> group_name_check(name) == Ok::<(), GroupError>(()),
        !name.contains('/') && (forall|i: int|
            0 <= i < name.len() ==> spec_is_whitespace(#[trigger] name[i]))
            ==> group_name_check(name) == Err::<(), GroupError>(GroupError::NameEmpty),
{
}

/// Check a group name: it must not hold a `/`, and it must not be blank.
pub fn validate_group_name(name: &str) -> (r: Result<(), GroupError>)
    ensures
        r == group_name_check(name@),
        name@.contains('/') ==> r == Err::<(), GroupError>(GroupError::NameHasSlash),
        !name@.contains('/') && (exists|i: int| 0 <= i < name@.len() && !spec_is_whitespace(
            #[trigger] name@[i],
        )) ==> r is Ok,
        !name@.contains('/') && (forall|i: int| 0 <= i < name@.len() ==> spec_is_whitespace(
            #[trigger] name@[i],
        )) ==> r == Err::<(), GroupError>(GroupError::NameEmpty),
{
    proof {
        lemma_group_name_check(name@);
    }
    if text_contains_char(name, '/') {
        Err(GroupError::NameHasSlash)
    } else if is_blank(name) {
        Err(GroupError::NameEmpty)
    } else {
        Ok(())
    }
}

/// The folder of the group `name` in `project_dir`, and its render file.
pub open spec fn is_group_dir(g: GroupDir, name: Seq<char>, folder: Seq<char>) -> bool {
    &&& g.name@ == name
    &&& g.path@ == folder
    &&& g.render_path@ == spec_path_join(folder, "render.wav"@)
}

/// The group folder `folder`, named by its last component (or `Unknown`),
/// with its render file.
pub fn group_at(folder: &str) -> (r: GroupDir)
    ensures
        is_group_dir(r, file_display_name_spec(folder@), folder@),
{
    GroupDir {
        name: file_display_name(folder),
        path: folder.to_owned(),
        render_path: path_join(folder, "render.wav"),
    }
}

/// The folder the group `name` gets in `project_dir`, with its render file.
pub fn group_location(name: &str, project_dir: &str) -> (r: GroupDir)
    ensures
        is_group_dir(r, name@, spec_path_join(project_dir@, name@)),
{
    let folder = path_join(project_dir, name);
    GroupDir {
        name: name.to_owned(),
        render_path: path_join(folder.as_str(), "render.wav"),
        path: folder,
    }
}

/// Decide on creating the group `name` in `project_dir`, given whether its
/// folder already exists: the name is checked first, then the folder must be
/// new. On success the group's location is returned and its folder can be
/// made.
pub fn plan_group_creation(name: &str, project_dir: &str, folder_exists: bool) -> (r: Result<
    GroupDir,
    GroupError,
>)
    ensures
        group_name_check(name@) matches Err(e) ==> (r matches Err(f) && f == e),
        group_name_check(name@) is Ok && folder_exists ==> (r matches Err(f) && f
            == GroupError::NameTaken),
        group_name_check(name@) is Ok && !folder_exists ==> (r matches Ok(g) && is_group_dir(
            g,
            name@,
            spec_path_join(project_dir@, name@),
        )),
{
    match validate_group_name(name) {
        Err(e) => Err(e),
        Ok(()) => {
            if folder_exists {
                Err(GroupError::NameTaken)
            } else {
                Ok(group_location(name, project_dir))
            }
        },
    }
}

/// Decide on renaming the group in `current_path` to `new_name` in
/// `project_dir`, given whether the new folder already exists: the name is
/// checked first, then the new folder must be new or be the group's own. On
/// success the group's new location is returned and the folder can be moved.
pub fn plan_group_rename(
    current_path: &str,
    new_name: &str,
    project_dir: &str,
    folder_exists: bool,
) -> (r: Result<GroupDir, GroupError>)
    ensures
        group_name_check(new_name@) matches Err(e) ==> (r matches Err(f) && f == e),
        group_name_check(new_name@) is Ok ==> {
            let target = spec_path_join(project_dir@, new_name@);
            if folder_exists && !spec_path_eq(target, current_path@) {
                r matches Err(f) && f == GroupError::NameTaken
            } else {
                r matches Ok(g) && is_group_dir(g, new_name@, target)
            }
        },
{
    match validate_group_name(new_name) {
        Err(e) => Err(e),
        Ok(()) => {
            let g = group_location(new_name, project_dir);
            if folder_exists && !path_eq(g.path.as_str(), current_path) {
                Err(GroupError::NameTaken)
            } else {
                Ok(g)
            }
        },
    }
}

} // verus!
