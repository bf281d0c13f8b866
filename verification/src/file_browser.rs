use vstd::prelude::*;
use crate::paths::{
    file_display_name, file_display_name_spec, is_supported_audio_file,
    is_supported_audio_file_spec, path_eq, path_parent, spec_path_eq, spec_path_parent,
    spec_to_lowercase, to_lowercase,
};
use crate::sorting::{is_stable_order, key_eq, key_lt, stable_order, SortKey};
use crate::text::text_lt;

verus! {

/// One entry of a folder as read from disk: its path and what it is.
pub struct DirItem {
    pub path: String,
    pub is_file: bool,
    pub is_dir: bool,
}

/// One row of the file browser: display name, path, whether it is an audio
/// file and whether it is a folder.
pub struct FileEntry {
    pub name: String,
    pub path: String,
    pub is_audio: bool,
    pub is_dir: bool,
}

impl Clone for FileEntry {
    fn clone(&self) -> (r: Self)
        ensures
            r == *self,
    {
        FileEntry {
            name: self.name.clone(),
            path: self.path.clone(),
            is_audio: self.is_audio,
            is_dir: self.is_dir,
        }
    }
}

/// The row shown for a folder entry: named by its last path component, an
/// audio file when it is a file with a supported extension.
pub open spec fn is_entry_for(e: FileEntry, item: DirItem) -> bool {
    &&& e.name@ == file_display_name_spec(item.path@)
    &&& e.path@ == item.path@
    &&& e.is_audio == (item.is_file && is_supported_audio_file_spec(item.path@))
    &&& e.is_dir == item.is_dir
}

/// Row `a` is listed before row `b`: folders first, then by lower-case name.
pub open spec fn entry_before(a: FileEntry, b: FileEntry) -> bool {
    (a.is_dir && !b.is_dir) || (a.is_dir == b.is_dir && text_lt(
        spec_to_lowercase(a.name@),
        spec_to_lowercase(b.name@),
    ))
}

/// Rows `a` and `b` have the same place in the order.
pub open spec fn entry_same_rank(a: FileEntry, b: FileEntry) -> bool {
    a.is_dir == b.is_dir && spec_to_lowercase(a.name@) == spec_to_lowercase(b.name@)
}

/// `files` lists the rows for `items` as a stable sort leaves them: each
/// item's row once, folders first, then by lower-case name, and rows of the
/// same rank in the order the items came.
pub open spec fn is_listing_of(items: Seq<DirItem>, files: Seq<FileEntry>) -> bool {
    exists|order: Seq<usize>|
        {
            &&& order.len() == items.len()
            &&& files.len() == items.len()
            &&& forall|k: int| 0 <= k < order.len() ==> order[k] < items.len()
            &&& forall|k: int, l: int|
                0 <= k < order.len() && 0 <= l < order.len() && k != l ==> order[k] != order[l]
            &&& forall|k: int|
                0 <= k < files.len() ==> is_entry_for(#[trigger] files[k], items[order[k] as int])
            &&& forall|k: int, l: int|
                0 <= k < l < files.len() ==> !entry_before(files[l], files[k])
            &&& forall|k: int, l: int|
                0 <= k < l < files.len() && entry_same_rank(files[k], files[l]) ==> order[k]
                    < order[l]
        }
}

/// The row shown for a folder entry.
pub fn entry_for(item: &DirItem) -> (r: FileEntry)
    ensures
        is_entry_for(r, *item),
{
    let name = file_display_name(item.path.as_str());
    let is_audio = if item.is_file {
        is_supported_audio_file(item.path.as_str())
    } else {
        false
    };
    FileEntry { name, path: item.path.clone(), is_audio, is_dir: item.is_dir }
}

/// The rows for a folder's entries: classified, folders first, then sorted by
/// lower-case name, keeping the read order among equal names.
pub fn scan_directory(items: &Vec<DirItem>) -> (r: Vec<FileEntry>)
    ensures
        is_listing_of(items@, r@),
{
    let n = items.len();
    let mut entries: Vec<FileEntry> = Vec::new();
    let mut keys: Vec<SortKey> = Vec::new();
    let mut i: usize = 0;
    while i < n
        invariant
            n == items@.len(),
            i <= n,
            entries@.len() == i,
            keys@.len() == i,
            forall|k: int| 0 <= k < i ==> is_entry_for(#[trigger] entries@[k], items@[k]),
            forall|k: int|
                0 <= k < i ==> (#[trigger] keys@[k]).first == entries@[k].is_dir
                    && keys@[k].name@ == spec_to_lowercase(entries@[k].name@),
        decreases n - i,
    {
        let e = entry_for(&items[i]);
        let lower = to_lowercase(e.name.as_str());
        keys.push(SortKey { first: e.is_dir, name: lower });
        entries.push(e);
        i = i + 1;
    }
    let order = stable_order(&keys);
    proof {
        assert forall|a: int, b: int| 0 <= a < n && 0 <= b < n implies (key_lt(
            keys@[a],
            keys@[b],
        ) == entry_before(entries@[a], entries@[b]) && key_eq(keys@[a], keys@[b])
            == entry_same_rank(entries@[a], entries@[b])) by {
            assert(keys@[a].first == entries@[a].is_dir);
            assert(keys@[b].first == entries@[b].is_dir);
        }
    }
    let mut out: Vec<FileEntry> = Vec::new();
    let mut j: usize = 0;
    while j < n
        invariant
            n == items@.len(),
            n == entries@.len(),
            n == keys@.len(),
            is_stable_order(keys@, order@),
            j <= n,
            out@.len() == j,
            forall|k: int| 0 <= k < j ==> out@[k] == entries@[order@[k] as int],
        decreases n - j,
    {
        out.push(entries[order[j]].clone());
        j = j + 1;
    }
    proof {
        let o = order@;
        let f = out@;
        assert forall|k: int| 0 <= k < f.len() implies is_entry_for(
            #[trigger] f[k],
            items@[o[k] as int],
        ) by {
            assert(f[k] == entries@[o[k] as int]);
        }
        assert forall|k: int, l: int| 0 <= k < l < f.len() implies !entry_before(f[l], f[k]) by {
            assert(f[k] == entries@[o[k] as int]);
            assert(f[l] == entries@[o[l] as int]);
            assert(key_lt(keys@[o[l] as int], keys@[o[k] as int]) == entry_before(
                entries@[o[l] as int],
                entries@[o[k] as int],
            ));
        }
        assert forall|k: int, l: int|
            0 <= k < l < f.len() && entry_same_rank(f[k], f[l]) implies o[k] < o[l] by {
            assert(f[k] == entries@[o[k] as int]);
            assert(f[l] == entries@[o[l] as int]);
            assert(key_eq(keys@[o[k] as int], keys@[o[l] as int]) == entry_same_rank(
                entries@[o[k] as int],
                entries@[o[l] as int],
            ));
        }
    }
    out
}

/// The folder a panel starts in: the project folder when it is an existing
/// folder, else the working folder.
pub open spec fn start_folder_spec(
    project_path: Option<Seq<char>>,
    project_is_dir: bool,
    working_dir: Seq<char>,
) -> Seq<char> {
    match project_path {
        Some(p) => if project_is_dir {
            p
        } else {
            working_dir
        },
        None => working_dir,
    }
}

/// The folder a panel starts in: the project folder when it is an existing
/// folder, else the working folder.
pub fn start_folder(project_path: Option<String>, project_is_dir: bool, working_dir: String) -> (r:
    String)
    ensures
        r@ == start_folder_spec(
            match project_path {
                Some(p) => Some(p@),
                None => None,
            },
            project_is_dir,
            working_dir@,
        ),
{
    match project_path {
        Some(p) => if project_is_dir {
            p
        } else {
            working_dir
        },
        None => working_dir,
    }
}

/// What `FileBrowserPanel::new` makes of a folder and its entries: a shown
/// panel on that folder listing the entries.
pub open spec fn is_new_browser(p: FileBrowserPanel, folder: Seq<char>, items: Seq<DirItem>) -> bool {
    &&& p.current_folder@ == folder
    &&& is_listing_of(items, p.files@)
    &&& p.show_panel
}

/// `b` is `a` after `refresh` with `items`: the entries are listed anew, the
/// folder and the shown state are kept.
pub open spec fn refreshed(a: FileBrowserPanel, items: Seq<DirItem>, b: FileBrowserPanel) -> bool {
    &&& b.current_folder == a.current_folder
    &&& b.show_panel == a.show_panel
    &&& is_listing_of(items, b.files@)
}

/// `b` is `a` after `navigate_to(path, ..)`: into `path` when it is a folder,
/// listing `items`; otherwise unchanged.
pub open spec fn navigated_to(
    a: FileBrowserPanel,
    path: Seq<char>,
    path_is_dir: bool,
    items: Seq<DirItem>,
    b: FileBrowserPanel,
) -> bool {
    if path_is_dir {
        &&& b.current_folder@ == path
        &&& is_listing_of(items, b.files@)
        &&& b.show_panel == a.show_panel
    } else {
        b == a
    }
}

/// `b` is `a` after `navigate_up` with `items`: into the parent folder,
/// listing `items`; unchanged at the top.
pub open spec fn navigated_up(a: FileBrowserPanel, items: Seq<DirItem>, b: FileBrowserPanel) -> bool {
    match spec_path_parent(a.current_folder@) {
        Some(p) => {
            &&& b.current_folder@ == p
            &&& is_listing_of(items, b.files@)
            &&& b.show_panel == a.show_panel
        },
        None => b == a,
    }
}

/// A call that changes a file browser panel, with its arguments.
pub enum BrowserCall {
    Refresh { items: Seq<DirItem> },
    NavigateTo { path: Seq<char>, path_is_dir: bool, items: Seq<DirItem> },
    NavigateUp { items: Seq<DirItem> },
}

/// `b` is what `call` makes of `a`.
pub open spec fn browser_call_result(a: FileBrowserPanel, call: BrowserCall, b: FileBrowserPanel) -> bool {
    match call {
        BrowserCall::Refresh { items } => refreshed(a, items, b),
        BrowserCall::NavigateTo { path, path_is_dir, items } => navigated_to(
            a,
            path,
            path_is_dir,
            items,
            b,
        ),
        BrowserCall::NavigateUp { items } => navigated_up(a, items, b),
    }
}

/// A panel that displays files in the current project folder.
/// Allows users to browse directories and drag audio files to the grid.
pub struct FileBrowserPanel {
    pub files: Vec<FileEntry>,
    pub current_folder: String,
    pub show_panel: bool,
}

impl FileBrowserPanel {
    /// A shown panel on `current_folder`, listing `items`, the entries read
    /// from that folder.
    pub fn new(current_folder: String, items: &Vec<DirItem>) -> (r: Self)
        ensures
            is_new_browser(r, current_folder@, items@),
    {
        FileBrowserPanel { files: scan_directory(items), current_folder, show_panel: true }
    }

    /// List `items`, the entries just read from the current folder.
    pub fn refresh(&mut self, items: &Vec<DirItem>)
        ensures
            refreshed(*old(self), items@, *final(self)),
    {
        self.files = scan_directory(items);
    }

    /// Go into `path` when it is a folder, listing `items`, its entries;
    /// otherwise nothing changes.
    pub fn navigate_to(&mut self, path: String, path_is_dir: bool, items: &Vec<DirItem>)
        ensures
            navigated_to(*old(self), path@, path_is_dir, items@, *final(self)),
    {
        if path_is_dir {
            self.current_folder = path;
            self.refresh(items);
        }
    }

    /// The folder above the current one, if there is one.
    pub fn parent_folder(&self) -> (r: Option<String>)
        ensures
            r is Some <==> spec_path_parent(self.current_folder@) is Some,
            r matches Some(p) ==> p@ == spec_path_parent(self.current_folder@)->0,
    {
        path_parent(self.current_folder.as_str())
    }

    /// Go up to the parent folder, listing `items`, its entries; nothing
    /// changes at the top.
    pub fn navigate_up(&mut self, items: &Vec<DirItem>)
        ensures
            navigated_up(*old(self), items@, *final(self)),
    {
        match self.parent_folder() {
            Some(parent) => {
                self.current_folder = parent;
                self.refresh(items);
            },
            None => {},
        }
    }

    /// Whether the panel is shown.
    pub fn get_show_panel(&self) -> (r: bool)
        ensures
            r == self.show_panel,
    {
        self.show_panel
    }

    /// Check if the given path matches the current folder.
    pub fn is_current_folder(&self, path: &str) -> (r: bool)
        ensures
            r == spec_path_eq(self.current_folder@, path@),
            self.current_folder@ == path@ ==> r,
    {
        path_eq(self.current_folder.as_str(), path)
    }
}

/// A file browser panel stays shown: after `new`, any sequence of
/// `refresh`, `navigate_to` and `navigate_up` calls leaves `show_panel`
/// true, so `get_show_panel` answers true at every step.
pub proof fn lemma_browser_stays_shown(
    folder: Seq<char>,
    items: Seq<DirItem>,
    calls: Seq<BrowserCall>,
    states: Seq<FileBrowserPanel>,
)
    requires
        states.len() == calls.len() + 1,
        is_new_browser(states[0], folder, items),
        forall|i: int|
            0 <= i < calls.len() ==> browser_call_result(
                #[trigger] states[i],
                calls[i],
                states[i + 1],
            ),
    ensures
        forall|i: int| 0 <= i < states.len() ==> (#[trigger] states[i]).show_panel,
    decreases calls.len(),
{
    if calls.len() > 0 {
        let n = calls.len() - 1;
        lemma_browser_stays_shown(folder, items, calls.take(n), states.take(n + 1));
        assert(states.take(n + 1)[n] == states[n]);
        assert(browser_call_result(states[n], calls[n], states[n + 1]));
        assert forall|i: int| 0 <= i < states.len() implies (#[trigger] states[i]).show_panel by {
            if i <= n {
                assert(states.take(n + 1)[i] == states[i]);
            }
        }
    }
}

} // verus!
