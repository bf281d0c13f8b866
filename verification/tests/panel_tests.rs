use monlam::audio_box_panel::{is_valid_box_name, AudioBox, AudioBoxPanel};
use monlam::group_panel::GroupPanel;
use monlam::groups::{group_at, GroupDir};
use monlam::named::sort_by_name;
use monlam::file_browser::{scan_directory, start_folder, DirItem, FileBrowserPanel};

fn item(path: &str, is_file: bool, is_dir: bool) -> DirItem {
    DirItem { path: path.to_string(), is_file, is_dir }
}

#[test]
fn folders_come_first_then_names_ignoring_case() {
    let items = vec![
        item("/p/zeta.wav", true, false),
        item("/p/Beta", false, true),
        item("/p/alpha.txt", true, false),
        item("/p/Alpha", false, true),
        item("/p/gamma.MP3", true, false),
    ];
    let files = scan_directory(&items);
    let names: Vec<&str> = files.iter().map(|f| f.name.as_str()).collect();
    assert_eq!(names, vec!["Alpha", "Beta", "alpha.txt", "gamma.MP3", "zeta.wav"]);
    assert!(files[0].is_dir && files[1].is_dir);
    assert!(!files[2].is_audio);
    assert!(files[3].is_audio);
    assert!(files[4].is_audio);
    assert_eq!(files[4].path, "/p/zeta.wav");
}

#[test]
fn equal_names_keep_their_read_order() {
    let items = vec![item("/a/Take.wav", true, false), item("/b/take.wav", true, false)];
    let files = scan_directory(&items);
    assert_eq!(files[0].path, "/a/Take.wav");
    assert_eq!(files[1].path, "/b/take.wav");
    let items = vec![item("/b/take.wav", true, false), item("/a/Take.wav", true, false)];
    let files = scan_directory(&items);
    assert_eq!(files[0].path, "/b/take.wav");
}

#[test]
fn folders_named_like_audio_are_not_audio() {
    let files = scan_directory(&vec![item("/p/loops.wav", false, true)]);
    assert!(files[0].is_dir);
    assert!(!files[0].is_audio);
}

#[test]
fn browser_navigation() {
    let mut panel = FileBrowserPanel::new("/home/u".to_string(), &vec![item("/home/u/a.wav", true, false)]);
    assert!(panel.get_show_panel());
    assert_eq!(panel.files.len(), 1);
    assert!(panel.is_current_folder("/home/u"));
    assert!(panel.is_current_folder("/home/u/"));
    assert!(!panel.is_current_folder("/home"));
    panel.navigate_to("/home/u/a.wav".to_string(), false, &vec![]);
    assert!(panel.is_current_folder("/home/u"));
    assert_eq!(panel.files.len(), 1);
    panel.navigate_to("/home/u/sub".to_string(), true, &vec![]);
    assert_eq!(panel.current_folder, "/home/u/sub");
    assert!(panel.files.is_empty());
    assert_eq!(panel.parent_folder().as_deref(), Some("/home/u"));
    panel.navigate_up(&vec![item("/home/u/b", false, true)]);
    assert_eq!(panel.current_folder, "/home/u");
    assert_eq!(panel.files[0].name, "b");
    panel.navigate_up(&vec![]);
    panel.navigate_up(&vec![]);
    assert_eq!(panel.current_folder, "/");
    panel.navigate_up(&vec![item("/x", false, true)]);
    assert_eq!(panel.current_folder, "/");
    assert!(panel.files.is_empty());
    panel.refresh(&vec![item("/etc", false, true)]);
    assert_eq!(panel.files.len(), 1);
}

#[test]
fn start_folder_falls_back_to_working_dir() {
    assert_eq!(start_folder(Some("/proj".to_string()), true, "/cwd".to_string()), "/proj");
    assert_eq!(start_folder(Some("/proj".to_string()), false, "/cwd".to_string()), "/cwd");
    assert_eq!(start_folder(None, true, "/cwd".to_string()), "/cwd");
}

fn abox(name: &str) -> AudioBox {
    AudioBox { name: name.to_string(), path: format!("/p/{}", name) }
}

#[test]
fn boxes_are_sorted_by_lower_case_name() {
    let sorted = sort_by_name(&vec![abox("drums"), abox("Bass"), abox("arp")]);
    let names: Vec<&str> = sorted.iter().map(|b| b.name.as_str()).collect();
    assert_eq!(names, vec!["arp", "Bass", "drums"]);
}

#[test]
fn box_names_must_be_non_blank_without_slash() {
    assert!(is_valid_box_name("drums"));
    assert!(is_valid_box_name(" my box "));
    assert!(!is_valid_box_name(""));
    assert!(!is_valid_box_name("   "));
    assert!(!is_valid_box_name("a/b"));
}

#[test]
fn box_panel_editing() {
    let mut panel = AudioBoxPanel::new("/p".to_string(), &vec![abox("b"), abox("a"), abox("c")]);
    assert!(panel.get_show_panel());
    panel.set_show_panel(false);
    assert!(!panel.get_show_panel());
    assert!(panel.is_current_folder("/p"));
    assert_eq!(panel.boxes[0].name, "a");
    panel.open_create_dialog();
    assert!(panel.show_create_dialog);
    assert_eq!(panel.creation_request(), None);
    panel.new_box_name = "d".to_string();
    assert_eq!(panel.creation_request(), Some("d".to_string()));
    panel.box_created(abox("d"));
    assert!(!panel.show_create_dialog);
    assert_eq!(panel.boxes.len(), 4);
    panel.begin_rename(0);
    assert_eq!(panel.new_name_buffer, "a");
    panel.new_name_buffer = "x/y".to_string();
    assert_eq!(panel.commit_rename(0), None);
    assert_eq!(panel.renaming_box_idx, None);
    panel.begin_rename(0);
    panel.new_name_buffer = "aa".to_string();
    assert_eq!(panel.commit_rename(0), Some((0, "aa".to_string())));
    panel.box_renamed(0, abox("aa"));
    assert_eq!(panel.boxes[0].name, "aa");
    panel.box_renamed(10, abox("zz"));
    assert_eq!(panel.boxes.len(), 4);
    panel.selected_box_idx = Some(3);
    panel.box_deleted(1);
    assert_eq!(panel.boxes.len(), 3);
    assert_eq!(panel.selected_box_idx, None);
    panel.selected_box_idx = Some(0);
    panel.box_deleted(2);
    assert_eq!(panel.selected_box_idx, Some(0));
    panel.box_deleted(0);
    assert_eq!(panel.selected_box_idx, None);
    panel.set_current_folder("/q", false, &vec![]);
    assert_eq!(panel.current_folder, "/p");
    panel.set_current_folder("/q", true, &vec![abox("z")]);
    assert_eq!(panel.current_folder, "/q");
    assert_eq!(panel.boxes.len(), 1);
    panel.refresh(&vec![]);
    assert!(panel.boxes.is_empty());
}

fn group(name: &str) -> GroupDir {
    group_at(&format!("/p/{}", name))
}

#[test]
fn equal_box_names_keep_their_order() {
    let first = AudioBox { name: "Kick".to_string(), path: "/one".to_string() };
    let second = AudioBox { name: "kick".to_string(), path: "/two".to_string() };
    let sorted = sort_by_name(&vec![first, second, abox("hat")]);
    let paths: Vec<&str> = sorted.iter().map(|b| b.path.as_str()).collect();
    assert_eq!(paths, vec!["/p/hat", "/one", "/two"]);
}

#[test]
fn group_panel_editing() {
    let mut panel = GroupPanel::new("/p".to_string(), &vec![group("Verse"), group("chorus"), group("bridge")]);
    let names: Vec<&str> = panel.groups.iter().map(|g| g.name.as_str()).collect();
    assert_eq!(names, vec!["bridge", "chorus", "Verse"]);
    assert_eq!(panel.groups[2].render_path, "/p/Verse/render.wav");
    assert!(panel.is_current_folder("/p"));
    assert!(!panel.is_current_folder("/q"));
    panel.open_create_dialog();
    assert!(panel.show_create_dialog);
    panel.new_group_name = "  ".to_string();
    assert_eq!(panel.creation_request(), None);
    panel.new_group_name = "a/b".to_string();
    assert_eq!(panel.creation_request(), None);
    panel.new_group_name = "Outro".to_string();
    assert_eq!(panel.creation_request(), Some("Outro".to_string()));
    panel.group_created(group("Outro"));
    assert!(!panel.show_create_dialog);
    assert!(panel.new_group_name.is_empty());
    assert_eq!(panel.groups[3].name, "Outro");
    panel.begin_rename(1);
    assert_eq!(panel.renaming_group_idx, Some(1));
    assert_eq!(panel.new_name_buffer, "chorus");
    panel.new_name_buffer = "".to_string();
    assert_eq!(panel.commit_rename(1), None);
    assert_eq!(panel.renaming_group_idx, None);
    panel.begin_rename(1);
    panel.new_name_buffer = "Hook".to_string();
    assert_eq!(panel.commit_rename(1), Some((1, "Hook".to_string())));
    panel.group_renamed(1, group("Hook"));
    assert_eq!(panel.groups[1].name, "Hook");
    panel.group_renamed(9, group("x"));
    assert_eq!(panel.groups.len(), 4);
    panel.selected_group_idx = Some(1);
    panel.group_deleted(1);
    assert_eq!(panel.groups.len(), 3);
    assert_eq!(panel.selected_group_idx, None);
    panel.selected_group_idx = Some(2);
    panel.group_deleted(0);
    assert_eq!(panel.selected_group_idx, None);
    panel.selected_group_idx = Some(0);
    panel.group_deleted(1);
    assert_eq!(panel.selected_group_idx, Some(0));
    panel.group_deleted(7);
    assert_eq!(panel.groups.len(), 1);
    panel.set_current_folder("/q", false, &vec![]);
    assert_eq!(panel.current_folder, "/p");
    panel.set_current_folder("/q", true, &vec![group("b"), group("A")]);
    assert_eq!(panel.current_folder, "/q");
    assert_eq!(panel.groups[0].name, "A");
    panel.refresh(&vec![]);
    assert!(panel.groups.is_empty());
}

#[test]
fn browser_stays_shown_across_calls() {
    let mut panel = FileBrowserPanel::new("/a/b".to_string(), &vec![]);
    assert!(panel.get_show_panel());
    panel.refresh(&vec![item("/a/b/x.wav", true, false)]);
    assert!(panel.get_show_panel());
    panel.navigate_to("/a/b/c".to_string(), true, &vec![]);
    assert!(panel.get_show_panel());
    panel.navigate_to("/a/b/c/f.txt".to_string(), false, &vec![]);
    assert!(panel.get_show_panel());
    panel.navigate_up(&vec![]);
    panel.navigate_up(&vec![]);
    panel.navigate_up(&vec![]);
    panel.navigate_up(&vec![]);
    assert_eq!(panel.current_folder, "/");
    assert!(panel.get_show_panel());
}

#[test]
fn panel_edits_keep_other_fields() {
    let mut panel = AudioBoxPanel::new("/p".to_string(), &vec![abox("a"), abox("b")]);
    panel.begin_rename(1);
    panel.new_box_name = "typed".to_string();
    panel.set_current_folder("/q", true, &vec![abox("c")]);
    assert_eq!(panel.renaming_box_idx, Some(1));
    assert_eq!(panel.new_name_buffer, "b");
    assert_eq!(panel.new_box_name, "typed");
    assert!(!panel.show_create_dialog);
    assert!(panel.get_show_panel());
}
