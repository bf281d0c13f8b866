use monlam::project::Project;
use monlam::project_files::{
    existing_project_locations, get_config_path, legacy_waveform_path, new_project_locations,
    project_folder_name, text_contains, waveform_file_path, FolderInfo,
};
use monlam::tracks::Sample;

#[test]
fn blank_projects_are_untitled() {
    assert_eq!(project_folder_name("Song"), "Song");
    assert_eq!(project_folder_name("  "), "Untitled Project");
    assert_eq!(project_folder_name(""), "Untitled Project");
}

#[test]
fn save_locations() {
    let l = new_project_locations("/music", "Song");
    assert_eq!(l.project_folder, "/music/Song");
    assert_eq!(l.waveforms_dir, "/music/Song/waveforms");
    assert_eq!(l.project_file, "/music/Song/project.json");
    let l = new_project_locations("/music", "");
    assert_eq!(l.project_folder, "/music/Untitled Project");
    let l = existing_project_locations("/music/Song/project.json");
    assert_eq!(l.project_folder, "/music/Song");
    assert_eq!(l.waveforms_dir, "/music/Song/waveforms");
    assert_eq!(l.project_file, "/music/Song/project.json");
}

#[test]
fn config_and_waveform_paths() {
    assert_eq!(get_config_path(Some("/home/u".to_string())), "/home/u/.monlam/config.json");
    assert_eq!(get_config_path(None), "./.monlam/config.json");
    assert_eq!(waveform_file_path("/s/project.json", "kick.wav"), "/s/waveforms/kick.wav.json");
}

#[test]
fn substring_search() {
    assert!(text_contains("a/waveforms/b", "waveforms"));
    assert!(text_contains("abc", ""));
    assert!(!text_contains("wave", "waveforms"));
    assert!(!text_contains("a/b", "c"));
    assert!(text_contains("aab", "ab"));
}

#[test]
fn legacy_waveform_locations() {
    assert_eq!(
        legacy_waveform_path("/m/Song/waveforms/kick.json", Some("/home/u".to_string())).as_deref(),
        Some("/home/u/.monlam/projects/Song/kick.json")
    );
    assert_eq!(
        legacy_waveform_path("waveforms/kick.json", None).as_deref(),
        Some("./.monlam/projects/unnamed/kick.json")
    );
    assert_eq!(legacy_waveform_path("/m/Song/kick.json", None), None);
}

fn folder(path: &str, is_dir: bool, has_render: bool, has_state: bool) -> FolderInfo {
    FolderInfo { path: path.to_string(), is_dir, has_render, has_state }
}

#[test]
fn groups_are_found_once_when_none_are_known() {
    let mut p: Project<()> = Project::new();
    let folders = vec![
        folder("/s/waveforms", true, true, true),
        folder("/s/drums", true, true, false),
        folder("/s/empty", true, false, false),
        folder("/s/file.wav", false, true, true),
        folder("/s/bass", true, false, true),
        folder("/t/drums", true, true, true),
    ];
    p.register_found_groups(&folders);
    assert_eq!(p.audio_boxes, vec!["drums".to_string(), "bass".to_string()]);
    p.register_found_groups(&vec![folder("/s/keys", true, true, false)]);
    assert_eq!(p.audio_boxes.len(), 2);
}

#[test]
fn last_item_of_a_track() {
    let mut p: Project<()> = Project::new();
    assert_eq!(p.last_sample_id(0), None);
    p.add_sample_to_track(0, Sample::with_media(()));
    p.add_sample_to_track(0, Sample::with_media(()));
    assert_eq!(p.last_sample_id(0), Some(1));
    assert_eq!(p.last_sample_id(12), None);
}
