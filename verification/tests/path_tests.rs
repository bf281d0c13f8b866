use monlam::paths::{
    file_display_name, get_project_dir, is_audio_extension, is_blank, is_supported_audio_file,
    containing_folder, project_folder, text_contains_char,
};

#[test]
fn audio_extensions_in_any_case() {
    assert!(is_supported_audio_file("song.wav"));
    assert!(is_supported_audio_file("/music/Song.WAV"));
    assert!(is_supported_audio_file("a/b/c.Mp3"));
    assert!(is_supported_audio_file("loop.ogg"));
    assert!(is_supported_audio_file("take.FLAC"));
}

#[test]
fn other_files_are_not_audio() {
    assert!(!is_supported_audio_file("notes.txt"));
    assert!(!is_supported_audio_file("wav"));
    assert!(!is_supported_audio_file(".wav"));
    assert!(!is_supported_audio_file("folder/"));
    assert!(!is_supported_audio_file("archive.wav.zip"));
    assert!(!is_supported_audio_file(""));
}

#[test]
fn audio_extension_is_exact_and_lower_case() {
    assert!(is_audio_extension("wav"));
    assert!(is_audio_extension("flac"));
    assert!(!is_audio_extension("WAV"));
    assert!(!is_audio_extension("wave"));
    assert!(!is_audio_extension(""));
}

#[test]
fn project_dir_is_waveforms_next_to_the_project_file() {
    assert_eq!(get_project_dir("/home/u/song/project.json"), "/home/u/song/waveforms");
    assert_eq!(get_project_dir("project.json"), "waveforms");
    assert_eq!(get_project_dir("/"), "waveforms");
}

#[test]
fn project_folder_is_the_parent() {
    assert_eq!(project_folder("/a/b/project.json"), "/a/b");
    assert_eq!(project_folder("/"), "");
}

#[test]
fn display_name_is_last_component_or_unknown() {
    assert_eq!(file_display_name("/a/b/kick.wav"), "kick.wav");
    assert_eq!(file_display_name("snare.wav"), "snare.wav");
    assert_eq!(file_display_name("/"), "Unknown");
    assert_eq!(file_display_name("a/.."), "Unknown");
}

#[test]
fn blank_and_slash_checks() {
    assert!(is_blank(""));
    assert!(is_blank("  \t\n"));
    assert!(!is_blank(" a "));
    assert!(text_contains_char("a/b", '/'));
    assert!(!text_contains_char("ab", '/'));
}

#[test]
fn unicode_white_space_is_blank() {
    assert!(is_blank("\u{3000}\u{85}\u{a0}\u{2028}"));
    assert!(is_blank("\u{b}\u{c}\r\u{1680}\u{200a}\u{202f}\u{205f}\u{2029}"));
    assert!(!is_blank("\u{200b}"));
    assert!(!is_blank("\u{feff}"));
    assert!(!is_blank("\u{180e}"));
}

#[test]
fn containing_folder_of_paths() {
    assert_eq!(containing_folder("/projects/song/song.json").as_deref(), Some("/projects/song"));
    assert_eq!(containing_folder("song.json").as_deref(), Some(""));
    assert_eq!(containing_folder("/"), None);
    assert_eq!(containing_folder(""), None);
}
