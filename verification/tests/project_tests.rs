use monlam::project::{GroupPlacement, Project, TrackMove};
use monlam::tabs::Tab;
use monlam::tracks::{Sample, TrackItemType};

fn sample(name: &str) -> Sample<()> {
    let mut s = Sample::with_media(());
    s.name = name.to_string();
    s
}

#[test]
fn new_project_has_four_tracks() {
    let p: Project<()> = Project::new();
    assert_eq!(p.tracks.len(), 4);
    for (i, t) in p.tracks.iter().enumerate() {
        assert_eq!(t.id, i);
        assert_eq!(t.name, format!("Track {}", i + 1));
        assert!(!t.muted && !t.soloed && !t.recording);
        assert!(t.samples.is_empty());
    }
    assert_eq!(p.next_track_id, 5);
    assert_eq!(p.tabs.len(), 1);
    assert_eq!(p.tabs[0].name, "Main");
    assert_eq!(p.active_tab_id, 0);
    assert!(!p.is_playing);
}

#[test]
fn test_toggle_track_mute() {
    let mut p: Project<()> = Project::new();
    assert!(!p.tracks[2].muted);
    p.toggle_track_mute(2);
    assert!(p.tracks[2].muted);
    assert!(!p.tracks[1].muted && !p.tracks[3].muted);
    p.toggle_track_mute(2);
    assert!(!p.tracks[2].muted);
}

#[test]
fn toggle_solo_and_record_touch_one_track() {
    let mut p: Project<()> = Project::new();
    p.toggle_track_solo(1);
    p.toggle_track_record(3);
    assert!(p.tracks[1].soloed && !p.tracks[1].recording && !p.tracks[1].muted);
    assert!(p.tracks[3].recording && !p.tracks[3].soloed);
    p.toggle_track_solo(99);
    assert!(p.tracks.iter().filter(|t| t.soloed).count() == 1);
}

#[test]
fn solo_silences_other_tracks() {
    let mut p: Project<()> = Project::new();
    assert!(!p.any_track_soloed());
    assert!(p.track_is_audible(0));
    p.toggle_track_mute(0);
    assert!(!p.track_is_audible(0));
    p.toggle_track_solo(2);
    assert!(p.any_track_soloed());
    assert!(p.track_is_audible(2));
    assert!(!p.track_is_audible(1));
    p.toggle_track_mute(2);
    assert!(!p.track_is_audible(2));
}

#[test]
fn create_track_uses_next_id() {
    let mut p: Project<()> = Project::new();
    let id = p.create_track();
    assert_eq!(id, 5);
    assert_eq!(p.next_track_id, 6);
    assert!(p.modified);
    assert_eq!(p.tracks.len(), 5);
    assert_eq!(p.tracks[4].name, "Track 5");
    assert_eq!(p.create_track(), 6);
}

#[test]
fn samples_get_increasing_ids_and_can_be_deleted() {
    let mut p: Project<()> = Project::new();
    assert_eq!(p.add_sample_to_track(1, sample("a")), Some(0));
    assert_eq!(p.add_sample_to_track(1, sample("b")), Some(1));
    assert_eq!(p.add_sample_to_track(42, sample("c")), None);
    assert_eq!(p.tracks[1].samples.len(), 2);
    let removed = p.delete_sample(1, 0).unwrap();
    assert_eq!(removed.name, "a");
    assert_eq!(p.tracks[1].samples.len(), 1);
    assert_eq!(p.tracks[1].samples[0].id, 1);
    assert!(p.delete_sample(1, 0).is_none());
    assert!(p.delete_sample(7, 1).is_none());
    // the next id continues from the largest one left
    assert_eq!(p.add_sample_to_track(1, sample("d")), Some(2));
}

#[test]
fn move_between_tracks_keeps_the_id() {
    let mut p: Project<()> = Project::new();
    p.add_sample_to_track(0, sample("a"));
    p.add_sample_to_track(0, sample("b"));
    match p.move_sample_between_tracks(0, 1, 3) {
        TrackMove::Moved(k) => assert_eq!(k, 3),
        _ => panic!("expected a move"),
    }
    assert_eq!(p.tracks[0].samples.len(), 1);
    assert_eq!(p.tracks[3].samples[0].name, "b");
    assert_eq!(p.tracks[3].samples[0].id, 1);
    assert!(matches!(p.move_sample_between_tracks(0, 9, 3), TrackMove::NotFound));
    assert!(matches!(p.move_sample_between_tracks(8, 0, 3), TrackMove::NotFound));
    match p.move_sample_between_tracks(0, 0, 77) {
        TrackMove::NoTarget(s) => assert_eq!(s.name, "a"),
        _ => panic!("expected the item back"),
    }
    assert!(p.tracks[0].samples.is_empty());
}

fn group_tab(id: usize, name: &str) -> Tab {
    Tab { id, name: format!("Box: {}", name), is_group: true, group_name: Some(name.to_string()) }
}

#[test]
fn tabs_wrap_around_and_stop_playback_between_kinds() {
    let mut p: Project<()> = Project::new();
    p.tabs.push(group_tab(1, "drums"));
    p.tabs.push(group_tab(2, "bass"));
    assert!(!p.switch_to_next_tab());
    assert_eq!(p.active_tab_id, 1);
    p.switch_to_previous_tab();
    assert_eq!(p.active_tab_id, 0);
    p.switch_to_previous_tab();
    assert_eq!(p.active_tab_id, 2);
    p.switch_to_next_tab();
    assert_eq!(p.active_tab_id, 0);
    p.is_playing = true;
    assert!(p.switch_to_tab(2));
    assert!(!p.is_playing);
    p.is_playing = true;
    assert!(!p.switch_to_tab(1));
    assert!(p.is_playing);
    assert!(!p.switch_to_tab(9));
    assert_eq!(p.active_tab_id, 1);
}

#[test]
fn closing_the_active_tab_activates_the_first() {
    let mut p: Project<()> = Project::new();
    p.tabs.push(group_tab(1, "drums"));
    p.tabs.push(group_tab(2, "bass"));
    p.active_tab_id = 2;
    p.is_playing = true;
    assert!(p.close_tab(2));
    assert!(!p.is_playing);
    assert_eq!(p.tabs.len(), 2);
    assert_eq!(p.active_tab_id, 0);
    assert!(!p.close_tab(5));
    assert!(!p.close_tab(1));
    assert_eq!(p.tabs.len(), 1);
}

#[test]
fn group_tabs_open_once_and_follow_renames() {
    let mut p: Project<()> = Project::new();
    let drums = "drums".to_string();
    assert_eq!(p.focus_group_tab(&drums), None);
    let id = p.open_new_group_tab(&drums);
    assert_eq!(id, 1);
    assert_eq!(p.tabs[1].name, "Box: drums");
    assert_eq!(p.active_tab_id, 1);
    p.active_tab_id = 0;
    p.is_playing = true;
    assert_eq!(p.focus_group_tab(&drums), Some(true));
    assert_eq!(p.active_tab_id, 1);
    p.register_group(&drums);
    p.register_group(&drums);
    assert_eq!(p.audio_boxes, vec!["drums".to_string()]);
    p.rename_group(&drums, &"beats".to_string());
    assert_eq!(p.audio_boxes, vec!["beats".to_string()]);
    assert_eq!(p.tabs[1].name, "Box: beats");
    assert_eq!(p.tabs[1].group_name.as_deref(), Some("beats"));
    assert_eq!(p.tabs[0].name, "Main");
    p.rename_group(&"ghost".to_string(), &"other".to_string());
    assert_eq!(p.audio_boxes, vec!["beats".to_string(), "other".to_string()]);
}

#[test]
fn adopting_a_group_state_keeps_the_tabs() {
    let mut p: Project<()> = Project::new();
    let mut loaded: Project<()> = Project::new();
    loaded.project_name = "drums".to_string();
    loaded.create_track();
    let id = p.adopt_group_state(loaded, &"drums".to_string());
    assert_eq!(id, 1);
    assert_eq!(p.project_name, "drums");
    assert_eq!(p.tracks.len(), 5);
    assert_eq!(p.tabs.len(), 2);
    assert_eq!(p.tabs[1].name, "Box: drums");
    assert_eq!(p.active_tab_id, 1);
}

#[test]
fn items_play_only_in_their_tab_kind() {
    let mut p: Project<()> = Project::new();
    let plain = sample("kick");
    let mut grp = sample("drums");
    grp.item_type = TrackItemType::Group;
    assert!(p.item_plays_in_active_tab(&plain));
    assert!(!p.item_plays_in_active_tab(&grp));
    p.open_new_group_tab(&"drums".to_string());
    assert!(!p.item_plays_in_active_tab(&plain));
    assert!(p.item_plays_in_active_tab(&grp));
    let mut other = sample("bass");
    other.item_type = TrackItemType::Group;
    assert!(!p.item_plays_in_active_tab(&other));
}

#[test]
fn a_group_is_moved_not_copied_between_tracks() {
    let mut p: Project<()> = Project::new();
    let drums = "drums".to_string();
    match p.place_group_on_track(1, &drums, ()) {
        GroupPlacement::Placed(id) => assert_eq!(id, 0),
        _ => panic!("expected placement"),
    }
    assert_eq!(p.locate_group_item(&drums), Some((1, 0)));
    assert!(matches!(p.place_group_on_track(1, &drums, ()), GroupPlacement::AlreadyOnTrack));
    p.add_sample_to_track(2, sample("kick"));
    match p.place_group_on_track(2, &drums, ()) {
        GroupPlacement::Placed(id) => assert_eq!(id, 1),
        _ => panic!("expected placement"),
    }
    assert!(p.tracks[1].samples.is_empty());
    assert_eq!(p.tracks[2].samples.len(), 2);
    assert_eq!(p.tracks[2].samples[1].item_type, TrackItemType::Group);
    assert_eq!(p.locate_group_item(&drums), Some((2, 1)));
    assert!(matches!(p.place_group_on_track(50, &drums, ()), GroupPlacement::NoTrack));
    assert_eq!(p.locate_group_item(&drums), None);
}

#[test]
fn test_track_mute_solo_record() {
    let mut p: Project<()> = Project::new();
    assert_eq!(p.tracks[0].muted, false);
    p.toggle_track_mute(0);
    assert_eq!(p.tracks[0].muted, true);
    p.toggle_track_mute(0);
    assert_eq!(p.tracks[0].muted, false);

    assert_eq!(p.tracks[0].soloed, false);
    p.toggle_track_solo(0);
    assert_eq!(p.tracks[0].soloed, true);
    p.toggle_track_solo(0);
    assert_eq!(p.tracks[0].soloed, false);

    assert_eq!(p.tracks[0].recording, false);
    p.toggle_track_record(0);
    assert_eq!(p.tracks[0].recording, true);
    p.toggle_track_record(0);
    assert_eq!(p.tracks[0].recording, false);
}

#[test]
fn test_toggle_playback() {
    let mut p: Project<()> = Project::new();
    assert_eq!(p.is_playing, false);
    p.toggle_playback();
    assert_eq!(p.is_playing, true);
    p.toggle_playback();
    assert_eq!(p.is_playing, false);
}
